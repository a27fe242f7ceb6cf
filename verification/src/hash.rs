//! SHA-256 digests as text.

use vstd::prelude::*;

verus! {

/// The SHA-256 digest of bytes.
pub uninterp spec fn sha256(b: Seq<u8>) -> Seq<u8>;

/// `sha2::Sha256::digest`: the digest, of 32 bytes.
#[verifier::external_body]
fn digest(b: &[u8]) -> (res: Vec<u8>)
    ensures
        res@ == sha256(b@),
        res@.len() == 32,
{
    <sha2::Sha256 as sha2::Digest>::digest(b).to_vec()
}

/// The hexadecimal digit for `n`, in lower case.
pub open spec fn hex_digit(n: nat) -> char {
    if n < 10 {
        (48 + n) as char
    } else {
        (87 + n) as char
    }
}

/// Bytes in lower-case hexadecimal, two digits each.
pub open spec fn hex(b: Seq<u8>) -> Seq<char>
    decreases b.len(),
{
    if b.len() == 0 {
        Seq::empty()
    } else {
        hex(b.drop_last()) + seq![
            hex_digit(b.last() as nat / 16),
            hex_digit(b.last() as nat % 16),
        ]
    }
}

fn hex_char(n: u8) -> (res: char)
    requires
        n < 16,
    ensures
        res == hex_digit(n as nat),
{
    if n < 10 {
        (48u8 + n) as char
    } else {
        (87u8 + n) as char
    }
}

/// Bytes in lower-case hexadecimal, two digits each.
pub fn to_hex(b: &[u8]) -> (res: String)
    ensures
        res@ == hex(b@),
{
    let mut out = String::new();
    let mut i: usize = 0;
    assert(b@.take(0) =~= Seq::<u8>::empty());
    while i < b.len()
        invariant
            i <= b@.len(),
            out@ == hex(b@.take(i as int)),
        decreases b@.len() - i,
    {
        assert(b@.take(i + 1).drop_last() =~= b@.take(i as int));
        out.push(hex_char(b[i] / 16));
        out.push(hex_char(b[i] % 16));
        assert(out@ =~= hex(b@.take(i + 1)));
        i += 1;
    }
    assert(b@.take(i as int) =~= b@);
    out
}

/// The SHA-256 digest of `b` in lower-case hexadecimal.
pub open spec fn sha256_text(b: Seq<u8>) -> Seq<char> {
    hex(sha256(b))
}

/// Every character of `hex` is a lower-case hexadecimal digit, two for a byte.
pub proof fn lemma_hex(b: Seq<u8>)
    ensures
        hex(b).len() == 2 * b.len(),
        forall|i: int| 0 <= i < hex(b).len() ==> crate::message::is_hex(#[trigger] hex(b)[i]),
    decreases b.len(),
{
    if b.len() > 0 {
        lemma_hex(b.drop_last());
    }
}

/// The SHA-256 digest of `b` in lower-case hexadecimal: 64 digits.
pub fn sha256_hex(b: &[u8]) -> (res: String)
    ensures
        res@ == sha256_text(b@),
        res@.len() == 64,
        forall|i: int| 0 <= i < 64 ==> crate::message::is_hex(#[trigger] res@[i]),
{
    let d = digest(b);
    proof {
        lemma_hex(d@);
    }
    to_hex(d.as_slice())
}

/// Different bytes are written differently, in digits of base sixteen.
pub proof fn law_hexadecimal_is_exact(a: Seq<u8>, b: Seq<u8>)
    requires
        hex(a) == hex(b),
    ensures
        a == b,
    decreases a.len(),
{
    lemma_hex(a);
    lemma_hex(b);
    if a.len() > 0 {
        let n = hex(a).len() as int;
        assert(hex(a).take(n - 2) =~= hex(a.drop_last()));
        assert(hex(b).take(n - 2) =~= hex(b.drop_last()));
        law_hexadecimal_is_exact(a.drop_last(), b.drop_last());
        assert(hex(a)[n - 2] == hex_digit(a.last() as nat / 16));
        assert(hex(b)[n - 2] == hex_digit(b.last() as nat / 16));
        assert(hex(a)[n - 1] == hex_digit(a.last() as nat % 16));
        assert(hex(b)[n - 1] == hex_digit(b.last() as nat % 16));
        assert(a.last() as nat / 16 == b.last() as nat / 16);
        assert(a.last() as nat % 16 == b.last() as nat % 16);
        assert(a =~= a.drop_last().push(a.last()));
        assert(b =~= b.drop_last().push(b.last()));
    } else {
        assert(a =~= b);
    }
}

/// The value of a digit of base sixteen.
pub open spec fn hex_value(c: char) -> int {
    if '0' <= c <= '9' {
        c as int - '0' as int
    } else {
        c as int - 'a' as int + 10
    }
}

/// Two digits give back the byte at their place, the higher one first.
pub proof fn law_two_digits_for_a_byte(b: Seq<u8>, i: int)
    requires
        0 <= i < b.len(),
    ensures
        hex(b).len() == 2 * b.len(),
        hex_value(hex(b)[2 * i]) * 16 + hex_value(hex(b)[2 * i + 1]) == b[i],
    decreases b.len(),
{
    lemma_hex(b);
    lemma_hex(b.drop_last());
    if i == b.len() - 1 {
        assert(hex(b)[2 * i] == hex_digit(b.last() as nat / 16));
        assert(hex(b)[2 * i + 1] == hex_digit(b.last() as nat % 16));
    } else {
        law_two_digits_for_a_byte(b.drop_last(), i);
        assert(hex(b)[2 * i] == hex(b.drop_last())[2 * i]);
        assert(hex(b)[2 * i + 1] == hex(b.drop_last())[2 * i + 1]);
    }
}

/// A digest is written in full: two digits for each byte of the digest of all the bytes.
pub proof fn law_digest_is_written_in_full(b: Seq<u8>, i: int)
    requires
        0 <= i < sha256(b).len(),
    ensures
        sha256_text(b).len() == 2 * sha256(b).len(),
        hex_value(sha256_text(b)[2 * i]) * 16 + hex_value(sha256_text(b)[2 * i + 1]) == sha256(b)[i],
{
    law_two_digits_for_a_byte(sha256(b), i);
}

} // verus!
