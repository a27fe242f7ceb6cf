//! Byte sequences: comparing them, and reading them as text.

use vstd::prelude::*;
use vstd::utf8::{decode_utf8, encode_utf8, valid_utf8};

verus! {

/// `std::str::from_utf8`: the text whose UTF-8 form is `b`; nothing exactly when
/// `b` is not valid UTF-8.
#[verifier::external_body]
pub(crate) fn utf8_text(b: &[u8]) -> (res: Option<&str>)
    ensures
        match res {
            Some(s) => valid_utf8(b@) && s@ == decode_utf8(b@),
            None => !valid_utf8(b@),
        },
{
    std::str::from_utf8(b).ok()
}

/// What `String::from_utf8_lossy` makes of bytes.
pub uninterp spec fn lossy(b: Seq<u8>) -> Seq<char>;

/// Two texts with a line feed between them.
pub open spec fn on_two_lines(a: Seq<u8>, b: Seq<u8>) -> Seq<u8> {
    a.push(10u8) + b
}

/// `String::from_utf8_lossy`: bytes as text, with replacement characters where
/// they are not UTF-8. Of valid UTF-8 it is the text itself. Only sequences that are not UTF-8
/// are replaced, and a line feed, a character of its own, is part of none: what stands before
/// it and what follows are each read by themselves.
#[verifier::external_body]
pub(crate) fn lossy_text(b: &[u8]) -> (res: String)
    ensures
        res@ == lossy(b@),
        valid_utf8(b@) ==> res@ == decode_utf8(b@),
        forall|x: Seq<u8>, y: Seq<u8>| #[trigger]
            on_two_lines(x, y) == b@ ==> res@ == lossy(x).push('\n') + lossy(y),
{
    String::from_utf8_lossy(b).into_owned()
}

proof fn lemma_scalar_bytes(v: u32, b: u8)
    requires
        b < 0x80,
        v != b,
    ensures
        !vstd::utf8::encode_scalar(v).contains(b),
{
    assert(forall|x: u8| #[trigger] (0xC0u8 | x) >= 0x80) by (bit_vector);
    assert(forall|x: u8| #[trigger] (0xE0u8 | x) >= 0x80) by (bit_vector);
    assert(forall|x: u8| #[trigger] (0xF0u8 | x) >= 0x80) by (bit_vector);
    assert(forall|x: u8| #[trigger] (0x80u8 | x) >= 0x80) by (bit_vector);
    assert(v <= 0x7f ==> (v & 0x7F) as u8 == v) by (bit_vector);
}

/// A byte of ASCII stands in the UTF-8 form of a text only for its own character.
pub proof fn lemma_ascii_byte(s: Seq<char>, b: u8)
    requires
        b < 0x80,
        !s.contains(b as char),
    ensures
        !encode_utf8(s).contains(b),
    decreases s.len(),
{
    if s.len() > 0 {
        let t = s.drop_first();
        if t.contains(b as char) {
            let i = choose|i: int| 0 <= i < t.len() && t[i] == b as char;
            assert(s[i + 1] == b as char);
        }
        lemma_ascii_byte(t, b);
        assert(s[0] != b as char);
        vstd::utf8::char_is_scalar(s[0]);
        if s[0] as u32 == b {
            vstd::utf8::char_u32_cast(s[0], b as u32);
        }
        lemma_scalar_bytes(s[0] as u32, b);
        let h = vstd::utf8::encode_scalar(s[0] as u32);
        let all = encode_utf8(s);
        if all.contains(b) {
            let i = choose|i: int| 0 <= i < all.len() && all[i] == b;
            if i < h.len() {
                assert(h[i] == b);
            } else {
                assert(encode_utf8(t)[i - h.len()] == b);
            }
        }
    }
}

/// Whether two byte sequences are equal.
pub fn same(a: &[u8], b: &[u8]) -> (res: bool)
    ensures
        res == (a@ == b@),
{
    if a.len() != b.len() {
        return false;
    }
    let mut i: usize = 0;
    while i < a.len()
        invariant
            i <= a@.len(),
            a@.len() == b@.len(),
            forall|j: int| 0 <= j < i ==> a@[j] == b@[j],
        decreases a@.len() - i,
    {
        if a[i] != b[i] {
            return false;
        }
        i += 1;
    }
    assert(a@ =~= b@);
    true
}

/// Whether `b` begins with `p`.
pub fn starts_with(b: &[u8], p: &[u8]) -> (res: bool)
    ensures
        res == p@.is_prefix_of(b@),
{
    if p.len() > b.len() {
        return false;
    }
    let head = vstd::slice::slice_subrange(b, 0, p.len());
    same(head, p)
}

/// A copy of `b`.
pub fn to_vec(b: &[u8]) -> (res: Vec<u8>)
    ensures
        res@ == b@,
{
    let mut out: Vec<u8> = Vec::new();
    out.extend_from_slice(b);
    assert(out@ =~= b@);
    out
}

} // verus!
