//! Decimal numbers as text, and numbers as bytes.

use crate::text::chars_of;
use vstd::prelude::*;

verus! {

/// The character of one decimal digit.
pub open spec fn digit(d: nat) -> char {
    (48 + d) as char
}

/// `n` in decimal, without leading zeros.
pub open spec fn decimal(n: nat) -> Seq<char>
    decreases n,
{
    if n < 10 {
        seq![digit(n)]
    } else {
        decimal(n / 10).push(digit(n % 10))
    }
}

/// Appends `n` in decimal to `out`.
fn push_decimal(n: u128, out: &mut String)
    ensures
        final(out)@ == old(out)@ + decimal(n as nat),
    decreases n,
{
    if n >= 10 {
        push_decimal(n / 10, out);
    }
    let d: u8 = (n % 10) as u8;
    out.push((48u8 + d) as char);
}

/// `n` in decimal, without leading zeros.
pub fn print(n: u128) -> (res: String)
    ensures
        res@ == decimal(n as nat),
{
    let mut out = String::new();
    push_decimal(n, &mut out);
    out
}

/// `c` is a decimal digit of ASCII.
pub open spec fn is_digit(c: char) -> bool {
    '0' <= c <= '9'
}

/// `s` holds decimal digits alone.
pub open spec fn all_digits(s: Seq<char>) -> bool {
    forall|i: int| 0 <= i < s.len() ==> is_digit(#[trigger] s[i])
}

/// The number that the digits `s` stand for.
pub open spec fn value(s: Seq<char>) -> nat
    decreases s.len(),
{
    if s.len() == 0 {
        0
    } else {
        value(s.drop_last()) * 10 + (s.last() as nat - 48) as nat
    }
}

/// The number that `s` reads as: one or more digits, after a plus sign or
/// nothing, with a value of at most `max`.
pub open spec fn number(s: Seq<char>, max: nat) -> Option<nat> {
    let d = if s.len() > 0 && s[0] == '+' {
        s.drop_first()
    } else {
        s
    };
    if d.len() > 0 && all_digits(d) && value(d) <= max {
        Some(value(d))
    } else {
        None
    }
}

/// Digits that follow only make a number larger.
proof fn lemma_value_grows(s: Seq<char>, k: int)
    requires
        all_digits(s),
        0 <= k <= s.len(),
    ensures
        value(s.take(k)) <= value(s),
    decreases s.len() - k,
{
    if k == s.len() {
        assert(s.take(k) =~= s);
    } else {
        lemma_value_grows(s, k + 1);
        assert(s.take(k + 1).drop_last() =~= s.take(k));
    }
}

/// Reads `s` as a number of at most `max`.
pub fn parse(s: &str, max: u64) -> (res: Option<u64>)
    ensures
        match res {
            Some(n) => number(s@, max as nat) == Some(n as nat),
            None => number(s@, max as nat) is None,
        },
{
    let cs = chars_of(s);
    let from: usize = if cs.len() > 0 && cs[0] == '+' {
        1
    } else {
        0
    };
    let ghost d = s@.skip(from as int);
    assert(from == 0 ==> d =~= s@);
    assert(from == 1 ==> d =~= s@.drop_first());
    if from == cs.len() {
        return None;
    }
    let mut n: u64 = 0;
    let mut i: usize = from;
    while i < cs.len()
        invariant
            cs@ == s@,
            from <= i <= cs@.len(),
            d == s@.skip(from as int),
            n <= max,
            n == value(d.take(i - from)),
            forall|j: int| 0 <= j < i - from ==> is_digit(#[trigger] d[j]),
            number(s@, max as nat) == (if d.len() > 0 && all_digits(d) && value(d) <= max {
                Some(value(d))
            } else {
                None
            }),
        decreases cs@.len() - i,
    {
        let c = cs[i];
        assert(d[i - from] == c);
        if c < '0' || c > '9' {
            assert(!is_digit(d[i - from]));
            return None;
        }
        let k: u64 = (c as u8 - 48u8) as u64;
        assert(d.take(i - from + 1).drop_last() =~= d.take(i - from));
        proof {
            if all_digits(d) {
                lemma_value_grows(d, i - from + 1);
            }
        }
        if k > max || n > max / 10 || n * 10 > max - k {
            return None;
        }
        n = n * 10 + k;
        i += 1;
    }
    assert(d.take(i - from) =~= d);
    Some(n)
}

/// Reading back what `print` wrote gives the number.
pub proof fn law_print_then_parse(n: nat, max: nat)
    requires
        n <= max,
    ensures
        number(decimal(n), max) == Some(n),
{
    lemma_decimal(n);
}

/// The digits of `decimal(n)` are digits, and stand for `n`.
pub proof fn lemma_decimal(n: nat)
    ensures
        decimal(n).len() > 0,
        all_digits(decimal(n)),
        value(decimal(n)) == n,
    decreases n,
{
    reveal_with_fuel(value, 2);
    if n >= 10 {
        lemma_decimal(n / 10);
        assert(decimal(n).drop_last() =~= decimal(n / 10));
    } else {
        assert(decimal(n).drop_last() =~= Seq::<char>::empty());
    }
}

/// The lowest `k` bytes of `n`, least significant first.
pub open spec fn le_bytes(n: nat, k: nat) -> Seq<u8>
    decreases k,
{
    if k == 0 {
        Seq::empty()
    } else {
        seq![(n % 256) as u8] + le_bytes(n / 256, (k - 1) as nat)
    }
}

/// The number whose bytes, least significant first, are `b`.
pub open spec fn le_value(b: Seq<u8>) -> nat
    decreases b.len(),
{
    if b.len() == 0 {
        0
    } else {
        b[0] as nat + 256 * le_value(b.drop_first())
    }
}

/// `n` as four bytes, most significant first.
pub open spec fn be_bytes4(n: nat) -> Seq<u8> {
    seq![
        (n / 0x100_0000 % 256) as u8,
        (n / 0x1_0000 % 256) as u8,
        (n / 0x100 % 256) as u8,
        (n % 256) as u8,
    ]
}

/// Two bytes, least significant first, as a number.
pub open spec fn le_value2(b: Seq<u8>, at: int) -> nat {
    b[at] as nat + 0x100 * b[at + 1] as nat
}

/// Four bytes, least significant first, as a number.
pub open spec fn le_value4(b: Seq<u8>, at: int) -> nat {
    b[at] as nat + 0x100 * b[at + 1] as nat + 0x1_0000 * b[at + 2] as nat + 0x100_0000 * b[at
        + 3] as nat
}

/// `le_bytes` of two bytes, written out.
pub proof fn lemma_le_bytes2(n: nat)
    ensures
        le_bytes(n, 2) == seq![(n % 256) as u8, (n / 256 % 256) as u8],
{
    reveal_with_fuel(le_bytes, 3);
    assert(le_bytes(n, 2) =~= seq![(n % 256) as u8, (n / 256 % 256) as u8]);
}

/// `le_bytes` of four bytes, written out.
pub proof fn lemma_le_bytes4(n: nat)
    ensures
        le_bytes(n, 4) == seq![
            (n % 256) as u8,
            (n / 0x100 % 256) as u8,
            (n / 0x1_0000 % 256) as u8,
            (n / 0x100_0000 % 256) as u8,
        ],
{
    reveal_with_fuel(le_bytes, 5);
    assert(n / 256 / 256 == n / 0x1_0000) by (nonlinear_arith);
    assert(n / 256 / 256 / 256 == n / 0x100_0000) by (nonlinear_arith);
    assert(le_bytes(n, 4) =~= seq![
        (n % 256) as u8,
        (n / 0x100 % 256) as u8,
        (n / 0x1_0000 % 256) as u8,
        (n / 0x100_0000 % 256) as u8,
    ]);
}

/// Appends the two bytes of `n`, least significant first.
pub fn push_u16(out: &mut Vec<u8>, n: u16)
    ensures
        final(out)@ == old(out)@ + le_bytes(n as nat, 2),
{
    proof {
        lemma_le_bytes2(n as nat);
    }
    out.push((n % 256) as u8);
    out.push((n / 256 % 256) as u8);
}

/// Appends the four bytes of `n`, least significant first.
pub fn push_u32(out: &mut Vec<u8>, n: u32)
    ensures
        final(out)@ == old(out)@ + le_bytes(n as nat, 4),
{
    proof {
        lemma_le_bytes4(n as nat);
    }
    out.push((n % 256) as u8);
    out.push((n / 0x100 % 256) as u8);
    out.push((n / 0x1_0000 % 256) as u8);
    out.push((n / 0x100_0000 % 256) as u8);
}

/// A number is read from its digits, whatever zeros stand before them and with or without a
/// plus sign, as long as it is not too large.
pub proof fn law_zeros_and_sign_do_not_count(s: Seq<char>, max: nat)
    requires
        s.len() > 0,
        all_digits(s),
    ensures
        number(s, max) is Some <==> value(s) <= max,
        number(seq!['+'] + s, max) == number(s, max),
        number(seq!['0'] + s, max) == number(s, max),
{
    let p = seq!['+'] + s;
    assert(p.drop_first() =~= s);
    assert(s[0] != '+');
    let z = seq!['0'] + s;
    lemma_leading_zero(s);
    assert(all_digits(z)) by {
        assert forall|i: int| 0 <= i < z.len() implies is_digit(#[trigger] z[i]) by {
            if i > 0 {
                assert(z[i] == s[i - 1]);
            }
        }
    }
    assert(z[0] != '+');
}

proof fn lemma_leading_zero(s: Seq<char>)
    requires
        all_digits(s),
    ensures
        value(seq!['0'] + s) == value(s),
    decreases s.len(),
{
    let z = seq!['0'] + s;
    if s.len() == 0 {
        assert(z =~= seq!['0']);
        assert(z.drop_last() =~= Seq::<char>::empty());
        reveal_with_fuel(value, 2);
    } else {
        assert(z.drop_last() =~= seq!['0'] + s.drop_last());
        lemma_leading_zero(s.drop_last());
    }
}

/// Nothing but digits, after a plus sign at most, is a number.
pub proof fn law_what_is_no_number(s: Seq<char>, i: int, max: nat)
    requires
        0 <= i < s.len(),
        !('0' <= s[i] <= '9'),
        i > 0 || s[i] != '+' || s.len() == 1,
    ensures
        number(s, max) is None,
        number(Seq::empty(), max) is None,
{
    if s[0] == '+' {
        if i > 0 {
            assert(s.drop_first()[i - 1] == s[i]);
        }
    } else {
        assert(!is_digit(s[i]));
    }
}

/// A number is written without zeros before it.
pub proof fn law_no_leading_zeros(n: nat)
    ensures
        decimal(0) == seq!['0'],
        n > 0 ==> decimal(n)[0] != '0',
    decreases n,
{
    assert(decimal(0) =~= seq!['0']);
    if n >= 10 {
        law_no_leading_zeros(n / 10);
        lemma_decimal(n / 10);
        assert(decimal(n)[0] == decimal(n / 10)[0]);
    }
}

} // verus!
