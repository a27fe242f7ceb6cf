//! Markers that hold back content for a while: a file with a digest and the time
//! until which that digest is not to be published. A star in place of the digest stands for
//! every digest.

use crate::bytes::lemma_ascii_byte;
use crate::consts::FILE_SUPPRESS_KEY;
use crate::number::{decimal, number, parse, print};
use crate::path::{join_text, law_name_lies_in_its_directory, parts, PartView};
use crate::paths::in_dir;
use crate::text::{lines, lines_of, replace, replaced, same, trim, trimmed};
use vstd::prelude::*;
use vstd::utf8::{encode_utf8, encode_utf8_decode_utf8, is_ascii_chars_encode_utf8};

verus! {

/// The name of the marker for a room and a key.
pub open spec fn suppress_name(room: Seq<char>, mime: Seq<char>) -> Seq<char> {
    "suppress_"@ + replaced(room, '/', '_') + "_"@ + replaced(
        replaced(replaced(mime, '/', '_'), ';', '_'),
        '=',
        '_',
    )
}

/// The marker's file for a room and a key. Rooms have markers of their own.
pub fn suppress_path(state_dir: &[u8], room: &str, mime: &str) -> (res: Vec<u8>)
    ensures
        res@ == in_dir(state_dir@, suppress_name(room@, mime@)),
{
    let a = replace(mime, '/', '_');
    let b = replace(a.as_str(), ';', '_');
    let c = replace(b.as_str(), '=', '_');
    let mut name = String::new();
    name.append("suppress_");
    name.append(replace(room, '/', '_').as_str());
    name.append("_");
    name.append(c.as_str());
    assert(name@ =~= suppress_name(room@, mime@));
    join_text(state_dir, name.as_str())
}

/// The marker's file for files.
pub fn file_suppress_path(state_dir: &[u8], room: &str) -> (res: Vec<u8>)
    ensures
        res@ == in_dir(state_dir@, suppress_name(room@, FILE_SUPPRESS_KEY@)),
{
    suppress_path(state_dir, room, FILE_SUPPRESS_KEY)
}

/// The time at which a marker set at `now` for `ttl` milliseconds ends.
pub open spec fn expiry(now: u64, ttl: u64) -> u64 {
    if now + ttl > u64::MAX {
        u64::MAX
    } else {
        (now + ttl) as u64
    }
}

/// The contents of a marker.
pub open spec fn marker(sha: Seq<char>, expires: u64) -> Seq<char> {
    sha.push('\n') + decimal(expires as nat).push('\n')
}

/// The contents of a marker that is set at `now` for `ttl` milliseconds.
pub fn marker_text(sha: &str, now: u64, ttl: u64) -> (res: String)
    ensures
        res@ == marker(sha@, expiry(now, ttl)),
{
    let expires = now.saturating_add(ttl);
    let mut out = sha.to_string();
    out.push('\n');
    out.append(print(expires as u128).as_str());
    out.push('\n');
    assert(out@ =~= marker(sha@, expires));
    out
}

/// A line of a marker, trimmed, or what stands for it where it is missing.
pub open spec fn marker_line(file: Seq<char>, i: int, missing: Seq<char>) -> Seq<char> {
    if i < lines_of(file).len() {
        trimmed(lines_of(file)[i])
    } else {
        trimmed(missing)
    }
}

/// The time until which a marker holds; zero where it cannot be read.
pub open spec fn marker_expiry(file: Seq<char>) -> nat {
    match number(marker_line(file, 1, "0"@), u64::MAX as nat) {
        Some(n) => n,
        None => 0,
    }
}

/// What stands in a marker for every digest.
pub const EVERY_DIGEST: &'static str = "*";

/// The marker `file` holds `sha` back at time `now`.
pub open spec fn holds_back(file: Seq<char>, sha: Seq<char>, now: u64) -> bool {
    (marker_line(file, 0, ""@) == sha || marker_line(file, 0, ""@) == EVERY_DIGEST@) && now
        <= marker_expiry(file)
}

/// Whether a marker holds `sha` back at time `now`. `file` is what the marker's file
/// holds, or nothing where there is none.
pub fn is_suppressed(file: Option<&str>, sha: &str, now: u64) -> (res: bool)
    ensures
        res == (file is Some && holds_back(file->0@, sha@, now)),
{
    let file = match file {
        Some(f) => f,
        None => return false,
    };
    let ls = lines(file);
    let ghost want = lines_of(file@);
    assert(want.len() == ls@.len());
    let first: &str = if ls.len() > 0 {
        assert(want[0] == ls@[0]@);
        ls[0].as_str()
    } else {
        ""
    };
    let second: &str = if ls.len() > 1 {
        assert(want[1] == ls@[1]@);
        ls[1].as_str()
    } else {
        "0"
    };
    if !same(trim(first), sha) && !same(trim(first), EVERY_DIGEST) {
        return false;
    }
    let until: u64 = match parse(trim(second), u64::MAX) {
        Some(n) => n,
        None => 0,
    };
    now <= until
}

/// A marker holds its own digest back until its time, and no other digest, unless it is set
/// for every digest: then it holds back each of them until its time.
pub proof fn law_marker_holds_its_digest(sha: Seq<char>, expires: u64, other: Seq<char>, now: u64)
    requires
        !sha.contains('\n'),
        trimmed(sha) == sha,
    ensures
        holds_back(marker(sha, expires), other, now) <==> (other == sha || sha == EVERY_DIGEST@)
            && now <= expires,
{
    let d = decimal(expires as nat);
    let file = marker(sha, expires);
    crate::number::lemma_decimal(expires as nat);
    crate::number::law_print_then_parse(expires as nat, u64::MAX as nat);
    crate::text::lemma_first_line(sha, d.push('\n'));
    if d.contains('\n') {
        let i = choose|i: int| 0 <= i < d.len() && d[i] == '\n';
        assert(crate::number::is_digit(d[i]));
    }
    crate::text::lemma_first_line(d, Seq::empty());
    assert(d.push('\n') + Seq::<char>::empty() =~= d.push('\n'));
    assert(crate::number::is_digit(d[0]));
    assert(crate::number::is_digit(d.last()));
    crate::text::lemma_trimmed(d);
    assert(lines_of(Seq::<char>::empty()).len() == 0);
    let ls = lines_of(file);
    assert(ls =~= seq![crate::text::without_cr(sha), crate::text::without_cr(d)]);
    assert(crate::text::without_cr(d) == d);
    if sha.len() > 0 && sha.last() == '\r' {
        lemma_no_trailing_white(sha);
    }
}

/// A marker lies directly in the directory for state, whatever slashes the room and the key
/// hold.
pub proof fn law_markers_lie_in_the_state_directory(
    state_dir: Seq<u8>,
    room: Seq<char>,
    mime: Seq<char>,
)
    ensures
        parts(in_dir(state_dir, suppress_name(room, mime))) == parts(state_dir).push(
            PartView::Name(encode_utf8(suppress_name(room, mime))),
        ),
{
    let name = suppress_name(room, mime);
    let b = encode_utf8(name);
    reveal_strlit("suppress_");
    reveal_strlit("_");
    let r = replaced(room, '/', '_');
    let m = replaced(replaced(replaced(mime, '/', '_'), ';', '_'), '=', '_');
    if name.contains('/') {
        let i = choose|i: int| 0 <= i < name.len() && name[i] == '/';
        if i < 9 {
            assert(name[i] == "suppress_"@[i]);
        } else if i < 9 + r.len() {
            assert(name[i] == r[i - 9]);
        } else if i > 9 + r.len() {
            assert(name[i] == m[i - 10 - r.len()]);
        }
    }
    lemma_ascii_byte(name, 47u8);
    encode_utf8_decode_utf8(name);
    encode_utf8_decode_utf8(seq!['.']);
    encode_utf8_decode_utf8(seq!['.', '.']);
    is_ascii_chars_encode_utf8(seq!['.']);
    is_ascii_chars_encode_utf8(seq!['.', '.']);
    assert(encode_utf8(seq!['.']) =~= seq![46u8]);
    assert(encode_utf8(seq!['.', '.']) =~= seq![46u8, 46u8]);
    assert(b.len() > 0) by {
        assert(encode_utf8(name) == vstd::utf8::encode_scalar(name[0] as u32) + encode_utf8(
            name.drop_first(),
        ));
    }
    law_name_lies_in_its_directory(state_dir, b);
}

/// Two rooms whose names hold no slash have different markers for the same key.
pub proof fn law_rooms_have_markers_of_their_own(
    state_dir: Seq<u8>,
    a: Seq<char>,
    b: Seq<char>,
    mime: Seq<char>,
)
    requires
        a != b,
        !a.contains('/'),
        !b.contains('/'),
    ensures
        in_dir(state_dir, suppress_name(a, mime)) != in_dir(state_dir, suppress_name(b, mime)),
{
    let x = suppress_name(a, mime);
    let y = suppress_name(b, mime);
    assert(replaced(a, '/', '_') =~= a);
    assert(replaced(b, '/', '_') =~= b);
    if x == y {
        let n = "suppress_"@.len() as int;
        assert(x.len() - a.len() == y.len() - b.len());
        assert(x.subrange(n, n + a.len()) =~= a);
        assert(y.subrange(n, n + b.len()) =~= b);
    }
    encode_utf8_decode_utf8(x);
    encode_utf8_decode_utf8(y);
    law_markers_lie_in_the_state_directory(state_dir, a, mime);
    law_markers_lie_in_the_state_directory(state_dir, b, mime);
    let p = parts(state_dir);
    assert(p.push(PartView::Name(encode_utf8(x))).last() != p.push(
        PartView::Name(encode_utf8(y)),
    ).last());
}

proof fn lemma_no_trailing_white(s: Seq<char>)
    requires
        s.len() > 0,
        trimmed(s) == s,
    ensures
        !crate::text::is_white(s.last()),
{
    let t = crate::text::trimmed_start(s);
    lemma_trim_shrinks(s);
    lemma_trim_end_shrinks(t);
    assert(t.len() == s.len());
    if crate::text::is_white(s[0]) {
        lemma_trim_shrinks(s.drop_first());
    }
    assert(t == s);
    if crate::text::is_white(s.last()) {
        lemma_trim_end_shrinks(s.drop_last());
    }
}

proof fn lemma_trim_shrinks(s: Seq<char>)
    ensures
        crate::text::trimmed_start(s).len() <= s.len(),
    decreases s.len(),
{
    if s.len() > 0 && crate::text::is_white(s[0]) {
        lemma_trim_shrinks(s.drop_first());
    }
}

proof fn lemma_trim_end_shrinks(s: Seq<char>)
    ensures
        crate::text::trimmed_end(s).len() <= s.len(),
    decreases s.len(),
{
    if s.len() > 0 && crate::text::is_white(s.last()) {
        lemma_trim_end_shrinks(s.drop_last());
    }
}

/// A marker ends when its time has passed, and at the end of time at the latest.
pub proof fn law_when_a_marker_ends(now: u64, ttl: u64)
    ensures
        now <= expiry(now, ttl),
        now + ttl <= 18446744073709551615 ==> expiry(now, ttl) == now + ttl,
        now + ttl > 18446744073709551615 ==> expiry(now, ttl) == 18446744073709551615,
{
}

/// In a room, two types have one marker only where they are written alike but for slashes,
/// semicolons and equals signs.
pub proof fn law_types_have_markers_of_their_own(
    room: Seq<char>,
    a: Seq<char>,
    b: Seq<char>,
    i: int,
)
    requires
        suppress_name(room, a) == suppress_name(room, b),
        0 <= i < a.len(),
    ensures
        a.len() == b.len(),
        a[i] == b[i] || (a[i] == '/' || a[i] == ';' || a[i] == '=' || a[i] == '_') && (b[i] == '/'
            || b[i] == ';' || b[i] == '=' || b[i] == '_'),
{
    let x = suppress_name(room, a);
    let y = suppress_name(room, b);
    let h = ("suppress_"@ + replaced(room, '/', '_') + "_"@).len() as int;
    let u = replaced(replaced(replaced(a, '/', '_'), ';', '_'), '=', '_');
    let v = replaced(replaced(replaced(b, '/', '_'), ';', '_'), '=', '_');
    assert(x.skip(h) =~= u);
    assert(y.skip(h) =~= v);
    assert(u.len() == a.len() && v.len() == b.len());
    assert(u[i] == v[i]);
}

/// Without a second line a marker holds nothing back after the start of time.
pub proof fn law_a_marker_needs_its_time(file: Seq<char>, sha: Seq<char>, now: u64)
    requires
        lines_of(file).len() < 2,
        now > 0,
    ensures
        !holds_back(file, sha, now),
{
    reveal_strlit("0");
    let z = "0"@;
    assert(z =~= seq!['0']);
    crate::text::lemma_trimmed(z);
    assert(z.drop_last() =~= Seq::<char>::empty());
    reveal_with_fuel(crate::number::value, 2);
}

} // verus!
