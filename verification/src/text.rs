//! Text on Unicode scalar values: comparing, trimming, splitting, and decimal
//! numbers. Every function is stated over the characters of its arguments.

use vstd::prelude::*;

verus! {

/// `String::push`: appends one character and changes nothing else.
pub assume_specification[ String::push ](s: &mut String, c: char)
    ensures
        final(s)@ == old(s)@.push(c),
;

/// The characters with the Unicode property White_Space.
pub open spec fn is_white(c: char) -> bool {
    ||| '\u{9}' <= c <= '\u{d}'
    ||| c == ' '
    ||| c == '\u{85}'
    ||| c == '\u{a0}'
    ||| c == '\u{1680}'
    ||| '\u{2000}' <= c <= '\u{200a}'
    ||| c == '\u{2028}'
    ||| c == '\u{2029}'
    ||| c == '\u{202f}'
    ||| c == '\u{205f}'
    ||| c == '\u{3000}'
}

/// Whether `c` is white space.
pub fn white(c: char) -> (res: bool)
    ensures
        res == is_white(c),
{
    ('\u{9}' <= c && c <= '\u{d}') || c == ' ' || c == '\u{85}' || c == '\u{a0}' || c == '\u{1680}'
        || ('\u{2000}' <= c && c <= '\u{200a}') || c == '\u{2028}' || c == '\u{2029}' || c
        == '\u{202f}' || c == '\u{205f}' || c == '\u{3000}'
}

/// The characters of `s`, in order.
pub fn chars_of(s: &str) -> (res: Vec<char>)
    ensures
        res@ == s@,
{
    let mut out: Vec<char> = Vec::new();
    for c in it: s.chars()
        invariant
            it.seq() == s@,
            out@ == s@.take(it.index() as int),
    {
        out.push(c);
    }
    out
}

/// The text made of `cs[from..to]`.
pub fn text_of(cs: &Vec<char>, from: usize, to: usize) -> (res: String)
    requires
        from <= to <= cs@.len(),
    ensures
        res@ == cs@.subrange(from as int, to as int),
{
    let mut out = String::new();
    let mut i: usize = from;
    while i < to
        invariant
            from <= i <= to <= cs@.len(),
            out@ == cs@.subrange(from as int, i as int),
        decreases to - i,
    {
        out.push(cs[i]);
        i += 1;
    }
    out
}

/// Whether two texts hold the same characters.
pub fn same(a: &str, b: &str) -> (res: bool)
    ensures
        res == (a@ == b@),
{
    let x = a.as_bytes();
    let y = b.as_bytes();
    proof {
        vstd::utf8::encode_utf8_decode_utf8(a@);
        vstd::utf8::encode_utf8_decode_utf8(b@);
    }
    if x.len() != y.len() {
        return false;
    }
    let mut i: usize = 0;
    while i < x.len()
        invariant
            i <= x@.len(),
            x@.len() == y@.len(),
            x@ == vstd::utf8::encode_utf8(a@),
            y@ == vstd::utf8::encode_utf8(b@),
            forall|j: int| 0 <= j < i ==> x@[j] == y@[j],
        decreases x@.len() - i,
    {
        if x[i] != y[i] {
            return false;
        }
        i += 1;
    }
    assert(x@ =~= y@);
    true
}

/// Whether `s` begins with `p`.
pub fn starts_with(s: &str, p: &str) -> (res: bool)
    ensures
        res == p@.is_prefix_of(s@),
{
    let n = s.unicode_len();
    let k = p.unicode_len();
    if k > n {
        return false;
    }
    same(s.substring_char(0, k), p)
}

/// Whether `s` ends with `p`.
pub fn ends_with(s: &str, p: &str) -> (res: bool)
    ensures
        res == p@.is_suffix_of(s@),
{
    let n = s.unicode_len();
    let k = p.unicode_len();
    if k > n {
        return false;
    }
    same(s.substring_char(n - k, n), p)
}

/// `sub` stands somewhere in `s`.
pub open spec fn has_text(s: Seq<char>, sub: Seq<char>) -> bool {
    exists|i: int| 0 <= i <= s.len() - sub.len() && #[trigger] s.subrange(i, i + sub.len()) == sub
}

/// Whether `sub` stands somewhere in `s`.
pub fn contains(s: &str, sub: &str) -> (res: bool)
    ensures
        res == has_text(s@, sub@),
{
    let n = s.unicode_len();
    let k = sub.unicode_len();
    if k > n {
        return false;
    }
    let mut i: usize = 0;
    while i <= n - k
        invariant
            n == s@.len(),
            k == sub@.len(),
            k <= n,
            i <= n - k + 1,
            forall|j: int| 0 <= j < i ==> #[trigger] s@.subrange(j, j + sub@.len()) != sub@,
        decreases n - k + 1 - i,
    {
        if same(s.substring_char(i, i + k), sub) {
            return true;
        }
        if i == n - k {
            return false;
        }
        i += 1;
    }
    false
}

/// `s` without its leading white space.
pub open spec fn trimmed_start(s: Seq<char>) -> Seq<char>
    decreases s.len(),
{
    if s.len() > 0 && is_white(s[0]) {
        trimmed_start(s.drop_first())
    } else {
        s
    }
}

/// `s` without its trailing white space.
pub open spec fn trimmed_end(s: Seq<char>) -> Seq<char>
    decreases s.len(),
{
    if s.len() > 0 && is_white(s.last()) {
        trimmed_end(s.drop_last())
    } else {
        s
    }
}

/// `s` without white space at either end.
pub open spec fn trimmed(s: Seq<char>) -> Seq<char> {
    trimmed_end(trimmed_start(s))
}

/// The number of leading white-space characters.
fn leading_white(cs: &Vec<char>) -> (res: usize)
    ensures
        res <= cs@.len(),
        trimmed_start(cs@) == cs@.skip(res as int),
{
    let mut i: usize = 0;
    assert(cs@.skip(0) =~= cs@);
    while i < cs.len() && white(cs[i])
        invariant
            i <= cs@.len(),
            trimmed_start(cs@) == trimmed_start(cs@.skip(i as int)),
        decreases cs@.len() - i,
    {
        assert(cs@.skip(i as int).drop_first() =~= cs@.skip(i + 1));
        i += 1;
    }
    i
}

/// The end of `cs[from..]` without its trailing white space.
fn trailing_white(cs: &Vec<char>, from: usize) -> (res: usize)
    requires
        from <= cs@.len(),
    ensures
        from <= res <= cs@.len(),
        trimmed_end(cs@.skip(from as int)) == cs@.subrange(from as int, res as int),
{
    let mut j: usize = cs.len();
    assert(cs@.subrange(from as int, j as int) =~= cs@.skip(from as int));
    while j > from && white(cs[j - 1])
        invariant
            from <= j <= cs@.len(),
            trimmed_end(cs@.skip(from as int)) == trimmed_end(
                cs@.subrange(from as int, j as int),
            ),
        decreases j,
    {
        assert(cs@.subrange(from as int, j as int).drop_last() =~= cs@.subrange(
            from as int,
            j - 1,
        ));
        j -= 1;
    }
    j
}

/// `s` without its leading white space.
pub fn trim_start(s: &str) -> (res: &str)
    ensures
        res@ == trimmed_start(s@),
{
    let cs = chars_of(s);
    let i = leading_white(&cs);
    s.substring_char(i, cs.len())
}

/// `s` without its trailing white space.
pub fn trim_end(s: &str) -> (res: &str)
    ensures
        res@ == trimmed_end(s@),
{
    let cs = chars_of(s);
    let j = trailing_white(&cs, 0);
    assert(cs@.skip(0) =~= cs@);
    s.substring_char(0, j)
}

/// `s` without white space at either end.
pub fn trim(s: &str) -> (res: &str)
    ensures
        res@ == trimmed(s@),
{
    let cs = chars_of(s);
    let i = leading_white(&cs);
    let j = trailing_white(&cs, i);
    s.substring_char(i, j)
}

/// The first position of `c` in `s`, or the length of `s`.
pub open spec fn position(s: Seq<char>, c: char) -> nat
    decreases s.len(),
{
    if s.len() == 0 || s[0] == c {
        0
    } else {
        1 + position(s.drop_first(), c)
    }
}

/// `position` is the first match: nothing before it matches, and what stands
/// at it does unless it is the end.
pub proof fn lemma_position(s: Seq<char>, c: char)
    ensures
        0 <= position(s, c) <= s.len(),
        forall|j: int| 0 <= j < position(s, c) ==> s[j] != c,
        position(s, c) < s.len() ==> s[position(s, c) as int] == c,
    decreases s.len(),
{
    if s.len() > 0 && s[0] != c {
        let t = s.drop_first();
        lemma_position(t, c);
        assert forall|j: int| 0 <= j < position(s, c) implies s[j] != c by {
            if j > 0 {
                assert(t[j - 1] == s[j]);
            }
        }
    }
}

/// The first position of `c` in `cs` at or after `from`, or the length of `cs`.
pub fn find(cs: &Vec<char>, from: usize, c: char) -> (res: usize)
    requires
        from <= cs@.len(),
    ensures
        from <= res <= cs@.len(),
        res == from + position(cs@.skip(from as int), c),
{
    let mut i: usize = from;
    while i < cs.len() && cs[i] != c
        invariant
            from <= i <= cs@.len(),
            from + position(cs@.skip(from as int), c) == i + position(cs@.skip(i as int), c),
        decreases cs@.len() - i,
    {
        assert(cs@.skip(i as int).drop_first() =~= cs@.skip(i + 1));
        i += 1;
    }
    i
}

/// The pieces of `s` between occurrences of `sep`: always at least one.
pub open spec fn pieces(s: Seq<char>, sep: char) -> Seq<Seq<char>>
    decreases s.len(),
{
    let i = position(s, sep) as int;
    if i >= s.len() {
        seq![s]
    } else {
        seq![s.take(i)] + pieces(s.skip(i + 1), sep)
    }
}

/// The pieces of `s` between occurrences of `sep`.
pub fn split(s: &str, sep: char) -> (res: Vec<String>)
    ensures
        res.deep_view() == pieces(s@, sep),
{
    let cs = chars_of(s);
    let mut out: Vec<String> = Vec::new();
    let mut start: usize = 0;
    assert(cs@.skip(0) =~= cs@);
    loop
        invariant
            cs@ == s@,
            start <= cs@.len(),
            pieces(s@, sep) == out.deep_view() + pieces(s@.skip(start as int), sep),
        decreases cs@.len() - start,
    {
        let ghost rest = s@.skip(start as int);
        let end = find(&cs, start, sep);
        proof {
            lemma_position(rest, sep);
        }
        let ghost before = out.deep_view();
        out.push(text_of(&cs, start, end));
        assert(cs@.subrange(start as int, end as int) =~= rest.take(end - start));
        assert(out.deep_view() =~= before.push(rest.take(end - start)));
        if end == cs.len() {
            assert(rest.take(end - start) =~= rest);
            assert(before + seq![rest] =~= out.deep_view());
            return out;
        }
        assert(rest.skip(end - start + 1) =~= s@.skip(end + 1));
        assert(before + (seq![rest.take(end - start)] + pieces(s@.skip(end + 1), sep))
            =~= out.deep_view() + pieces(s@.skip(end + 1), sep));
        start = end + 1;
    }
}

/// `s` without one carriage return at its end.
pub open spec fn without_cr(s: Seq<char>) -> Seq<char> {
    if s.len() > 0 && s.last() == '\r' {
        s.drop_last()
    } else {
        s
    }
}

/// The lines of `s`. A line ends with a line feed, or with a carriage return
/// and a line feed; the ending is optional on the last line.
pub open spec fn lines_of(s: Seq<char>) -> Seq<Seq<char>>
    decreases s.len(),
{
    let i = position(s, '\n') as int;
    if s.len() == 0 {
        Seq::empty()
    } else if i >= s.len() {
        seq![s]
    } else {
        seq![without_cr(s.take(i))] + lines_of(s.skip(i + 1))
    }
}

/// The lines of `s`, without their endings.
pub fn lines(s: &str) -> (res: Vec<String>)
    ensures
        res.deep_view() == lines_of(s@),
{
    let cs = chars_of(s);
    let mut out: Vec<String> = Vec::new();
    let mut start: usize = 0;
    assert(cs@.skip(0) =~= cs@);
    while start < cs.len()
        invariant
            cs@ == s@,
            start <= cs@.len(),
            lines_of(s@) == out.deep_view() + lines_of(s@.skip(start as int)),
        decreases cs@.len() - start,
    {
        let ghost rest = s@.skip(start as int);
        let end = find(&cs, start, '\n');
        proof {
            lemma_position(rest, '\n');
        }
        let ghost before = out.deep_view();
        assert(cs@.subrange(start as int, end as int) =~= rest.take(end - start));
        if end == cs.len() {
            out.push(text_of(&cs, start, end));
            assert(rest.take(end - start) =~= rest);
            assert(out.deep_view() =~= before + seq![rest]);
            return out;
        }
        if end > start && cs[end - 1] == '\r' {
            out.push(text_of(&cs, start, end - 1));
            assert(cs@.subrange(start as int, end - 1) =~= rest.take(end - start).drop_last());
        } else {
            out.push(text_of(&cs, start, end));
        }
        assert(out.deep_view() =~= before.push(without_cr(rest.take(end - start))));
        assert(rest.skip(end - start + 1) =~= s@.skip(end + 1));
        assert(before + (seq![without_cr(rest.take(end - start))] + lines_of(s@.skip(end + 1)))
            =~= out.deep_view() + lines_of(s@.skip(end + 1)));
        start = end + 1;
    }
    assert(s@.skip(start as int) =~= Seq::<char>::empty());
    assert(out.deep_view() + Seq::<Seq<char>>::empty() =~= out.deep_view());
    out
}

/// Some line of `s`, trimmed, is `t`.
pub open spec fn has_line(s: Seq<char>, t: Seq<char>) -> bool {
    exists|i: int| 0 <= i < lines_of(s).len() && trimmed(#[trigger] lines_of(s)[i]) == t
}

/// Whether some line of `s`, trimmed, is `t`.
pub fn any_line(s: &str, t: &str) -> (res: bool)
    ensures
        res == has_line(s@, t@),
{
    let ls = lines(s);
    let ghost want = lines_of(s@);
    let mut i: usize = 0;
    while i < ls.len()
        invariant
            i <= ls@.len(),
            ls.deep_view() == want,
            want == lines_of(s@),
            forall|j: int| 0 <= j < i ==> trimmed(#[trigger] want[j]) != t@,
        decreases ls@.len() - i,
    {
        assert(want[i as int] == ls@[i as int]@);
        if same(trim(ls[i].as_str()), t) {
            return true;
        }
        i += 1;
    }
    assert(ls.deep_view().len() == ls@.len());
    false
}

/// The lower-case form of an ASCII capital; every other character is itself.
pub open spec fn lower(c: char) -> char {
    if 'A' <= c <= 'Z' {
        (c as u32 + 32) as char
    } else {
        c
    }
}

/// `s` with its ASCII capitals in lower case.
pub open spec fn lowered(s: Seq<char>) -> Seq<char> {
    s.map_values(|c: char| lower(c))
}

/// The lower-case form of an ASCII capital.
pub fn lower_char(c: char) -> (res: char)
    ensures
        res == lower(c),
{
    if 'A' <= c && c <= 'Z' {
        ((c as u8) + 32u8) as char
    } else {
        c
    }
}

/// `s` with its ASCII capitals in lower case.
pub fn to_lower(s: &str) -> (res: String)
    ensures
        res@ == lowered(s@),
{
    let cs = chars_of(s);
    let mut out = String::new();
    let mut i: usize = 0;
    while i < cs.len()
        invariant
            i <= cs@.len(),
            cs@ == s@,
            out@ == lowered(s@.take(i as int)),
        decreases cs@.len() - i,
    {
        out.push(lower_char(cs[i]));
        assert(lowered(s@.take(i + 1)) =~= lowered(s@.take(i as int)).push(lower(s@[i as int])));
        i += 1;
    }
    assert(s@.take(i as int) =~= s@);
    out
}

/// `s` with `to` in place of every `from`.
pub open spec fn replaced(s: Seq<char>, from: char, to: char) -> Seq<char> {
    s.map_values(|c: char| if c == from { to } else { c })
}

/// `s` with `to` in place of every `from`.
pub fn replace(s: &str, from: char, to: char) -> (res: String)
    ensures
        res@ == replaced(s@, from, to),
{
    let cs = chars_of(s);
    let mut out = String::new();
    let mut i: usize = 0;
    while i < cs.len()
        invariant
            i <= cs@.len(),
            cs@ == s@,
            out@ == replaced(s@.take(i as int), from, to),
        decreases cs@.len() - i,
    {
        let c = cs[i];
        let ghost put = if c == from { to } else { c };
        if c == from {
            out.push(to);
        } else {
            out.push(c);
        }
        assert(replaced(s@.take(i + 1), from, to) =~= replaced(s@.take(i as int), from, to).push(put));
        i += 1;
    }
    assert(s@.take(i as int) =~= s@);
    out
}

/// The parts one after the other, with `sep` between two of them.
pub open spec fn joined(parts: Seq<Seq<char>>, sep: Seq<char>) -> Seq<char>
    decreases parts.len(),
{
    if parts.len() == 0 {
        Seq::empty()
    } else if parts.len() == 1 {
        parts[0]
    } else {
        joined(parts.drop_last(), sep) + sep + parts.last()
    }
}

/// The parts one after the other, with `sep` between two of them.
pub fn join(parts: &Vec<String>, sep: &str) -> (res: String)
    ensures
        res@ == joined(parts.deep_view(), sep@),
{
    let mut out = String::new();
    let mut i: usize = 0;
    let ghost all = parts.deep_view();
    assert(all.take(0) =~= Seq::empty());
    while i < parts.len()
        invariant
            i <= parts@.len(),
            all == parts.deep_view(),
            all.len() == parts@.len(),
            out@ == joined(all.take(i as int), sep@),
        decreases parts@.len() - i,
    {
        let ghost next = all.take(i + 1);
        assert(next.drop_last() =~= all.take(i as int));
        assert(next.last() == parts@[i as int]@);
        if i > 0 {
            out.append(sep);
        }
        out.append(parts[i].as_str());
        assert(out@ =~= joined(next, sep@));
        i += 1;
    }
    assert(all.take(i as int) =~= all);
    out
}

/// A first line that is ended by a line feed, then the lines of the rest.
pub proof fn lemma_first_line(a: Seq<char>, b: Seq<char>)
    requires
        !a.contains('\n'),
    ensures
        lines_of(a.push('\n') + b) == seq![without_cr(a)] + lines_of(b),
{
    let s = a.push('\n') + b;
    lemma_position(s, '\n');
    let i = position(s, '\n') as int;
    assert(s[a.len() as int] == '\n');
    if i < a.len() {
        assert(a[i] == '\n');
    }
    assert(i == a.len());
    assert(s.take(i) =~= a);
    assert(s.skip(i + 1) =~= b);
}

/// A text without white space at its ends is its own trimmed form.
pub proof fn lemma_trimmed(s: Seq<char>)
    requires
        s.len() > 0,
        !is_white(s[0]),
        !is_white(s.last()),
    ensures
        trimmed(s) == s,
{
}

/// Trimming takes off a line feed at the end.
pub proof fn lemma_trimmed_line(s: Seq<char>)
    ensures
        trimmed(s.push('\n')) == trimmed(s),
{
    lemma_trimmed_push(s, '\n');
}

/// A carriage return at the end of a line does not count for the trimmed line.
pub proof fn lemma_trimmed_cr(s: Seq<char>)
    ensures
        trimmed(without_cr(s)) == trimmed(s),
{
    if s.len() > 0 && s.last() == '\r' {
        lemma_trimmed_push(s.drop_last(), '\r');
        assert(s.drop_last().push('\r') =~= s);
    }
}

proof fn lemma_trimmed_push(s: Seq<char>, c: char)
    requires
        is_white(c),
    ensures
        trimmed(s.push(c)) == trimmed(s),
    decreases s.len(),
{
    let t = s.push(c);
    if s.len() > 0 && is_white(s[0]) {
        assert(t.drop_first() =~= s.drop_first().push(c));
        lemma_trimmed_push(s.drop_first(), c);
    } else if s.len() == 0 {
        assert(t.drop_first() =~= Seq::<char>::empty());
        reveal_with_fuel(trimmed_start, 2);
    } else {
        assert(t.drop_last() =~= s);
    }
}

/// Blanks, tabs and the ends of lines are white space; no letter, digit or mark of ASCII is.
pub proof fn law_which_characters_are_white(c: char)
    ensures
        c == ' ' || c == '\t' || c == '\n' || c == '\r' ==> is_white(c),
        '!' <= c <= '~' ==> !is_white(c),
{
}

/// Trimming takes off the white space at both ends, all of it and nothing else.
pub proof fn law_trimming(head: Seq<char>, text: Seq<char>, tail: Seq<char>)
    requires
        forall|i: int| 0 <= i < head.len() ==> is_white(#[trigger] head[i]),
        forall|i: int| 0 <= i < tail.len() ==> is_white(#[trigger] tail[i]),
        text.len() > 0 ==> !is_white(text[0]) && !is_white(text.last()),
    ensures
        trimmed(head + text + tail) == text,
    decreases head.len() + tail.len(),
{
    let s = head + text + tail;
    if head.len() > 0 {
        assert(s.drop_first() =~= head.drop_first() + text + tail);
        law_trimming(head.drop_first(), text, tail);
        assert(s[0] == head[0]);
    } else if tail.len() > 0 {
        law_trimming(head, text, tail.drop_last());
        assert(s =~= (head + text + tail.drop_last()).push(tail.last()));
        lemma_trimmed_push(head + text + tail.drop_last(), tail.last());
    } else {
        assert(s =~= text);
    }
}

/// Every text is its trimmed form with white space before and behind it.
pub proof fn law_trimming_keeps_the_text(s: Seq<char>) -> (r: (Seq<char>, Seq<char>))
    ensures
        s == r.0 + trimmed(s) + r.1,
        forall|i: int| 0 <= i < r.0.len() ==> is_white(#[trigger] r.0[i]),
        forall|i: int| 0 <= i < r.1.len() ==> is_white(#[trigger] r.1[i]),
        trimmed(s).len() > 0 ==> !is_white(trimmed(s)[0]) && !is_white(trimmed(s).last()),
{
    let t = trimmed_start(s);
    let head = lemma_trimmed_start(s);
    let tail = lemma_trimmed_end(t);
    assert(s =~= head + trimmed_end(t) + tail);
    (head, tail)
}

proof fn lemma_trimmed_start(s: Seq<char>) -> (head: Seq<char>)
    ensures
        s == head + trimmed_start(s),
        forall|i: int| 0 <= i < head.len() ==> is_white(#[trigger] head[i]),
        trimmed_start(s).len() > 0 ==> !is_white(trimmed_start(s)[0]),
    decreases s.len(),
{
    if s.len() > 0 && is_white(s[0]) {
        let rest = s.drop_first();
        let h = lemma_trimmed_start(rest);
        let head = seq![s[0]] + h;
        assert(s =~= seq![s[0]] + rest);
        assert(s =~= head + trimmed_start(rest));
        assert forall|i: int| 0 <= i < head.len() implies is_white(#[trigger] head[i]) by {
            if i > 0 {
                assert(head[i] == h[i - 1]);
            }
        }
        head
    } else {
        assert(s =~= Seq::<char>::empty() + s);
        Seq::empty()
    }
}

proof fn lemma_trimmed_end(s: Seq<char>) -> (tail: Seq<char>)
    ensures
        s == trimmed_end(s) + tail,
        forall|i: int| 0 <= i < tail.len() ==> is_white(#[trigger] tail[i]),
        trimmed_end(s).len() > 0 ==> !is_white(trimmed_end(s).last()) && trimmed_end(s)[0] == s[0],
    decreases s.len(),
{
    if s.len() > 0 && is_white(s.last()) {
        let rest = s.drop_last();
        let t = lemma_trimmed_end(rest);
        let tail = t.push(s.last());
        assert(s =~= rest.push(s.last()));
        assert(s =~= trimmed_end(rest) + tail);
        tail
    } else {
        assert(s =~= s + Seq::<char>::empty());
        Seq::empty()
    }
}

/// The pieces of a text hold no separator, and with one between every two they make the text.
pub proof fn law_pieces_make_the_text(s: Seq<char>, sep: char)
    ensures
        pieces(s, sep).len() > 0,
        joined(pieces(s, sep), seq![sep]) == s,
        forall|i: int| 0 <= i < pieces(s, sep).len() ==> !(#[trigger] pieces(s, sep)[i]).contains(sep),
    decreases s.len(),
{
    lemma_position(s, sep);
    let i = position(s, sep) as int;
    let all = pieces(s, sep);
    if i < s.len() {
        let head = s.take(i);
        let rest = s.skip(i + 1);
        law_pieces_make_the_text(rest, sep);
        lemma_joined_front(head, pieces(rest, sep), seq![sep]);
        assert(s =~= head + seq![sep] + rest);
        assert(!head.contains(sep));
        assert forall|k: int| 0 <= k < all.len() implies !(#[trigger] all[k]).contains(sep) by {
            if k > 0 {
                assert(all[k] == pieces(rest, sep)[k - 1]);
            }
        }
    } else {
        assert(!s.contains(sep));
    }
}

proof fn lemma_joined_front(head: Seq<char>, rest: Seq<Seq<char>>, sep: Seq<char>)
    requires
        rest.len() > 0,
    ensures
        joined(seq![head] + rest, sep) == head + sep + joined(rest, sep),
    decreases rest.len(),
{
    let all = seq![head] + rest;
    assert(all.drop_last() =~= seq![head] + rest.drop_last());
    if rest.len() == 1 {
        assert(all.drop_last() =~= seq![head]);
        assert(joined(seq![head], sep) == head);
        assert(joined(rest, sep) == rest[0]);
        assert(all.last() == rest[0]);
    } else {
        lemma_joined_front(head, rest.drop_last(), sep);
        assert(joined(all, sep) =~= head + sep + joined(rest, sep));
    }
}

/// Lines one after the other, each ended by a line feed.
pub open spec fn ended_lines(ls: Seq<Seq<char>>) -> Seq<char>
    decreases ls.len(),
{
    if ls.len() == 0 {
        Seq::empty()
    } else {
        ls[0].push('\n') + ended_lines(ls.drop_first())
    }
}

/// Lines that are written one after the other are read back as they are, none left out; the
/// last of them needs no ending.
pub proof fn law_lines_are_read_back(ls: Seq<Seq<char>>, last: Seq<char>)
    requires
        forall|i: int|
            0 <= i < ls.len() ==> !(#[trigger] ls[i]).contains('\n') && (ls[i].len() > 0 ==> ls[i].last()
                != '\r'),
        !last.contains('\n'),
    ensures
        lines_of(ended_lines(ls)) == ls,
        last.len() > 0 ==> lines_of(ended_lines(ls) + last) == ls.push(last),
    decreases ls.len(),
{
    if ls.len() == 0 {
        assert(ended_lines(ls) + last =~= last);
        lemma_position(last, '\n');
        assert(lines_of(ended_lines(ls)) =~= ls);
        if last.len() > 0 {
            let i = position(last, '\n') as int;
            if i < last.len() {
                assert(last.contains('\n'));
            }
            assert(lines_of(last) =~= ls.push(last));
        }
    } else {
        let rest = ls.drop_first();
        assert forall|i: int| 0 <= i < rest.len() implies !(#[trigger] rest[i]).contains('\n') && (
        rest[i].len() > 0 ==> rest[i].last() != '\r') by {
            assert(rest[i] == ls[i + 1]);
        }
        law_lines_are_read_back(rest, last);
        let a = ls[0];
        lemma_first_line(a, ended_lines(rest));
        lemma_first_line(a, ended_lines(rest) + last);
        assert(ended_lines(ls) + last =~= a.push('\n') + (ended_lines(rest) + last));
        assert(seq![a] + rest =~= ls);
        assert(seq![a] + rest.push(last) =~= ls.push(last));
    }
}

/// A text is among lines where one of them, without the white space around it, is the text.
pub proof fn law_a_line_is_found(ls: Seq<Seq<char>>, t: Seq<char>)
    requires
        forall|i: int|
            0 <= i < ls.len() ==> !(#[trigger] ls[i]).contains('\n') && (ls[i].len() > 0 ==> ls[i].last()
                != '\r'),
    ensures
        has_line(ended_lines(ls), t) <==> exists|i: int|
            0 <= i < ls.len() && trimmed(#[trigger] ls[i]) == t,
{
    law_lines_are_read_back(ls, Seq::empty());
}

/// In lower case, a capital of ASCII is the small letter of the same place in the alphabet;
/// everything else stays, in its place.
pub proof fn law_lower_case(s: Seq<char>, i: int)
    requires
        0 <= i < s.len(),
    ensures
        lowered(s).len() == s.len(),
        'A' <= s[i] <= 'Z' ==> lowered(s)[i] as int - 'a' as int == s[i] as int - 'A' as int,
        !('A' <= s[i] <= 'Z') ==> lowered(s)[i] == s[i],
{
}

/// A replacement changes the one character, wherever it stands, and nothing else.
pub proof fn law_replacement(s: Seq<char>, from: char, to: char, i: int)
    requires
        0 <= i < s.len(),
    ensures
        replaced(s, from, to).len() == s.len(),
        s[i] == from ==> replaced(s, from, to)[i] == to,
        s[i] != from ==> replaced(s, from, to)[i] == s[i],
{
}

/// Texts without the separator that are put together with it are taken apart again.
pub proof fn law_joined_texts_are_taken_apart(ts: Seq<Seq<char>>, sep: char)
    requires
        ts.len() > 0,
        forall|i: int| 0 <= i < ts.len() ==> !(#[trigger] ts[i]).contains(sep),
    ensures
        pieces(joined(ts, seq![sep]), sep) == ts,
    decreases ts.len(),
{
    let head = ts[0];
    if ts.len() == 1 {
        lemma_position(head, sep);
        let i = position(head, sep) as int;
        if i < head.len() {
            assert(head.contains(sep));
        }
        assert(pieces(head, sep) =~= ts);
    } else {
        let rest = ts.drop_first();
        assert forall|i: int| 0 <= i < rest.len() implies !(#[trigger] rest[i]).contains(sep) by {
            assert(rest[i] == ts[i + 1]);
        }
        law_joined_texts_are_taken_apart(rest, sep);
        lemma_joined_front(head, rest, seq![sep]);
        assert(seq![head] + rest =~= ts);
        let s = joined(ts, seq![sep]);
        let tail = joined(rest, seq![sep]);
        assert(s =~= head + seq![sep] + tail);
        lemma_position(s, sep);
        let i = position(s, sep) as int;
        assert(s[head.len() as int] == sep);
        if i < head.len() {
            assert(head[i] == sep);
            assert(head.contains(sep));
        }
        assert(i == head.len());
        assert(s.take(i) =~= head);
        assert(s.skip(i + 1) =~= tail);
    }
}

/// Texts are put together in order, with the separator between every two of them.
pub proof fn law_joining(ts: Seq<Seq<char>>, t: Seq<char>, sep: Seq<char>)
    ensures
        joined(Seq::empty(), sep) == Seq::<char>::empty(),
        joined(seq![t], sep) == t,
        ts.len() > 0 ==> joined(ts.push(t), sep) == joined(ts, sep) + sep + t,
        ts.len() > 0 ==> joined(seq![t] + ts, sep) == t + sep + joined(ts, sep),
{
    if ts.len() > 0 {
        assert(ts.push(t).drop_last() =~= ts);
        lemma_joined_front(t, ts, sep);
    }
}

/// A text is found in another wherever it stands, and only where the other is made of something
/// before it, the text, and something behind it.
pub proof fn law_a_text_is_found(a: Seq<char>, sub: Seq<char>, b: Seq<char>, s: Seq<char>)
    ensures
        has_text(a + sub + b, sub),
        has_text(s, sub) ==> exists|i: int|
            0 <= i && i + sub.len() <= s.len() && s == s.take(i) + sub + #[trigger] s.skip(
                i + sub.len(),
            ),
        s.len() < sub.len() ==> !has_text(s, sub),
{
    let t = a + sub + b;
    let n = a.len() as int;
    assert(t.subrange(n, n + sub.len()) =~= sub);
    if has_text(s, sub) {
        let i = choose|i: int|
            0 <= i <= s.len() - sub.len() && #[trigger] s.subrange(i, i + sub.len()) == sub;
        assert(s =~= s.take(i) + sub + s.skip(i + sub.len()));
    }
}

} // verus!
