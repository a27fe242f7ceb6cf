//! The Windows clipboard: text, bitmaps and lists of files as bytes of their formats.

use crate::number::{le_bytes, push_u16, push_u32};
use crate::text::chars_of;
use crate::win_image::zeros;
use vstd::prelude::*;

verus! {

/// The format of text in UTF-16.
pub const CF_UNICODETEXT: u32 = 13;

/// The format of bitmaps.
pub const CF_DIB: u32 = 8;

/// The format of bitmaps with a V5 header.
pub const CF_DIBV5: u32 = 17;

/// The format of lists of files.
pub const CF_HDROP: u32 = 15;

/// A character in UTF-16: one unit, or a pair of surrogates.
pub open spec fn units(c: char) -> Seq<u16> {
    let n = c as int;
    if n < 0x1_0000 {
        seq![n as u16]
    } else {
        seq![
            (0xD800 + (n - 0x1_0000) / 0x400) as u16,
            (0xDC00 + (n - 0x1_0000) % 0x400) as u16,
        ]
    }
}

/// A text in UTF-16.
pub open spec fn utf16(s: Seq<char>) -> Seq<u16>
    decreases s.len(),
{
    if s.len() == 0 {
        Seq::empty()
    } else {
        utf16(s.drop_last()) + units(s.last())
    }
}

fn push_char(out: &mut Vec<u16>, c: char)
    ensures
        final(out)@ == old(out)@ + units(c),
{
    let n: u32 = c as u32;
    assert(n <= 0x10_FFFF);
    if n < 0x1_0000 {
        out.push(n as u16);
    } else {
        let d: u32 = n - 0x1_0000;
        assert(d / 0x400 < 0x400);
        out.push((0xD800 + d / 0x400) as u16);
        out.push((0xDC00 + d % 0x400) as u16);
    }
}

/// A text in UTF-16.
pub fn encode_utf16(s: &str) -> (res: Vec<u16>)
    ensures
        res@ == utf16(s@),
{
    let cs = chars_of(s);
    let mut out: Vec<u16> = Vec::new();
    let mut i: usize = 0;
    assert(s@.take(0) =~= Seq::<char>::empty());
    while i < cs.len()
        invariant
            i <= cs@.len(),
            cs@ == s@,
            out@ == utf16(s@.take(i as int)),
        decreases cs@.len() - i,
    {
        assert(s@.take(i + 1).drop_last() =~= s@.take(i as int));
        push_char(&mut out, cs[i]);
        assert(out@ =~= utf16(s@.take(i + 1)));
        i += 1;
    }
    assert(s@.take(i as int) =~= s@);
    out
}

/// A text in UTF-16, ended by a zero unit.
pub fn wide0(s: &str) -> (res: Vec<u16>)
    ensures
        res@ == utf16(s@).push(0),
{
    let mut out = encode_utf16(s);
    out.push(0);
    out
}

/// The bytes of units, the lower one first.
pub open spec fn unit_bytes(u: Seq<u16>) -> Seq<u8>
    decreases u.len(),
{
    if u.len() == 0 {
        Seq::empty()
    } else {
        unit_bytes(u.drop_last()) + le_bytes(u.last() as nat, 2)
    }
}

fn push_units(out: &mut Vec<u8>, u: &Vec<u16>)
    ensures
        final(out)@ == old(out)@ + unit_bytes(u@),
{
    let ghost before = out@;
    let mut i: usize = 0;
    assert(u@.take(0) =~= Seq::<u16>::empty());
    assert(before + unit_bytes(u@.take(0)) =~= before);
    while i < u.len()
        invariant
            i <= u@.len(),
            out@ == before + unit_bytes(u@.take(i as int)),
        decreases u@.len() - i,
    {
        assert(u@.take(i + 1).drop_last() =~= u@.take(i as int));
        push_u16(out, u[i]);
        assert(out@ =~= before + unit_bytes(u@.take(i + 1)));
        i += 1;
    }
    assert(u@.take(i as int) =~= u@);
}

/// The units before the first zero.
pub open spec fn before_zero(u: Seq<u16>) -> Seq<u16>
    decreases u.len(),
{
    if u.len() == 0 || u[0] == 0 {
        Seq::empty()
    } else {
        seq![u[0]] + before_zero(u.drop_first())
    }
}

/// The units before the first zero.
pub fn cut_at_zero(u: &Vec<u16>) -> (res: Vec<u16>)
    ensures
        res@ == before_zero(u@),
{
    let mut out: Vec<u16> = Vec::new();
    let mut i: usize = 0;
    assert(u@.skip(0) =~= u@);
    assert(out@ + before_zero(u@) =~= before_zero(u@));
    while i < u.len() && u[i] != 0
        invariant
            i <= u@.len(),
            before_zero(u@) == out@ + before_zero(u@.skip(i as int)),
        decreases u@.len() - i,
    {
        let ghost rest = u@.skip(i as int);
        assert(rest.drop_first() =~= u@.skip(i + 1));
        let ghost before = out@;
        out.push(u[i]);
        assert(before + (seq![u@[i as int]] + before_zero(u@.skip(i + 1))) =~= out@ + before_zero(
            u@.skip(i + 1),
        ));
        i += 1;
    }
    assert(out@ + Seq::<u16>::empty() =~= out@);
    out
}

/// What `String::from_utf16_lossy` makes of units.
pub uninterp spec fn lossy16(u: Seq<u16>) -> Seq<char>;

/// `String::from_utf16_lossy`: units as text, with replacement characters where they
/// are not UTF-16. Of a text's own units it is that text.
#[verifier::external_body]
fn from_utf16(u: &Vec<u16>) -> (res: String)
    ensures
        res@ == lossy16(u@),
        forall|s: Seq<char>| #[trigger] utf16(s) == u@ ==> res@ == s,
{
    String::from_utf16_lossy(u)
}

/// The text in the clipboard's memory, which a zero unit ends.
pub fn read_text(u: &Vec<u16>) -> (res: String)
    ensures
        res@ == lossy16(before_zero(u@)),
        forall|s: Seq<char>| #[trigger] utf16(s) == before_zero(u@) ==> res@ == s,
{
    from_utf16(&cut_at_zero(u))
}

proof fn lemma_units(c: char)
    requires
        c != '\0',
    ensures
        forall|i: int| 0 <= i < units(c).len() ==> #[trigger] units(c)[i] != 0,
{
    let n = c as int;
    assert(0 < n <= 0x10_FFFF);
    if n >= 0x1_0000 {
        assert(0 <= (n - 0x1_0000) / 0x400 < 0x400);
    }
}

proof fn lemma_no_zero_units(s: Seq<char>)
    requires
        !s.contains('\0'),
    ensures
        forall|i: int| 0 <= i < utf16(s).len() ==> #[trigger] utf16(s)[i] != 0,
    decreases s.len(),
{
    if s.len() > 0 {
        let t = s.drop_last();
        assert forall|c: char| t.contains(c) implies s.contains(c) by {
            let k = choose|k: int| 0 <= k < t.len() && t[k] == c;
            assert(s[k] == c);
        }
        lemma_no_zero_units(t);
        assert(s[s.len() - 1] == s.last());
        assert(s.contains(s.last()));
        let h = utf16(t);
        let u = utf16(s);
        lemma_units(s.last());
        assert forall|i: int| 0 <= i < u.len() implies #[trigger] u[i] != 0 by {
            if i < h.len() {
                assert(u[i] == h[i]);
            } else {
                assert(u[i] == units(s.last())[i - h.len()]);
            }
        }
    }
}

proof fn lemma_cut(u: Seq<u16>)
    requires
        forall|i: int| 0 <= i < u.len() ==> #[trigger] u[i] != 0,
    ensures
        before_zero(u.push(0)) == u,
    decreases u.len(),
{
    let v = u.push(0);
    if u.len() == 0 {
        assert(before_zero(v) =~= u);
    } else {
        let t = u.drop_first();
        assert forall|i: int| 0 <= i < t.len() implies #[trigger] t[i] != 0 by {
            assert(t[i] == u[i + 1]);
        }
        lemma_cut(t);
        assert(v.drop_first() =~= t.push(0));
        assert(before_zero(v) =~= u);
    }
}

/// A text without zero characters is read back as it was written.
pub proof fn law_text_survives(s: Seq<char>)
    requires
        !s.contains('\0'),
    ensures
        before_zero(utf16(s).push(0)) == utf16(s),
{
    lemma_no_zero_units(s);
    lemma_cut(utf16(s));
}

/// Content of one format.
#[verifier::ext_equal]
pub struct FormatView {
    pub format: u32,
    pub bytes: Seq<u8>,
}

/// Content of one format.
#[derive(Debug)]
pub struct Format {
    pub format: u32,
    pub bytes: Vec<u8>,
}

impl View for Format {
    type V = FormatView;

    open spec fn view(&self) -> FormatView {
        FormatView { format: self.format, bytes: self.bytes@ }
    }
}

impl DeepView for Format {
    type V = FormatView;

    open spec fn deep_view(&self) -> FormatView {
        self@
    }
}

/// The content, and the marker that it came from the relay where there is a format for
/// it.
pub open spec fn marked(main: FormatView, marker_format: u32, marker: Seq<u8>) -> Seq<FormatView> {
    if marker_format == 0 {
        seq![main]
    } else {
        seq![main, FormatView { format: marker_format, bytes: marker }]
    }
}

fn with_marker(format: u32, bytes: Vec<u8>, marker_format: u32, marker: &[u8]) -> (res: Vec<Format>)
    ensures
        res.deep_view() == marked(
            FormatView { format, bytes: bytes@ },
            marker_format,
            marker@,
        ),
{
    let ghost main = FormatView { format, bytes: bytes@ };
    let mut out: Vec<Format> = Vec::new();
    out.push(Format { format, bytes });
    if marker_format != 0 {
        out.push(Format { format: marker_format, bytes: crate::bytes::to_vec(marker) });
    }
    assert(out.deep_view() =~= marked(main, marker_format, marker@));
    out
}

/// Text for the clipboard, with the marker.
pub fn text_formats(s: &str, marker_format: u32, marker: &[u8]) -> (res: Vec<Format>)
    ensures
        res.deep_view() == marked(
            FormatView { format: CF_UNICODETEXT, bytes: unit_bytes(utf16(s@).push(0)) },
            marker_format,
            marker@,
        ),
{
    let wide = wide0(s);
    let mut bytes: Vec<u8> = Vec::new();
    push_units(&mut bytes, &wide);
    assert(bytes@ =~= unit_bytes(wide@));
    with_marker(CF_UNICODETEXT, bytes, marker_format, marker)
}

/// A bitmap for the clipboard, with the marker.
pub fn dib_formats(dib: Vec<u8>, marker_format: u32, marker: &[u8]) -> (res: Vec<Format>)
    ensures
        res.deep_view() == marked(
            FormatView { format: CF_DIBV5, bytes: dib@ },
            marker_format,
            marker@,
        ),
{
    with_marker(CF_DIBV5, dib, marker_format, marker)
}

/// Paths in UTF-16, each ended by a zero unit.
pub open spec fn ended_paths(paths: Seq<Seq<u16>>) -> Seq<u8>
    decreases paths.len(),
{
    if paths.len() == 0 {
        Seq::empty()
    } else {
        ended_paths(paths.drop_last()) + unit_bytes(paths.last().push(0))
    }
}

/// A list of files: a header that says where the list starts and that it is in UTF-16,
/// then the paths, then a zero unit.
pub open spec fn drop_list(paths: Seq<Seq<u16>>) -> Seq<u8> {
    le_bytes(20, 4) + zeros(12) + le_bytes(1, 4) + ended_paths(paths) + le_bytes(0, 2)
}

/// A list of files for the clipboard, with the wish that they be copied and the marker,
/// each where there is a format for it.
pub open spec fn drop_formats(
    paths: Seq<Seq<u16>>,
    effect_format: u32,
    marker_format: u32,
    marker: Seq<u8>,
) -> Seq<FormatView> {
    seq![FormatView { format: CF_HDROP, bytes: drop_list(paths) }] + if effect_format != 0 {
        seq![FormatView { format: effect_format, bytes: le_bytes(1, 4) }]
    } else {
        Seq::empty()
    } + if marker_format != 0 {
        seq![FormatView { format: marker_format, bytes: marker }]
    } else {
        Seq::empty()
    }
}

fn drop_list_of(paths: &Vec<Vec<u16>>) -> (res: Vec<u8>)
    ensures
        res@ == drop_list(paths.deep_view()),
{
    let ghost all = paths.deep_view();
    let mut out: Vec<u8> = Vec::new();
    push_u32(&mut out, 20);
    let mut i: usize = 0;
    while i < 12
        invariant
            i <= 12,
            out@ == le_bytes(20, 4) + zeros(i as nat),
        decreases 12 - i,
    {
        out.push(0);
        assert(out@ =~= le_bytes(20, 4) + zeros((i + 1) as nat));
        i += 1;
    }
    push_u32(&mut out, 1);
    let ghost head = out@;
    let mut k: usize = 0;
    assert(all.take(0) =~= Seq::<Seq<u16>>::empty());
    assert(head + ended_paths(all.take(0)) =~= head);
    while k < paths.len()
        invariant
            k <= paths@.len(),
            all == paths.deep_view(),
            all.len() == paths@.len(),
            out@ == head + ended_paths(all.take(k as int)),
        decreases paths@.len() - k,
    {
        assert(all.take(k + 1).drop_last() =~= all.take(k as int));
        assert(paths@[k as int].deep_view() =~= paths@[k as int]@);
        let mut p: Vec<u16> = Vec::new();
        p.extend_from_slice(paths[k].as_slice());
        assert(p@ =~= paths@[k as int]@);
        p.push(0);
        push_units(&mut out, &p);
        assert(out@ =~= head + ended_paths(all.take(k + 1)));
        k += 1;
    }
    assert(all.take(k as int) =~= all);
    push_u16(&mut out, 0);
    out
}

/// A list of files for the clipboard; nothing where it would be empty.
pub fn drop_formats_of(
    paths: &Vec<Vec<u16>>,
    effect_format: u32,
    marker_format: u32,
    marker: &[u8],
) -> (res: Option<Vec<Format>>)
    ensures
        match res {
            Some(f) => paths@.len() > 0 && f.deep_view() == drop_formats(
                paths.deep_view(),
                effect_format,
                marker_format,
                marker@,
            ),
            None => paths@.len() == 0,
        },
{
    if paths.len() == 0 {
        return None;
    }
    let mut out: Vec<Format> = Vec::new();
    out.push(Format { format: CF_HDROP, bytes: drop_list_of(paths) });
    if effect_format != 0 {
        let mut one: Vec<u8> = Vec::new();
        push_u32(&mut one, 1);
        assert(one@ =~= le_bytes(1, 4));
        out.push(Format { format: effect_format, bytes: one });
    }
    if marker_format != 0 {
        out.push(Format { format: marker_format, bytes: crate::bytes::to_vec(marker) });
    }
    assert(out.deep_view() =~= drop_formats(
        paths.deep_view(),
        effect_format,
        marker_format,
        marker@,
    ));
    Some(out)
}

/// A character in UTF-16: itself where it fits in 16 bits, else a high and a low surrogate that
/// hold the upper and the lower ten bits of what is left above them.
pub proof fn law_units_of_a_character(c: char)
    ensures
        c as int <= 0xffff ==> units(c).len() == 1 && units(c)[0] == c as int,
        c as int > 0xffff ==> {
            let u = units(c);
            &&& u.len() == 2
            &&& 0xd800 <= u[0] <= 0xdbff
            &&& 0xdc00 <= u[1] <= 0xdfff
            &&& 0x10000 + (u[0] - 0xd800) * 1024 + (u[1] - 0xdc00) == c as int
        },
{
    let n = c as int;
    assert(n <= 0x10_ffff);
    if n >= 0x1_0000 {
        assert(0 <= (n - 0x1_0000) / 0x400 < 0x400);
    }
}

/// A text in UTF-16 is its characters, one after the other.
pub proof fn law_utf16_of_two_texts(a: Seq<char>, b: Seq<char>, c: char)
    ensures
        utf16(a + b) == utf16(a) + utf16(b),
        utf16(seq![c]) == units(c),
    decreases b.len(),
{
    assert(seq![c].drop_last() =~= Seq::<char>::empty());
    assert(utf16(Seq::<char>::empty()) =~= Seq::<u16>::empty());
    assert(seq![c].last() == c);
    assert(utf16(seq![c]) =~= units(c));
    if b.len() == 0 {
        assert(a + b =~= a);
        assert(utf16(a) + utf16(b) =~= utf16(a));
    } else {
        assert((a + b).drop_last() =~= a + b.drop_last());
        law_utf16_of_two_texts(a, b.drop_last(), c);
        assert(utf16(a + b) =~= utf16(a) + utf16(b));
    }
}

/// Each unit is written in two bytes, the lower one first.
pub proof fn law_bytes_of_units(u: Seq<u16>, i: int)
    requires
        0 <= i < u.len(),
    ensures
        unit_bytes(u).len() == 2 * u.len(),
        unit_bytes(u)[2 * i] as int + 256 * unit_bytes(u)[2 * i + 1] as int == u[i],
    decreases u.len(),
{
    lemma_unit_bytes_len(u);
    lemma_unit_bytes_len(u.drop_last());
    crate::number::lemma_le_bytes2(u.last() as nat);
    if i < u.len() - 1 {
        law_bytes_of_units(u.drop_last(), i);
        assert(unit_bytes(u)[2 * i] == unit_bytes(u.drop_last())[2 * i]);
        assert(unit_bytes(u)[2 * i + 1] == unit_bytes(u.drop_last())[2 * i + 1]);
    } else {
        let b = le_bytes(u.last() as nat, 2);
        assert(unit_bytes(u)[2 * i] == b[0]);
        assert(unit_bytes(u)[2 * i + 1] == b[1]);
    }
}

proof fn lemma_unit_bytes_len(u: Seq<u16>)
    ensures
        unit_bytes(u).len() == 2 * u.len(),
    decreases u.len(),
{
    if u.len() > 0 {
        lemma_unit_bytes_len(u.drop_last());
        crate::number::lemma_le_bytes2(u.last() as nat);
    }
}

/// Units are cut at the first zero, and nowhere before it.
pub proof fn law_cut_at_zero(head: Seq<u16>, tail: Seq<u16>)
    requires
        forall|i: int| 0 <= i < head.len() ==> #[trigger] head[i] != 0,
    ensures
        before_zero(head) == head,
        before_zero(head.push(0) + tail) == head,
    decreases head.len(),
{
    if head.len() == 0 {
        assert(before_zero(head) =~= head);
        assert((head.push(0) + tail)[0] == 0);
        assert(before_zero(head.push(0) + tail) =~= head);
    } else {
        let t = head.drop_first();
        assert forall|i: int| 0 <= i < t.len() implies #[trigger] t[i] != 0 by {
            assert(t[i] == head[i + 1]);
        }
        law_cut_at_zero(t, tail);
        assert((head.push(0) + tail).drop_first() =~= t.push(0) + tail);
        assert(before_zero(head) =~= head);
        assert(before_zero(head.push(0) + tail) =~= head);
    }
}

/// The content comes first, as it is, and with it the marker, wherever there is a format for
/// one.
pub proof fn law_content_is_marked(main: FormatView, marker_format: u32, marker: Seq<u8>)
    ensures
        marked(main, marker_format, marker)[0] == main,
        marker_format != 0 ==> marked(main, marker_format, marker).len() == 2 && marked(
            main,
            marker_format,
            marker,
        )[1] == (FormatView { format: marker_format, bytes: marker }),
        marker_format == 0 ==> marked(main, marker_format, marker).len() == 1,
{
}

/// The number of bytes that the paths before one take, each with the zero at its end.
pub open spec fn bytes_before(paths: Seq<Seq<u16>>, i: nat) -> nat
    decreases i,
{
    if i == 0 {
        0
    } else {
        bytes_before(paths, (i - 1) as nat) + 2 * (paths[i - 1].len() + 1)
    }
}

/// A list of files says where its paths start, behind twenty bytes, and that they are in
/// UTF-16; there each path follows on the one before, as it is and ended by a zero, and a zero
/// ends the list.
pub proof fn law_list_holds_every_path(paths: Seq<Seq<u16>>, i: int, k: int)
    requires
        0 <= i < paths.len(),
        0 <= k < paths[i].len(),
    ensures
        ({
            let d = drop_list(paths);
            let at = 20 + bytes_before(paths, i as nat) as int;
            let n = d.len() as int;
            &&& crate::win_image::long_at(d, 0) == 20
            &&& crate::win_image::long_at(d, 16) == 1
            &&& d.len() == 22 + bytes_before(paths, paths.len())
            &&& d[at + 2 * k] as int + 256 * d[at + 2 * k + 1] as int == paths[i][k]
            &&& d[at + 2 * paths[i].len()] == 0 && d[at + 2 * paths[i].len() + 1] == 0
            &&& d[n - 2] == 0 && d[n - 1] == 0
        }),
{
    let d = drop_list(paths);
    let e = ended_paths(paths);
    crate::number::lemma_le_bytes4(20);
    crate::number::lemma_le_bytes4(1);
    crate::number::lemma_le_bytes2(0);
    let head = le_bytes(20, 4) + zeros(12) + le_bytes(1, 4);
    assert(head.len() == 20);
    assert(d =~= head + e + le_bytes(0, 2));
    lemma_ended_paths(paths, i, k);
    lemma_bytes_before(paths, i, paths.len());
    let at = bytes_before(paths, i as nat) as int;
    let m = paths[i].len() as int;
    assert(at + 2 * m + 2 <= e.len());
    assert(d[20 + at + 2 * k] == e[at + 2 * k]);
    assert(d[20 + at + 2 * k + 1] == e[at + 2 * k + 1]);
    assert(d[20 + at + 2 * m] == e[at + 2 * m]);
    assert(d[20 + at + 2 * m + 1] == e[at + 2 * m + 1]);
    assert(d[0] == 20 && d[1] == 0 && d[2] == 0 && d[3] == 0);
    assert(d[16] == 1 && d[17] == 0 && d[18] == 0 && d[19] == 0);
}

proof fn lemma_bytes_before(paths: Seq<Seq<u16>>, i: int, n: nat)
    requires
        0 <= i < n <= paths.len(),
    ensures
        bytes_before(paths, i as nat) + 2 * (paths[i].len() + 1) <= bytes_before(paths, n),
    decreases n,
{
    if i < n - 1 {
        lemma_bytes_before(paths, i, (n - 1) as nat);
    }
}

proof fn lemma_bytes_before_take(paths: Seq<Seq<u16>>, i: nat)
    requires
        i < paths.len(),
    ensures
        bytes_before(paths.drop_last(), i) == bytes_before(paths, i),
    decreases i,
{
    if i > 0 {
        lemma_bytes_before_take(paths, (i - 1) as nat);
    }
}

proof fn lemma_ended_paths(paths: Seq<Seq<u16>>, i: int, k: int)
    ensures
        ended_paths(paths).len() == bytes_before(paths, paths.len()),
        0 <= i < paths.len() && 0 <= k < paths[i].len() ==> {
            let e = ended_paths(paths);
            let at = bytes_before(paths, i as nat) as int;
            &&& e[at + 2 * k] as int + 256 * e[at + 2 * k + 1] as int == paths[i][k]
            &&& e[at + 2 * paths[i].len()] == 0 && e[at + 2 * paths[i].len() + 1] == 0
        },
    decreases paths.len(),
{
    if paths.len() > 0 {
        let init = paths.drop_last();
        let n = paths.len() - 1;
        let before = ended_paths(init);
        let own = unit_bytes(paths.last().push(0));
        let e = ended_paths(paths);
        lemma_ended_paths(init, i, k);
        lemma_unit_bytes_len(paths.last().push(0));
        lemma_bytes_before_take(paths, n as nat);
        assert(init.len() == n);
        assert(bytes_before(init, n as nat) == bytes_before(paths, n as nat));
        if 0 <= i < n && 0 <= k < paths[i].len() {
            lemma_bytes_before_take(paths, i as nat);
            lemma_bytes_before(init, i, n as nat);
            let at = bytes_before(paths, i as nat) as int;
            let m = paths[i].len() as int;
            assert(init[i] == paths[i]);
            assert(e[at + 2 * k] == before[at + 2 * k]);
            assert(e[at + 2 * k + 1] == before[at + 2 * k + 1]);
            assert(e[at + 2 * m] == before[at + 2 * m]);
            assert(e[at + 2 * m + 1] == before[at + 2 * m + 1]);
        } else if i == n && 0 <= k < paths[i].len() {
            let at = bytes_before(paths, i as nat) as int;
            let m = paths[i].len() as int;
            assert(before.len() == at);
            law_bytes_of_units(paths.last().push(0), k);
            law_bytes_of_units(paths.last().push(0), m);
            assert(e[at + 2 * k] == own[2 * k]);
            assert(e[at + 2 * k + 1] == own[2 * k + 1]);
            assert(e[at + 2 * m] == own[2 * m]);
            assert(e[at + 2 * m + 1] == own[2 * m + 1]);
            assert(own[2 * m] as int + 256 * own[2 * m + 1] as int == 0);
        }
    }
}

/// A list of files comes first among the formats, with the wish that they be copied and the
/// marker behind it, each where there is a format for it.
pub proof fn law_formats_of_files(
    paths: Seq<Seq<u16>>,
    effect_format: u32,
    marker_format: u32,
    marker: Seq<u8>,
)
    ensures
        ({
            let f = drop_formats(paths, effect_format, marker_format, marker);
            &&& f[0] == FormatView { format: 15, bytes: drop_list(paths) }
            &&& effect_format != 0 ==> f[1].format == effect_format && f[1].bytes == seq![
                1u8,
                0u8,
                0u8,
                0u8,
            ]
            &&& marker_format != 0 ==> f.last() == (FormatView {
                format: marker_format,
                bytes: marker,
            })
            &&& f.len() == 1 + (if effect_format != 0 {
                1int
            } else {
                0
            }) + if marker_format != 0 {
                1int
            } else {
                0
            }
        }),
{
    crate::number::lemma_le_bytes4(1);
    assert(le_bytes(1, 4) =~= seq![1u8, 0u8, 0u8, 0u8]);
}

} // verus!
