//! What the control panel shows: rows of the history, of the log and of the services'
//! journal.

use crate::apply::opt_str;
use crate::bytes::{lossy, lossy_text};
use crate::i18n::Lang;
use crate::message::system_nanos;
use crate::number::{decimal, print};
use crate::paths::{can_cut_8, first_8, first_eight, in_dir};
use crate::path::join_text;
use crate::text::{
    chars_of, find, join, joined, lemma_position, lines, lines_of, pieces, position, same, split,
    text_of, trim, trim_start, trimmed, trimmed_start,
};
use crate::wire::opt_text;
use std::collections::VecDeque;
use vstd::prelude::*;

verus! {

/// A column of a row: the text between two tabs, nothing where there are too few.
pub open spec fn column(row: Seq<char>, n: nat) -> Seq<char> {
    if n < pieces(row, '\t').len() {
        pieces(row, '\t')[n as int]
    } else {
        Seq::empty()
    }
}

/// A column of a row.
pub fn parse_cols(row: &str, n: usize) -> (res: String)
    ensures
        res@ == column(row@, n as nat),
{
    let ps = split(row, '\t');
    assert(ps.deep_view().len() == ps@.len());
    if n < ps.len() {
        assert(ps.deep_view()[n as int] == ps@[n as int]@);
        ps[n].clone()
    } else {
        String::new()
    }
}

/// Where `]` and a space stand together first; the length where they do not.
pub open spec fn bracket_end(s: Seq<char>) -> nat
    decreases s.len(),
{
    if s.len() == 0 || (s.len() >= 2 && s[0] == ']' && s[1] == ' ') {
        0
    } else {
        1 + bracket_end(s.drop_first())
    }
}

fn bracket_end_of(cs: &Vec<char>, from: usize) -> (res: usize)
    requires
        from <= cs@.len(),
    ensures
        from <= res <= cs@.len(),
        res == from + bracket_end(cs@.skip(from as int)),
        res < cs@.len() ==> res + 2 <= cs@.len(),
{
    let mut i: usize = from;
    while i < cs.len() && !(cs.len() - i >= 2 && cs[i] == ']' && cs[i + 1] == ' ')
        invariant
            from <= i <= cs@.len(),
            from + bracket_end(cs@.skip(from as int)) == i + bracket_end(cs@.skip(i as int)),
        decreases cs@.len() - i,
    {
        assert(cs@.skip(i as int).drop_first() =~= cs@.skip(i + 1));
        i += 1;
    }
    i
}

/// Where a line of the log came from, and what it says.
#[verifier::ext_equal]
pub struct SourceView {
    pub source: Seq<char>,
    pub message: Seq<char>,
}

/// Where a line of the log came from, and what it says: a program's lines have its name in
/// brackets before them.
pub open spec fn source_of(line: Seq<char>) -> SourceView {
    let rest = line.drop_first();
    let both = bracket_end(rest) as int;
    let one = position(rest, ']') as int;
    if line.len() > 0 && line[0] == '[' && both < rest.len() {
        SourceView { source: rest.take(both), message: rest.skip(both + 2) }
    } else if line.len() > 0 && line[0] == '[' && one < rest.len() {
        SourceView { source: rest.take(one), message: trimmed_start(rest.skip(one + 1)) }
    } else {
        SourceView { source: "ui"@, message: line }
    }
}

/// Where a line of the log came from, and what it says.
pub fn split_prefix(line: &str) -> (res: (String, String))
    ensures
        source_of(line@) == (SourceView { source: res.0@, message: res.1@ }),
{
    let cs = chars_of(line);
    if cs.len() > 0 && cs[0] == '[' {
        let ghost rest = line@.drop_first();
        assert(cs@.skip(1) =~= rest);
        let both = bracket_end_of(&cs, 1);
        if both < cs.len() {
            let source = text_of(&cs, 1, both);
            let message = text_of(&cs, both + 2, cs.len());
            assert(source@ =~= rest.take(both - 1));
            assert(message@ =~= rest.skip(both - 1 + 2));
            return (source, message);
        }
        let one = find(&cs, 1, ']');
        if one < cs.len() {
            let source = text_of(&cs, 1, one);
            let after = text_of(&cs, one + 1, cs.len());
            assert(source@ =~= rest.take(one - 1));
            assert(after@ =~= rest.skip(one - 1 + 1));
            return (source, trim_start(after.as_str()).to_string());
        }
    }
    ("ui".to_string(), line.to_string())
}

/// A row of the log.
pub fn log_row(time: &str, line: &str) -> (res: String)
    ensures
        res@ == time@ + "\t"@ + source_of(line@).source + "\t"@ + source_of(line@).message,
{
    let (source, message) = split_prefix(line);
    let mut out = time.to_string();
    out.append("\t");
    out.append(source.as_str());
    out.append("\t");
    out.append(message.as_str());
    out
}

/// How many rows of the log are dropped, the oldest first, so that it does not grow
/// without end.
pub fn rows_to_drop(rows: u32) -> (res: u32)
    ensures
        res == if rows > 5000 {
            (rows - 5000) as u32
        } else {
            0u32
        },
{
    if rows > 5000 {
        rows - 5000
    } else {
        0
    }
}

/// Text without the colons at its end.
pub open spec fn without_colons(s: Seq<char>) -> Seq<char>
    decreases s.len(),
{
    if s.len() > 0 && s.last() == ':' {
        without_colons(s.drop_last())
    } else {
        s
    }
}

/// A line of the journal, of the form `time host unit: message`, as three columns. A line
/// of another form stands in the last column.
pub open spec fn journal_row(line: Seq<char>) -> Seq<char> {
    let ps = pieces(line, ' ');
    if ps.len() >= 4 {
        let rest = line.skip((ps[0].len() + ps[1].len() + ps[2].len() + 3) as int);
        ps[0] + "\t"@ + without_colons(ps[2]) + "\t"@ + trimmed_start(rest)
    } else {
        "\t\t"@ + line
    }
}

/// The lines of the journal as rows, each ended by a line feed. Blank lines are left out.
pub open spec fn journal_rows(ls: Seq<Seq<char>>) -> Seq<char>
    decreases ls.len(),
{
    if ls.len() == 0 {
        Seq::empty()
    } else {
        let before = journal_rows(ls.drop_last());
        if trimmed(ls.last()).len() == 0 {
            before
        } else {
            before + journal_row(ls.last()).push('\n')
        }
    }
}

/// What three spaces in a line mean for its pieces.
proof fn lemma_four_pieces(line: Seq<char>)
    ensures
        ({
            let a = position(line, ' ') as int;
            let r1 = line.skip(a + 1);
            let b = position(r1, ' ') as int;
            let r2 = r1.skip(b + 1);
            let c = position(r2, ' ') as int;
            let ps = pieces(line, ' ');
            &&& ps.len() >= 4 <==> a < line.len() && b < r1.len() && c < r2.len()
            &&& ps.len() >= 4 ==> ps[0] == line.take(a) && ps[1] == r1.take(b) && ps[2] == r2.take(
                c,
            )
        }),
{
    reveal_with_fuel(pieces, 5);
    let a = position(line, ' ') as int;
    lemma_position(line, ' ');
    if a < line.len() {
        let r1 = line.skip(a + 1);
        let b = position(r1, ' ') as int;
        lemma_position(r1, ' ');
        if b < r1.len() {
            let r2 = r1.skip(b + 1);
            lemma_position(r2, ' ');
        }
    }
}

fn without_colons_of(cs: &Vec<char>, from: usize, to: usize) -> (res: usize)
    requires
        from <= to <= cs@.len(),
    ensures
        from <= res <= to,
        without_colons(cs@.subrange(from as int, to as int)) == cs@.subrange(
            from as int,
            res as int,
        ),
{
    let mut j: usize = to;
    while j > from && cs[j - 1] == ':'
        invariant
            from <= j <= to <= cs@.len(),
            without_colons(cs@.subrange(from as int, to as int)) == without_colons(
                cs@.subrange(from as int, j as int),
            ),
        decreases j,
    {
        assert(cs@.subrange(from as int, j as int).drop_last() =~= cs@.subrange(
            from as int,
            j - 1,
        ));
        j -= 1;
    }
    j
}

/// A line of the journal as three columns.
pub fn journal_row_of(line: &str) -> (res: String)
    ensures
        res@ == journal_row(line@),
{
    let cs = chars_of(line);
    proof {
        lemma_four_pieces(line@);
        assert(cs@.skip(0) =~= cs@);
    }
    let a = find(&cs, 0, ' ');
    if a < cs.len() {
        let ghost r1 = line@.skip(a + 1);
        let b = find(&cs, a + 1, ' ');
        if b < cs.len() {
            let ghost r2 = r1.skip(b - a);
            assert(cs@.skip(b + 1) =~= r2);
            let c = find(&cs, b + 1, ' ');
            if c < cs.len() {
                let end = without_colons_of(&cs, b + 1, c);
                let time = text_of(&cs, 0, a);
                let unit = text_of(&cs, b + 1, end);
                let rest = text_of(&cs, c + 1, cs.len());
                proof {
                    assert(time@ =~= line@.take(a as int));
                    assert(cs@.subrange(b + 1, c as int) =~= r2.take(c - b - 1));
                    assert(rest@ =~= line@.skip(c + 1));
                }
                let mut out = time;
                out.append("\t");
                out.append(unit.as_str());
                out.append("\t");
                out.append(trim_start(rest.as_str()));
                return out;
            }
        }
    }
    let mut out = "\t\t".to_string();
    out.append(line);
    out
}

/// The journal as rows, each ended by a line feed.
pub fn format_journal_as_columns(text: &str) -> (res: String)
    ensures
        res@ == journal_rows(lines_of(text@)),
{
    let ls = lines(text);
    let ghost all = lines_of(text@);
    assert(all.len() == ls@.len());
    let mut out = String::new();
    let mut i: usize = 0;
    assert(all.take(0) =~= Seq::<Seq<char>>::empty());
    while i < ls.len()
        invariant
            i <= ls@.len(),
            all == ls.deep_view(),
            all.len() == ls@.len(),
            out@ == journal_rows(all.take(i as int)),
        decreases ls@.len() - i,
    {
        let ghost next = all.take(i + 1);
        assert(next.drop_last() =~= all.take(i as int));
        assert(next.last() == ls@[i as int]@);
        let ghost before = out@;
        if !trim(ls[i].as_str()).is_empty() {
            out.append(journal_row_of(ls[i].as_str()).as_str());
            out.push('\n');
            assert(out@ =~= before + journal_row(next.last()).push('\n'));
        }
        i += 1;
    }
    assert(all.take(i as int) =~= all);
    out
}

/// The history's file, given the user's directory for data and home.
pub fn history_path(data_dir: Option<&[u8]>, home: Option<&[u8]>) -> (res: Vec<u8>)
    ensures
        res@ == in_dir(
            in_dir(
                match data_dir {
                    Some(d) => d@,
                    None => match home {
                        Some(h) => in_dir(h@, ".local/share"@),
                        None => vstd::utf8::encode_utf8("/tmp"@),
                    },
                },
                "multicliprelay"@,
            ),
            "history.jsonl"@,
        ),
{
    let base = match data_dir {
        Some(d) => crate::bytes::to_vec(d),
        None => match home {
            Some(h) => join_text(h, ".local/share"),
            None => "/tmp".as_bytes_vec(),
        },
    };
    let dir = join_text(base.as_slice(), "multicliprelay");
    join_text(dir.as_slice(), "history.jsonl")
}

/// Where reading the end of a file of a length starts.
pub fn tail_start(len: u64, max_bytes: u64) -> (res: u64)
    ensures
        res == if len > max_bytes {
            (len - max_bytes) as u64
        } else {
            0u64
        },
{
    len.saturating_sub(max_bytes)
}

/// The lines that are not blank.
pub open spec fn not_blank(ls: Seq<Seq<char>>) -> Seq<Seq<char>>
    decreases ls.len(),
{
    if ls.len() == 0 {
        Seq::empty()
    } else {
        let before = not_blank(ls.drop_last());
        if trimmed(ls.last()).len() == 0 {
            before
        } else {
            before.push(ls.last())
        }
    }
}

/// The last lines of some text. Where the text begins in the middle of a file, its first
/// line is a part of one and is left out.
pub open spec fn last_lines(ls: Seq<Seq<char>>, cut: bool, max: nat) -> Seq<Seq<char>> {
    let whole = if cut && ls.len() > 0 {
        ls.drop_first()
    } else {
        ls
    };
    if whole.len() > max {
        whole.skip(whole.len() - max)
    } else {
        whole
    }
}

/// The last lines of the end of a file, without blank ones. `start` is where the end
/// begins.
pub fn tail_lines(start: u64, bytes: &[u8], max: usize) -> (res: Vec<String>)
    ensures
        res.deep_view() == not_blank(last_lines(lines_of(lossy(bytes@)), start > 0, max as nat)),
{
    let text = lossy_text(bytes);
    let ls = lines(text.as_str());
    let ghost all = lines_of(lossy(bytes@));
    assert(all.len() == ls@.len());
    let first: usize = if start > 0 && ls.len() > 0 {
        1
    } else {
        0
    };
    let from: usize = if ls.len() - first > max {
        ls.len() - max
    } else {
        first
    };
    let ghost want = last_lines(all, start > 0, max as nat);
    assert(want =~= all.skip(from as int));
    let mut out: Vec<String> = Vec::new();
    let mut i: usize = from;
    assert(out.deep_view() =~= Seq::<Seq<char>>::empty());
    assert(want.take(0) =~= Seq::<Seq<char>>::empty());
    while i < ls.len()
        invariant
            from <= i <= ls@.len(),
            all == ls.deep_view(),
            all.len() == ls@.len(),
            want == all.skip(from as int),
            out.deep_view() == not_blank(want.take(i - from)),
        decreases ls@.len() - i,
    {
        let ghost next = want.take(i - from + 1);
        assert(next.drop_last() =~= want.take(i - from));
        assert(next.last() == ls@[i as int]@);
        let ghost before = out.deep_view();
        if !trim(ls[i].as_str()).is_empty() {
            out.push(ls[i].clone());
            assert(out.deep_view() =~= before.push(next.last()));
        }
        i += 1;
    }
    assert(want.take(i - from) =~= want);
    out
}

/// The last three digits of a number below a thousand.
pub open spec fn three_digits(n: nat) -> Seq<char> {
    seq![
        crate::number::digit(n / 100 % 10),
        crate::number::digit(n / 10 % 10),
        crate::number::digit(n % 10),
    ]
}

/// A time as it is shown. `local` is the time of day to the second, if it is known.
pub open spec fn time_text(ms: Option<u64>, local: Option<Seq<char>>) -> Seq<char> {
    match ms {
        Some(ms) => match local {
            Some(base) => base + "."@ + three_digits((ms % 1000) as nat),
            None => decimal(ms as nat),
        },
        None => "?"@,
    }
}

/// A digit's character.
fn digit_char(d: u64) -> (res: char)
    requires
        d < 10,
    ensures
        res == crate::number::digit(d as nat),
{
    (48 + d as u8) as char
}

/// A time as it is shown.
pub fn fmt_ts(ms: Option<u64>, local: Option<&str>) -> (res: String)
    ensures
        res@ == time_text(ms, opt_str(local)),
{
    let ms = match ms {
        Some(ms) => ms,
        None => return "?".to_string(),
    };
    match local {
        Some(base) => {
            let n: u64 = ms % 1000;
            let mut out = base.to_string();
            out.append(".");
            out.push(digit_char(n / 100 % 10));
            out.push(digit_char(n / 10 % 10));
            out.push(digit_char(n % 10));
            assert(out@ =~= time_text(Some(ms), opt_str(local)));
            out
        },
        None => print(ms as u128),
    }
}

/// An event of the history as it was read. Any part of it may be missing.
pub struct ReadEvent {
    pub dir: Option<String>,
    pub room: Option<String>,
    pub relay: Option<String>,
    pub local_device_id: Option<String>,
    pub remote_device_id: Option<String>,
    pub kind: Option<String>,
    pub mime: Option<String>,
    pub name: Option<String>,
    pub bytes: Option<usize>,
    pub sha256: Option<String>,
}

/// A part of an event, or a question mark.
pub open spec fn or_unknown(s: Option<Seq<char>>) -> Seq<char> {
    match s {
        Some(s) => s,
        None => "?"@,
    }
}

/// A part of an event with its name before it; nothing where it is missing or empty.
pub open spec fn detail(name: Seq<char>, s: Option<Seq<char>>) -> Seq<Seq<char>> {
    match s {
        Some(s) => if s.len() > 0 {
            seq![name + s]
        } else {
            Seq::empty()
        },
        None => Seq::empty(),
    }
}

/// The details of an event.
pub open spec fn details(e: ReadEvent) -> Seq<Seq<char>> {
    detail("room="@, opt_text(e.room)) + detail("name="@, opt_text(e.name)) + detail(
        "mime="@,
        opt_text(e.mime),
    ) + detail(
        "sha="@,
        match e.sha256 {
            Some(s) => Some(first_eight(s@)),
            None => None,
        },
    ) + detail("relay="@, opt_text(e.relay))
}

/// The device on the other side of an event, or else this one.
pub open spec fn peer(e: ReadEvent) -> Seq<char> {
    match e.remote_device_id {
        Some(d) => d@,
        None => or_unknown(opt_text(e.local_device_id)),
    }
}

/// An event as a row: time, direction, device, kind, size and details.
pub open spec fn event_row(e: ReadEvent, time: Seq<char>) -> Seq<char> {
    joined(
        seq![
            time,
            or_unknown(opt_text(e.dir)),
            peer(e),
            or_unknown(opt_text(e.kind)),
            match e.bytes {
                Some(n) => decimal(n as nat),
                None => "?"@,
            },
            joined(details(e), " "@),
        ],
        "\t"@,
    )
}

fn or_unknown_of(s: &Option<String>) -> (res: String)
    ensures
        res@ == or_unknown(opt_text(*s)),
{
    match s {
        Some(s) => s.clone(),
        None => "?".to_string(),
    }
}

/// Adds a detail.
fn push_detail(out: &mut Vec<String>, name: &str, s: Option<&str>)
    ensures
        final(out).deep_view() == old(out).deep_view() + detail(name@, opt_str(s)),
{
    let ghost before = out.deep_view();
    if let Some(s) = s {
        if !s.is_empty() {
            let mut d = name.to_string();
            d.append(s);
            let ghost text = d@;
            out.push(d);
            assert(out.deep_view() =~= before.push(text));
        }
    }
    assert(out.deep_view() =~= before + detail(name@, opt_str(s)));
}

fn as_str_opt<'a>(s: &'a Option<String>) -> (res: Option<&'a str>)
    ensures
        opt_str(res) == opt_text(*s),
{
    match s {
        Some(s) => Some(s.as_str()),
        None => None,
    }
}

/// An event as a row. The digest is cut after eight bytes.
pub fn format_event_as_row(e: &ReadEvent, time: &str) -> (res: String)
    requires
        e.sha256 is Some ==> can_cut_8(e.sha256->0@),
    ensures
        res@ == event_row(*e, time@),
{
    let mut extra: Vec<String> = Vec::new();
    assert(extra.deep_view() =~= Seq::<Seq<char>>::empty());
    push_detail(&mut extra, "room=", as_str_opt(&e.room));
    push_detail(&mut extra, "name=", as_str_opt(&e.name));
    push_detail(&mut extra, "mime=", as_str_opt(&e.mime));
    match &e.sha256 {
        Some(s) => push_detail(&mut extra, "sha=", Some(first_8(s.as_str()))),
        None => push_detail(&mut extra, "sha=", None),
    }
    push_detail(&mut extra, "relay=", as_str_opt(&e.relay));
    assert(extra.deep_view() =~= details(*e));
    let mut cols: Vec<String> = Vec::new();
    cols.push(time.to_string());
    cols.push(or_unknown_of(&e.dir));
    cols.push(
        match &e.remote_device_id {
            Some(d) => d.clone(),
            None => or_unknown_of(&e.local_device_id),
        },
    );
    cols.push(or_unknown_of(&e.kind));
    cols.push(
        match e.bytes {
            Some(n) => print(n as u128),
            None => "?".to_string(),
        },
    );
    cols.push(join(&extra, " "));
    let ghost want = seq![
        time@,
        or_unknown(opt_text(e.dir)),
        peer(*e),
        or_unknown(opt_text(e.kind)),
        match e.bytes {
            Some(n) => decimal(n as nat),
            None => "?"@,
        },
        joined(details(*e), " "@),
    ];
    assert(cols.deep_view() =~= want);
    join(&cols, "\t")
}

/// The rows of the history, or a row with a hint in its last column where there are none.
pub fn rows_or_hint(rows: Vec<String>, hint: &str) -> (res: Vec<String>)
    ensures
        res.deep_view() == if rows@.len() == 0 {
            seq!["\t\t\t\t\t"@ + hint@]
        } else {
            rows.deep_view()
        },
{
    if rows.len() > 0 {
        return rows;
    }
    let mut row = "\t\t\t\t\t".to_string();
    row.append(hint);
    let mut out: Vec<String> = Vec::new();
    out.push(row);
    assert(out.deep_view() =~= seq!["\t\t\t\t\t"@ + hint@]);
    out
}

/// The name of a column of the history.
pub open spec fn column_name(lang: Lang, id: Seq<char>) -> Seq<char> {
    match lang {
        Lang::En => id,
        Lang::ZhCn => if id == "time"@ {
            "时间"@
        } else if id == "dir"@ {
            "方向"@
        } else if id == "name"@ {
            "名称"@
        } else if id == "peer"@ {
            "peer(id)"@
        } else if id == "kind"@ {
            "类型"@
        } else if id == "bytes"@ {
            "大小"@
        } else if id == "extra"@ {
            "详情"@
        } else if id == "preview"@ {
            "预览"@
        } else {
            id
        },
    }
}

/// The name of a column of the history.
pub fn column_label(lang: Lang, id: &str) -> (res: String)
    ensures
        res@ == column_name(lang, id@),
{
    match lang {
        Lang::En => id.to_string(),
        Lang::ZhCn => if same(id, "time") {
            "时间".to_string()
        } else if same(id, "dir") {
            "方向".to_string()
        } else if same(id, "name") {
            "名称".to_string()
        } else if same(id, "peer") {
            "peer(id)".to_string()
        } else if same(id, "kind") {
            "类型".to_string()
        } else if same(id, "bytes") {
            "大小".to_string()
        } else if same(id, "extra") {
            "详情".to_string()
        } else if same(id, "preview") {
            "预览".to_string()
        } else {
            id.to_string()
        },
    }
}

/// The milliseconds of a clock reading in decimal; zero for a clock before 1970.
pub open spec fn clock_text(nanos: Option<u128>) -> Seq<char> {
    match nanos {
        Some(n) => decimal((n / 1_000_000) as nat),
        None => decimal(0),
    }
}

/// The milliseconds of a clock reading in decimal.
pub fn clock_text_of(nanos: Option<u128>) -> (res: String)
    ensures
        res@ == clock_text(nanos),
{
    match nanos {
        Some(n) => print(n / 1_000_000),
        None => print(0),
    }
}

/// The present time in milliseconds since the start of 1970, in decimal.
pub fn chrono_like_timestamp() -> (res: String)
    ensures
        exists|nanos: Option<u128>| res@ == #[trigger] clock_text(nanos),
{
    clock_text_of(system_nanos())
}

/// The id of a device that does not exist, for messages that test the way back: a node
/// ignores what its own device sent.
pub fn fake_remote_device_id(pid: u32) -> (res: String)
    ensures
        exists|nanos: Option<u128>|
            res@ == "ui-test-"@ + decimal(pid as nat) + "-"@ + #[trigger] clock_text(nanos),
{
    let time = chrono_like_timestamp();
    let ghost nanos = choose|nanos: Option<u128>| time@ == #[trigger] clock_text(nanos);
    let mut out = "ui-test-".to_string();
    out.append(print(pid as u128).as_str());
    out.append("-");
    out.append(time.as_str());
    assert(out@ == "ui-test-"@ + decimal(pid as nat) + "-"@ + clock_text(nanos));
    out
}

/// Whether a relay answers, and what is said of it.
pub struct Probe {
    last: Option<(bool, String)>,
}

impl Probe {
    /// What was reported last.
    pub closed spec fn last(&self) -> Option<(bool, Seq<char>)> {
        match self.last {
            Some(t) => Some((t.0, t.1@)),
            None => None,
        }
    }

    /// Nothing was reported yet.
    pub fn new() -> (res: Probe)
        ensures
            res.last() is None,
    {
        Probe { last: None }
    }

    /// Whether a result is reported: not where it is the same as the one before.
    pub fn on_result(&mut self, ok: bool, detail: &str) -> (res: bool)
        ensures
            res == (old(self).last() != Some((ok, detail@))),
            final(self).last() == Some((ok, detail@)),
    {
        if let Some(t) = &self.last {
            if t.0 == ok && same(t.1.as_str(), detail) {
                return false;
            }
        }
        self.last = Some((ok, detail.to_string()));
        true
    }
}

/// What the log says of a relay that was asked: nothing where it answered.
pub fn probe_line(ok: bool, detail: &str) -> (res: Option<String>)
    ensures
        opt_text(res) == if !ok && trimmed(detail@).len() > 0 {
            Some("relay probe: "@ + detail@)
        } else {
            None
        },
{
    if ok || trim(detail).is_empty() {
        return None;
    }
    let mut out = "relay probe: ".to_string();
    out.append(detail);
    Some(out)
}

/// The most lines that a log keeps.
pub const LOG_CAP: usize = 800;

/// A log that keeps its last lines.
pub struct LogBuffer {
    lines: VecDeque<String>,
}

/// The last lines of a log, at most `max`.
pub open spec fn last_of(s: Seq<Seq<char>>, max: nat) -> Seq<Seq<char>> {
    if s.len() > max {
        s.skip(s.len() - max)
    } else {
        s
    }
}

/// Lines, each ended by a line feed.
pub open spec fn ended_lines(s: Seq<Seq<char>>) -> Seq<char>
    decreases s.len(),
{
    if s.len() == 0 {
        Seq::empty()
    } else {
        ended_lines(s.drop_last()) + s.last().push('\n')
    }
}

impl LogBuffer {
    /// The lines.
    pub closed spec fn lines(&self) -> Seq<Seq<char>> {
        Seq::new(self.lines@.len(), |i: int| self.lines@[i]@)
    }

    /// There are not too many.
    pub open spec fn wf(&self) -> bool {
        self.lines().len() <= LOG_CAP
    }

    /// An empty log.
    pub fn new() -> (res: LogBuffer)
        ensures
            res.wf(),
            res.lines() == Seq::<Seq<char>>::empty(),
    {
        let res = LogBuffer { lines: VecDeque::new() };
        assert(res.lines() =~= Seq::<Seq<char>>::empty());
        res
    }

    /// Adds a line. Where there are too many, the oldest goes.
    pub fn log(&mut self, line: String)
        requires
            old(self).wf(),
        ensures
            final(self).wf(),
            final(self).lines() == last_of(old(self).lines().push(line@), LOG_CAP as nat),
    {
        let ghost before = self.lines();
        self.lines.push_back(line);
        assert(self.lines() =~= before.push(line@));
        if self.lines.len() > LOG_CAP {
            let ghost full = self.lines();
            let _ = self.lines.pop_front();
            assert(self.lines() =~= full.skip(1));
        }
    }

    /// Drops all lines.
    pub fn clear(&mut self)
        ensures
            final(self).wf(),
            final(self).lines() == Seq::<Seq<char>>::empty(),
    {
        self.lines = VecDeque::new();
        assert(self.lines() =~= Seq::<Seq<char>>::empty());
    }

    /// The lines, each ended by a line feed.
    pub fn text(&self) -> (res: String)
        ensures
            res@ == ended_lines(self.lines()),
    {
        let ghost all = self.lines();
        let mut out = String::new();
        let mut i: usize = 0;
        assert(all.take(0) =~= Seq::<Seq<char>>::empty());
        while i < self.lines.len()
            invariant
                i <= self.lines@.len(),
                all == self.lines(),
                out@ == ended_lines(all.take(i as int)),
            decreases self.lines@.len() - i,
        {
            let ghost next = all.take(i + 1);
            assert(next.drop_last() =~= all.take(i as int));
            let ghost before = out@;
            out.append(self.lines[i].as_str());
            out.push('\n');
            assert(out@ =~= before + next.last().push('\n'));
            i += 1;
        }
        assert(all.take(i as int) =~= all);
        out
    }
}

/// The columns of a row are the texts between its tabs, in order, and nothing behind the last.
pub proof fn law_columns_of_a_row(cols: Seq<Seq<char>>, n: nat)
    requires
        cols.len() > 0,
        forall|i: int| 0 <= i < cols.len() ==> !(#[trigger] cols[i]).contains('\t'),
    ensures
        column(joined(cols, seq!['\t']), n) == if n < cols.len() {
            cols[n as int]
        } else {
            Seq::empty()
        },
{
    crate::text::law_joined_texts_are_taken_apart(cols, '\t');
}

proof fn lemma_bracket_end(a: Seq<char>, b: Seq<char>)
    requires
        !a.contains(']'),
    ensures
        bracket_end(a + seq![']', ' '] + b) == a.len(),
    decreases a.len(),
{
    let s = a + seq![']', ' '] + b;
    if a.len() == 0 {
        assert(s[0] == ']' && s[1] == ' ');
    } else {
        let t = a.drop_first();
        assert(s[0] == a[0]);
        assert(a.contains(a[0]));
        assert(!t.contains(']')) by {
            if t.contains(']') {
                let k = choose|k: int| 0 <= k < t.len() && t[k] == ']';
                assert(a[k + 1] == ']');
            }
        }
        lemma_bracket_end(t, b);
        assert(s.drop_first() =~= t + seq![']', ' '] + b);
    }
}

/// A line with a name in brackets before it comes from there and says what follows; any other
/// line is the panel's own, and says all of itself.
pub proof fn law_where_a_line_comes_from(source: Seq<char>, message: Seq<char>, line: Seq<char>)
    requires
        !source.contains(']'),
    ensures
        source_of(seq!['['] + source + seq![']', ' '] + message) == (SourceView { source, message }),
        line.len() == 0 || line[0] != '[' ==> source_of(line) == (SourceView {
            source: "ui"@,
            message: line,
        }),
{
    let l = seq!['['] + source + seq![']', ' '] + message;
    let rest = l.drop_first();
    assert(rest =~= source + seq![']', ' '] + message);
    lemma_bracket_end(source, message);
    let n = source.len() as int;
    assert(rest.take(n) =~= source);
    assert(rest.skip(n + 2) =~= message);
}

proof fn lemma_colons(s: Seq<char>)
    requires
        s.len() == 0 || s.last() != ':',
    ensures
        without_colons(s.push(':')) == s,
        without_colons(s) == s,
{
    reveal_with_fuel(without_colons, 2);
    assert(s.push(':').drop_last() =~= s);
}

proof fn lemma_space_at(a: Seq<char>, b: Seq<char>)
    requires
        !a.contains(' '),
    ensures
        position(a.push(' ') + b, ' ') == a.len(),
        (a.push(' ') + b).take(a.len() as int) == a,
        (a.push(' ') + b).skip(a.len() as int + 1) == b,
{
    let s = a.push(' ') + b;
    lemma_position(s, ' ');
    let i = position(s, ' ') as int;
    assert(s[a.len() as int] == ' ');
    if i < a.len() {
        assert(a[i] == ' ');
        assert(a.contains(' '));
    }
    assert(s.take(a.len() as int) =~= a);
    assert(s.skip(a.len() as int + 1) =~= b);
}

/// A line of the journal becomes a row with its time, its unit without the colon, and its
/// message.
pub proof fn law_row_of_the_journal(
    time: Seq<char>,
    host: Seq<char>,
    unit: Seq<char>,
    message: Seq<char>,
)
    requires
        !time.contains(' '),
        !host.contains(' '),
        !unit.contains(' '),
        unit.len() == 0 || unit.last() != ':',
        message.len() == 0 || !crate::text::is_white(message[0]),
    ensures
        journal_row(
            time.push(' ') + (host.push(' ') + (unit.push(':').push(' ') + message)),
        ) == time + "\t"@ + unit + "\t"@ + message,
{
    let u = unit.push(':');
    let r2 = u.push(' ') + message;
    let r1 = host.push(' ') + r2;
    let line = time.push(' ') + r1;
    assert(!u.contains(' ')) by {
        if u.contains(' ') {
            let k = choose|k: int| 0 <= k < u.len() && u[k] == ' ';
            assert(k < unit.len());
            assert(unit[k] == ' ');
            assert(unit.contains(' '));
        }
    }
    lemma_space_at(time, r1);
    lemma_space_at(host, r2);
    lemma_space_at(u, message);
    lemma_four_pieces(line);
    lemma_colons(unit);
    let ps = pieces(line, ' ');
    assert(ps.len() >= 4);
    let n = (ps[0].len() + ps[1].len() + ps[2].len() + 3) as int;
    assert(line.skip(n) =~= message);
}

/// The rows of the journal are those of its lines, one after the other and each ended by a line
/// feed; blank lines have none.
pub proof fn law_rows_of_the_journal(a: Seq<Seq<char>>, b: Seq<Seq<char>>, line: Seq<char>)
    ensures
        journal_rows(a + b) == journal_rows(a) + journal_rows(b),
        trimmed(line).len() > 0 ==> journal_rows(seq![line]) == journal_row(line).push('\n'),
        trimmed(line).len() == 0 ==> journal_rows(seq![line]) == Seq::<char>::empty(),
    decreases b.len(),
{
    assert(seq![line].drop_last() =~= Seq::<Seq<char>>::empty());
    assert(journal_rows(Seq::<Seq<char>>::empty()) =~= Seq::<char>::empty());
    assert(seq![line].last() == line);
    assert(trimmed(line).len() > 0 ==> journal_rows(seq![line]) =~= journal_row(line).push('\n'));
    if b.len() == 0 {
        assert(a + b =~= a);
        assert(journal_rows(a) + journal_rows(b) =~= journal_rows(a));
    } else {
        law_rows_of_the_journal(a, b.drop_last(), line);
        assert((a + b).drop_last() =~= a + b.drop_last());
        assert((a + b).last() == b.last());
        assert(journal_rows(a + b) =~= journal_rows(a) + journal_rows(b));
    }
}

/// Of the lines those are kept that are not blank, all of them, in order.
pub proof fn law_lines_that_are_not_blank(a: Seq<Seq<char>>, b: Seq<Seq<char>>, line: Seq<char>)
    ensures
        not_blank(a + b) == not_blank(a) + not_blank(b),
        trimmed(line).len() > 0 ==> not_blank(seq![line]) == seq![line],
        trimmed(line).len() == 0 ==> not_blank(seq![line]).len() == 0,
    decreases b.len(),
{
    assert(seq![line].drop_last() =~= Seq::<Seq<char>>::empty());
    assert(not_blank(Seq::<Seq<char>>::empty()) =~= Seq::<Seq<char>>::empty());
    assert(seq![line].last() == line);
    assert(trimmed(line).len() > 0 ==> not_blank(seq![line]) =~= seq![line]);
    if b.len() == 0 {
        assert(a + b =~= a);
        assert(not_blank(a) + not_blank(b) =~= not_blank(a));
    } else {
        law_lines_that_are_not_blank(a, b.drop_last(), line);
        assert((a + b).drop_last() =~= a + b.drop_last());
        assert((a + b).last() == b.last());
        assert(not_blank(a + b) =~= not_blank(a) + not_blank(b));
    }
}

/// The last lines are as many as are asked for, or all there are; the first line does not count
/// where it may be the rest of one.
pub proof fn law_last_lines(head: Seq<Seq<char>>, tail: Seq<Seq<char>>, part: Seq<char>, max: nat)
    requires
        tail.len() == max || tail.len() < max && head.len() == 0,
    ensures
        last_lines(head + tail, false, max) == tail,
        last_lines(seq![part] + (head + tail), true, max) == tail,
        last_of(head + tail, max) == tail,
{
    let all = seq![part] + (head + tail);
    assert(all.drop_first() =~= head + tail);
    if head.len() == 0 {
        assert(head + tail =~= tail);
        assert(tail.skip(0) =~= tail);
    } else {
        assert((head + tail).skip(head.len() as int) =~= tail);
    }
}

/// A time is shown with its milliseconds, in three digits.
pub proof fn law_milliseconds_are_shown(ms: u64, base: Seq<char>)
    ensures
        ({
            let d = three_digits((ms % 1000) as nat);
            &&& d.len() == 3
            &&& crate::number::all_digits(d)
            &&& crate::number::value(d) == ms % 1000
            &&& time_text(Some(ms), Some(base)) == base + "."@ + d
            &&& time_text(Some(ms), None) == decimal(ms as nat)
            &&& time_text(None, Some(base)) == "?"@
        }),
{
    let n = (ms % 1000) as nat;
    let d = three_digits(n);
    reveal_with_fuel(crate::number::value, 4);
    assert(d.drop_last() =~= seq![d[0], d[1]]);
    assert(d.drop_last().drop_last() =~= seq![d[0]]);
    assert(d.drop_last().drop_last().drop_last() =~= Seq::<char>::empty());
    assert(n / 100 < 10);
    assert(d[0] as nat == 48 + n / 100 % 10);
    assert(d[1] as nat == 48 + n / 10 % 10);
    assert(d[2] as nat == 48 + n % 10);
}

/// The row of an event has its time, direction, device, kind, size and details in its columns.
pub proof fn law_columns_of_an_event(e: ReadEvent, time: Seq<char>)
    requires
        !time.contains('\t'),
        e.dir is Some && !e.dir->0@.contains('\t'),
        e.remote_device_id is Some && !e.remote_device_id->0@.contains('\t'),
        e.kind is Some && !e.kind->0@.contains('\t'),
        e.bytes is Some,
        !joined(details(e), " "@).contains('\t'),
    ensures
        column(event_row(e, time), 0) == time,
        column(event_row(e, time), 1) == e.dir->0@,
        column(event_row(e, time), 2) == e.remote_device_id->0@,
        column(event_row(e, time), 3) == e.kind->0@,
        column(event_row(e, time), 4) == decimal(e.bytes->0 as nat),
        column(event_row(e, time), 5) == joined(details(e), " "@),
{
    reveal_strlit("\t");
    assert("\t"@ =~= seq!['\t']);
    let n = decimal(e.bytes->0 as nat);
    crate::number::lemma_decimal(e.bytes->0 as nat);
    if n.contains('\t') {
        let k = choose|k: int| 0 <= k < n.len() && n[k] == '\t';
        assert(crate::number::is_digit(n[k]));
    }
    let cols = seq![
        time,
        e.dir->0@,
        e.remote_device_id->0@,
        e.kind->0@,
        n,
        joined(details(e), " "@),
    ];
    let own = seq![
        time,
        or_unknown(opt_text(e.dir)),
        peer(e),
        or_unknown(opt_text(e.kind)),
        match e.bytes {
            Some(n) => decimal(n as nat),
            None => "?"@,
        },
        joined(details(e), " "@),
    ];
    assert(own =~= cols);
    assert(event_row(e, time) == joined(own, "\t"@));
    law_columns_of_a_row(cols, 0);
    law_columns_of_a_row(cols, 1);
    law_columns_of_a_row(cols, 2);
    law_columns_of_a_row(cols, 3);
    law_columns_of_a_row(cols, 4);
    law_columns_of_a_row(cols, 5);
}

/// The details of an event are its room, the name and the type of its content, the first eight
/// characters of the digest and the relay, each where it is there and not empty.
pub proof fn law_details_of_an_event(e: ReadEvent)
    ensures
        e.room matches Some(r) ==> (details(e).contains("room="@ + r@) || r@.len() == 0),
        e.name matches Some(n) ==> (details(e).contains("name="@ + n@) || n@.len() == 0),
        e.mime matches Some(m) ==> (details(e).contains("mime="@ + m@) || m@.len() == 0),
        e.sha256 matches Some(s) ==> (details(e).contains("sha="@ + first_eight(s@)) || first_eight(
            s@,
        ).len() == 0),
        e.relay matches Some(r) ==> (details(e).contains("relay="@ + r@) || r@.len() == 0),
        details(e).len() <= 5,
{
    let a = detail("room="@, opt_text(e.room));
    let b = detail("name="@, opt_text(e.name));
    let c = detail("mime="@, opt_text(e.mime));
    let d = detail(
        "sha="@,
        match e.sha256 {
            Some(s) => Some(first_eight(s@)),
            None => None,
        },
    );
    let f = detail("relay="@, opt_text(e.relay));
    let all = details(e);
    assert(all == a + b + c + d + f);
    if a.len() > 0 {
        assert(all[0] == a[0]);
    }
    if b.len() > 0 {
        assert(all[a.len() as int] == b[0]);
    }
    if c.len() > 0 {
        assert(all[(a.len() + b.len()) as int] == c[0]);
    }
    if d.len() > 0 {
        assert(all[(a.len() + b.len() + c.len()) as int] == d[0]);
    }
    if f.len() > 0 {
        assert(all[(a.len() + b.len() + c.len() + d.len()) as int] == f[0]);
    }
}

/// The text of a log holds its lines, in order: they are read back from it.
pub proof fn law_lines_of_a_log(ls: Seq<Seq<char>>)
    requires
        forall|i: int|
            0 <= i < ls.len() ==> !(#[trigger] ls[i]).contains('\n') && (ls[i].len() > 0 ==> ls[i].last()
                != '\r'),
    ensures
        lines_of(ended_lines(ls)) == ls,
{
    lemma_ended_lines(Seq::empty(), ls);
    assert(Seq::<Seq<char>>::empty() + ls =~= ls);
    assert(ended_lines(ls) =~= crate::text::ended_lines(ls)) by {
        assert(ended_lines(Seq::<Seq<char>>::empty()) =~= Seq::<char>::empty());
    }
    crate::text::law_lines_are_read_back(ls, Seq::empty());
}

proof fn lemma_ended_lines(a: Seq<Seq<char>>, b: Seq<Seq<char>>)
    ensures
        ended_lines(a + b) == ended_lines(a) + crate::text::ended_lines(b),
    decreases b.len(),
{
    if b.len() == 0 {
        assert(a + b =~= a);
        assert(ended_lines(a) + crate::text::ended_lines(b) =~= ended_lines(a));
    } else {
        let c = a.push(b[0]);
        assert(a + b =~= c + b.drop_first());
        lemma_ended_lines(c, b.drop_first());
        assert(c.drop_last() =~= a);
        assert(c.last() == b[0]);
        assert(ended_lines(a + b) =~= ended_lines(a) + crate::text::ended_lines(b));
    }
}

/// In English the columns are called by their own names.
pub proof fn law_columns_in_english(id: Seq<char>)
    ensures
        column_name(Lang::En, id) == id,
{
}

/// A clock reading is shown in milliseconds.
pub proof fn law_clock_is_shown_in_milliseconds(ms: u64, rest: u128)
    requires
        rest < 1_000_000,
    ensures
        clock_text(Some((ms * 1_000_000 + rest) as u128)) == decimal(ms as nat),
        clock_text(None) == decimal(0),
{
    let n: u128 = (ms * 1_000_000 + rest) as u128;
    assert(n == ms * 1_000_000 + rest);
    assert(n / 1_000_000 == ms as u128);
}

/// What is not known of an event is shown as a question mark; without another device, this one
/// is shown.
pub proof fn law_what_is_not_known(e: ReadEvent, s: Seq<char>)
    ensures
        or_unknown(None) == "?"@,
        or_unknown(Some(s)) == s,
        e.remote_device_id is None && e.local_device_id is Some ==> peer(e) == e.local_device_id->0@,
        e.remote_device_id is None && e.local_device_id is None ==> peer(e) == "?"@,
        e.remote_device_id is Some ==> peer(e) == e.remote_device_id->0@,
{
}

} // verus!
