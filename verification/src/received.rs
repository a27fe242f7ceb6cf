//! Received files on the clipboard: which paths are offered, and in which types.

use crate::apply::{FileJob, FileJobView, TEXT_MIME};
use crate::bytes::{lossy, lossy_text};
use crate::clip::{text_item, Item, ItemView};
use crate::consts::{APPLIED_MARKER_MIME, GNOME_COPIED_FILES_MIME, URI_LIST_MIME};
use crate::number::{decimal, print};
use crate::path::{
    join, join_text, joined, last_name, last_name_of, last_name_text, last_name_text_of, parts,
    parts_of, same_parts,
};
use crate::paths::in_dir;
use vstd::prelude::*;

verus! {

/// A file or directory to be moved: from where, to where.
#[verifier::ext_equal]
pub struct MoveView {
    pub from: Seq<u8>,
    pub name: Seq<u8>,
    pub to: Seq<u8>,
}

/// A file or directory to be moved: from where, its name, to where.
#[derive(Debug)]
pub struct Move {
    pub from: Vec<u8>,
    pub name: Vec<u8>,
    pub to: Vec<u8>,
}

impl View for Move {
    type V = MoveView;

    open spec fn view(&self) -> MoveView {
        MoveView { from: self.from@, name: self.name@, to: self.to@ }
    }
}

impl DeepView for Move {
    type V = MoveView;

    open spec fn deep_view(&self) -> MoveView {
        self@
    }
}

/// What an unpacked archive offers.
#[verifier::ext_equal]
pub struct ExposureView {
    pub paths: Seq<Seq<u8>>,
    pub plain: Seq<char>,
    pub wrapper: Option<Seq<u8>>,
    pub moves: Seq<MoveView>,
}

/// What an unpacked archive offers: the paths, the plain text beside them, and what has
/// to be moved into a directory of its own first.
#[derive(Debug)]
pub struct Exposure {
    pub paths: Vec<Vec<u8>>,
    pub plain: String,
    /// A directory to be made, into which the moves go.
    pub wrapper: Option<Vec<u8>>,
    pub moves: Vec<Move>,
}

impl View for Exposure {
    type V = ExposureView;

    open spec fn view(&self) -> ExposureView {
        ExposureView {
            paths: self.paths.deep_view(),
            plain: self.plain@,
            wrapper: crate::wire::opt_payload(self.wrapper),
            moves: self.moves.deep_view(),
        }
    }
}

/// The moves that bring the entries into `wrapper`, which itself stays.
pub open spec fn moves_into(wrapper: Seq<u8>, entries: Seq<Seq<u8>>) -> Seq<MoveView>
    decreases entries.len(),
{
    if entries.len() == 0 {
        Seq::empty()
    } else {
        let before = moves_into(wrapper, entries.drop_last());
        let e = entries.last();
        match last_name(parts(e)) {
            Some(n) => if parts(e) == parts(wrapper) {
                before
            } else {
                before.push(MoveView { from: e, name: n, to: joined(wrapper, n) })
            },
            None => before,
        }
    }
}

/// The text of a path's last name, or another text.
pub open spec fn name_or(p: Seq<u8>, other: Seq<char>) -> Seq<char> {
    match last_name_text(parts(p)) {
        Some(n) => n,
        None => other,
    }
}

/// What an unpacked archive offers, given what its directory holds. One thing is
/// offered as it is, and a selection of several things as several. What was copied as
/// a directory is offered as one directory, made where the archive held several things.
pub open spec fn exposure(job: FileJobView, entries: Seq<Seq<u8>>) -> ExposureView {
    let wrapper = in_dir(job.out_dir, job.wrapper);
    if entries.len() == 0 {
        ExposureView {
            paths: seq![job.out_dir],
            plain: job.wrapper,
            wrapper: None,
            moves: Seq::empty(),
        }
    } else if entries.len() == 1 {
        ExposureView {
            paths: entries,
            plain: name_or(entries[0], job.wrapper),
            wrapper: None,
            moves: Seq::empty(),
        }
    } else if job.generic {
        ExposureView {
            paths: entries,
            plain: name_or(entries[0], "items"@),
            wrapper: None,
            moves: Seq::empty(),
        }
    } else {
        ExposureView {
            paths: seq![wrapper],
            plain: job.wrapper,
            wrapper: Some(wrapper),
            moves: moves_into(wrapper, entries),
        }
    }
}

fn name_or_of(p: &Vec<u8>, other: &str) -> (res: String)
    ensures
        res@ == name_or(p@, other@),
{
    match last_name_text_of(&parts_of(p.as_slice())) {
        Some(n) => n,
        None => other.to_string(),
    }
}

fn moves_of(wrapper: &Vec<u8>, entries: &Vec<Vec<u8>>) -> (res: Vec<Move>)
    ensures
        res.deep_view() == moves_into(wrapper@, entries.deep_view()),
{
    let ghost all = entries.deep_view();
    let w = parts_of(wrapper.as_slice());
    let mut out: Vec<Move> = Vec::new();
    let mut i: usize = 0;
    assert(all.take(0) =~= Seq::<Seq<u8>>::empty());
    assert(out.deep_view() =~= Seq::<MoveView>::empty());
    while i < entries.len()
        invariant
            i <= entries@.len(),
            all == entries.deep_view(),
            all.len() == entries@.len(),
            w.deep_view() == parts(wrapper@),
            out.deep_view() == moves_into(wrapper@, all.take(i as int)),
        decreases entries@.len() - i,
    {
        let ghost next = all.take(i + 1);
        assert(next.drop_last() =~= all.take(i as int));
        assert(entries@[i as int].deep_view() =~= entries@[i as int]@);
        assert(next.last() == entries@[i as int]@);
        let c = parts_of(entries[i].as_slice());
        let ghost before = out.deep_view();
        if let Some(n) = last_name_of(&c) {
            if !same_parts(&c, &w) {
                let to = join(wrapper.as_slice(), n.as_slice());
                let m = Move {
                    from: crate::bytes::to_vec(entries[i].as_slice()),
                    name: n,
                    to,
                };
                out.push(m);
                assert(out.deep_view() =~= before.push(m@));
            }
        }
        i += 1;
    }
    assert(all.take(i as int) =~= all);
    out
}

fn copy_paths(ps: &Vec<Vec<u8>>) -> (res: Vec<Vec<u8>>)
    ensures
        res.deep_view() == ps.deep_view(),
{
    let mut out: Vec<Vec<u8>> = Vec::new();
    let mut i: usize = 0;
    while i < ps.len()
        invariant
            i <= ps@.len(),
            out@.len() == i,
            forall|j: int| 0 <= j < i ==> (#[trigger] out@[j])@ == ps@[j]@,
        decreases ps@.len() - i,
    {
        out.push(crate::bytes::to_vec(ps[i].as_slice()));
        i += 1;
    }
    assert forall|j: int| 0 <= j < ps@.len() implies #[trigger] out.deep_view()[j]
        == ps.deep_view()[j] by {
        assert(out@[j].deep_view() =~= out@[j]@);
        assert(ps@[j].deep_view() =~= ps@[j]@);
    }
    assert(out.deep_view() =~= ps.deep_view());
    out
}

fn one_path(p: Vec<u8>) -> (res: Vec<Vec<u8>>)
    ensures
        res.deep_view() == seq![p@],
{
    let mut out: Vec<Vec<u8>> = Vec::new();
    out.push(p);
    assert(p.deep_view() =~= p@);
    assert(out.deep_view() =~= seq![p@]);
    out
}

/// What an unpacked archive offers, given what its directory holds.
pub fn expose(job: &FileJob, entries: &Vec<Vec<u8>>) -> (res: Exposure)
    ensures
        res@ == exposure(job@, entries.deep_view()),
{
    let n = entries.len();
    if n == 0 {
        let moves: Vec<Move> = Vec::new();
        assert(moves.deep_view() =~= Seq::<MoveView>::empty());
        return Exposure {
            paths: one_path(crate::bytes::to_vec(job.out_dir.as_slice())),
            plain: job.wrapper.clone(),
            wrapper: None,
            moves,
        };
    }
    assert(entries@[0].deep_view() =~= entries@[0]@);
    assert(entries.deep_view()[0] == entries@[0]@);
    if n == 1 || job.generic {
        let moves: Vec<Move> = Vec::new();
        assert(moves.deep_view() =~= Seq::<MoveView>::empty());
        let plain = if n == 1 {
            name_or_of(&entries[0], job.wrapper.as_str())
        } else {
            name_or_of(&entries[0], "items")
        };
        return Exposure { paths: copy_paths(entries), plain, wrapper: None, moves };
    }
    let wrapper = join_text(job.out_dir.as_slice(), job.wrapper.as_str());
    let moves = moves_of(&wrapper, entries);
    Exposure {
        paths: one_path(crate::bytes::to_vec(wrapper.as_slice())),
        plain: job.wrapper.clone(),
        wrapper: Some(wrapper),
        moves,
    }
}

/// Another place for something whose place in `wrapper` is taken: its name with the
/// time behind it.
pub fn spare_place(wrapper: &[u8], name: &[u8], now: u128) -> (res: Vec<u8>)
    ensures
        res@ == in_dir(wrapper@, lossy(name@) + "_"@ + decimal(now as nat)),
{
    let mut s = lossy_text(name);
    s.append("_");
    s.append(print(now).as_str());
    assert(s@ =~= lossy(name@) + "_"@ + decimal(now as nat));
    join_text(wrapper, s.as_str())
}

/// The marker for an unpacked archive.
pub open spec fn bundle_marker(sha: Seq<char>, name: Seq<char>, plain: Seq<char>) -> Seq<char> {
    "applied\nkind=tar\nsha="@ + sha + "\nname="@ + name + "\nroot_hint="@ + plain + "\n"@
}

/// The marker for a file.
pub open spec fn file_marker(sha: Seq<char>, name: Seq<char>) -> Seq<char> {
    "applied\nkind=file\nsha="@ + sha + "\nname="@ + name + "\n"@
}

/// What goes on the clipboard for an unpacked archive.
pub open spec fn bundle_items(
    sha: Seq<char>,
    name: Seq<char>,
    plain: Seq<char>,
    uri_list: Seq<char>,
) -> Seq<ItemView> {
    seq![
        text_item(TEXT_MIME@, plain),
        text_item("text/plain"@, plain),
        text_item(URI_LIST_MIME@, uri_list),
        text_item(GNOME_COPIED_FILES_MIME@, "copy\n"@ + uri_list),
        text_item(APPLIED_MARKER_MIME@, bundle_marker(sha, name, plain)),
    ]
}

/// What goes on the clipboard for an unpacked archive.
pub fn bundle_items_of(sha: &str, name: &str, plain: &str, uri_list: &str) -> (res: Vec<Item>)
    ensures
        res.deep_view() == bundle_items(sha@, name@, plain@, uri_list@),
{
    let mut gnome = "copy\n".to_string();
    gnome.append(uri_list);
    let mut marker = "applied\nkind=tar\nsha=".to_string();
    marker.append(sha);
    marker.append("\nname=");
    marker.append(name);
    marker.append("\nroot_hint=");
    marker.append(plain);
    marker.append("\n");
    assert(marker@ =~= bundle_marker(sha@, name@, plain@));
    let mut out: Vec<Item> = Vec::new();
    out.push(Item::text(TEXT_MIME, plain));
    out.push(Item::text("text/plain", plain));
    out.push(Item::text(URI_LIST_MIME, uri_list));
    out.push(Item::text(GNOME_COPIED_FILES_MIME, gnome.as_str()));
    out.push(Item::text(APPLIED_MARKER_MIME, marker.as_str()));
    assert(out.deep_view() =~= bundle_items(sha@, name@, plain@, uri_list@));
    out
}

/// What goes on the clipboard for a file.
pub open spec fn file_items(
    sha: Seq<char>,
    name: Seq<char>,
    path: Seq<char>,
    uri_list: Seq<char>,
) -> Seq<ItemView> {
    seq![
        text_item(TEXT_MIME@, path),
        text_item(URI_LIST_MIME@, uri_list),
        text_item(APPLIED_MARKER_MIME@, file_marker(sha, name)),
    ]
}

/// What goes on the clipboard for a file stored at `path`.
pub fn file_items_of(sha: &str, name: &str, path: &[u8], uri_list: &str) -> (res: Vec<Item>)
    ensures
        res.deep_view() == file_items(sha@, name@, lossy(path@), uri_list@),
{
    let mut marker = "applied\nkind=file\nsha=".to_string();
    marker.append(sha);
    marker.append("\nname=");
    marker.append(name);
    marker.append("\n");
    assert(marker@ =~= file_marker(sha@, name@));
    let plain = lossy_text(path);
    let mut out: Vec<Item> = Vec::new();
    out.push(Item::text(TEXT_MIME, plain.as_str()));
    out.push(Item::text(URI_LIST_MIME, uri_list));
    out.push(Item::text(APPLIED_MARKER_MIME, marker.as_str()));
    assert(out.deep_view() =~= file_items(sha@, name@, lossy(path@), uri_list@));
    out
}

/// What is said of an unpacked archive.
pub fn bundle_line(items: usize, bytes: usize) -> (res: String)
    ensures
        res@ == "received bundle -> "@ + decimal(items as nat) + " item(s) ("@ + decimal(
            bytes as nat,
        ) + " bytes)"@,
{
    let mut s = "received bundle -> ".to_string();
    s.append(print(items as u128).as_str());
    s.append(" item(s) (");
    s.append(print(bytes as u128).as_str());
    s.append(" bytes)");
    s
}

/// What is said of a file stored at `path`.
pub fn file_line(path: &[u8], bytes: usize) -> (res: String)
    ensures
        res@ == "received file -> "@ + lossy(path@) + " ("@ + decimal(bytes as nat) + " bytes)"@,
{
    let mut s = "received file -> ".to_string();
    s.append(lossy_text(path).as_str());
    s.append(" (");
    s.append(print(bytes as u128).as_str());
    s.append(" bytes)");
    s
}

/// The type `mime` is among the items.
pub open spec fn offers(items: Seq<ItemView>, mime: Seq<char>) -> bool {
    exists|i: int| 0 <= i < items.len() && (#[trigger] items[i]).mime == mime
}

/// Whatever is put on the clipboard for a received file carries the marker by which it
/// is known to come from the relay.
pub proof fn law_received_files_are_marked(
    sha: Seq<char>,
    name: Seq<char>,
    text: Seq<char>,
    uri_list: Seq<char>,
)
    ensures
        offers(bundle_items(sha, name, text, uri_list), APPLIED_MARKER_MIME@),
        offers(file_items(sha, name, text, uri_list), APPLIED_MARKER_MIME@),
{
    assert(bundle_items(sha, name, text, uri_list)[4].mime == APPLIED_MARKER_MIME@);
    assert(file_items(sha, name, text, uri_list)[2].mime == APPLIED_MARKER_MIME@);
}

/// Received files go to the clipboard alone, never to the primary selection.
pub proof fn law_received_files_stay_out_of_primary(
    sha: Seq<char>,
    name: Seq<char>,
    text: Seq<char>,
    uri_list: Seq<char>,
)
    ensures
        crate::clip::target(bundle_items(sha, name, text, uri_list)) == crate::clip::Target::Regular,
        crate::clip::target(file_items(sha, name, text, uri_list)) == crate::clip::Target::Regular,
{
    reveal_strlit("text/plain");
    reveal_strlit("text/uri-list");
    let b = bundle_items(sha, name, text, uri_list);
    let f = file_items(sha, name, text, uri_list);
    let m = URI_LIST_MIME@;
    assert(b[2].mime == m);
    assert(f[1].mime == m);
    assert("text/plain"@[5] == 'p');
    assert(m[5] == 'u');
    if "text/plain"@.is_prefix_of(m) {
        assert(m.subrange(0, 10)[5] == 'p');
    }
}

/// The entry at `i` goes into the directory, under its own name.
pub open spec fn goes_into(moves: Seq<MoveView>, wrapper: Seq<u8>, e: Seq<u8>, name: Seq<u8>) -> bool {
    exists|k: int|
        0 <= k < moves.len() && (#[trigger] moves[k]).from == e && moves[k].name == name
            && moves[k].to == joined(wrapper, name)
}

proof fn lemma_moves(wrapper: Seq<u8>, entries: Seq<Seq<u8>>, i: int, name: Seq<u8>)
    requires
        0 <= i < entries.len(),
        last_name(parts(entries[i])) == Some(name),
        parts(entries[i]) != parts(wrapper),
    ensures
        goes_into(moves_into(wrapper, entries), wrapper, entries[i], name),
    decreases entries.len(),
{
    let before = moves_into(wrapper, entries.drop_last());
    let all = moves_into(wrapper, entries);
    if i == entries.len() - 1 {
        assert(all[before.len() as int].from == entries[i]);
    } else {
        lemma_moves(wrapper, entries.drop_last(), i, name);
        let k = choose|k: int|
            0 <= k < before.len() && (#[trigger] before[k]).from == entries[i] && before[k].name
                == name && before[k].to == joined(wrapper, name);
        assert(all[k] == before[k]);
    }
}

proof fn lemma_moves_are_of_entries(wrapper: Seq<u8>, entries: Seq<Seq<u8>>, k: int)
    requires
        0 <= k < moves_into(wrapper, entries).len(),
    ensures
        entries.contains(moves_into(wrapper, entries)[k].from),
    decreases entries.len(),
{
    let before = moves_into(wrapper, entries.drop_last());
    if k < before.len() {
        lemma_moves_are_of_entries(wrapper, entries.drop_last(), k);
        let m = moves_into(wrapper, entries)[k].from;
        assert(moves_into(wrapper, entries)[k] == before[k]);
        let i = choose|i: int| 0 <= i < entries.drop_last().len() && entries.drop_last()[i] == m;
        assert(entries[i] == m);
    } else {
        assert(entries[entries.len() - 1] == moves_into(wrapper, entries)[k].from);
    }
}

/// Everything that an archive held is offered: by itself where it is one thing, or where the
/// archive was a selection; else in one directory, into which all of it goes, under its own
/// name.
pub proof fn law_everything_unpacked_is_offered(
    job: FileJobView,
    entries: Seq<Seq<u8>>,
    i: int,
    name: Seq<u8>,
)
    requires
        0 <= i < entries.len(),
        parts(entries[i]).len() > 0,
        parts(entries[i]).last() == crate::path::PartView::Name(name),
    ensures
        ({
            let x = exposure(job, entries);
            let dir = joined(job.out_dir, vstd::utf8::encode_utf8(job.wrapper));
            if entries.len() == 1 || job.generic {
                x.paths == entries && x.moves.len() == 0 && x.wrapper is None
            } else {
                x.paths == seq![dir] && x.wrapper == Some(dir) && (parts(entries[i]) == parts(dir)
                    || goes_into(x.moves, dir, entries[i], name)) && forall|k: int|
                    0 <= k < x.moves.len() ==> entries.contains((#[trigger] x.moves[k]).from)
            }
        }),
{
    let dir = in_dir(job.out_dir, job.wrapper);
    if entries.len() > 1 && !job.generic {
        if parts(entries[i]) != parts(dir) {
            lemma_moves(dir, entries, i, name);
        }
        assert forall|k: int| 0 <= k < moves_into(dir, entries).len() implies entries.contains(
            (#[trigger] moves_into(dir, entries)[k]).from,
        ) by {
            lemma_moves_are_of_entries(dir, entries, k);
        }
    }
}

/// Beside the paths stands a text: the name of the one thing that is offered, or of the first
/// of a selection.
pub proof fn law_text_beside_the_paths(job: FileJobView, entries: Seq<Seq<u8>>, name: Seq<char>)
    ensures
        entries.len() > 0 && (entries.len() == 1 || job.generic) && parts(entries[0]).len() > 0
            && parts(entries[0]).last() == crate::path::PartView::Name(
            vstd::utf8::encode_utf8(name),
        ) ==> exposure(job, entries).plain == name,
        entries.len() == 0 || entries.len() > 1 && !job.generic ==> exposure(job, entries).plain
            == job.wrapper,
        entries.len() == 0 ==> exposure(job, entries).paths == seq![job.out_dir],
{
    vstd::utf8::encode_utf8_valid_utf8(name);
    vstd::utf8::encode_utf8_decode_utf8(name);
}

/// The type is offered, and under it these bytes and no others.
pub open spec fn offers_exactly(items: Seq<ItemView>, mime: Seq<char>, bytes: Seq<u8>) -> bool {
    &&& exists|i: int| 0 <= i < items.len() && (#[trigger] items[i]).mime == mime
    &&& forall|i: int|
        0 <= i < items.len() && (#[trigger] items[i]).mime == mime ==> items[i].bytes == bytes
}

/// Received files are offered as a list of addresses, in the forms that file managers take,
/// and as text.
pub proof fn law_received_files_are_offered(
    sha: Seq<char>,
    name: Seq<char>,
    text: Seq<char>,
    uri_list: Seq<char>,
)
    ensures
        ({
            let list = vstd::utf8::encode_utf8(uri_list);
            let plain = vstd::utf8::encode_utf8(text);
            let b = bundle_items(sha, name, text, uri_list);
            let f = file_items(sha, name, text, uri_list);
            &&& offers_exactly(b, "text/uri-list"@, list)
            &&& offers_exactly(f, "text/uri-list"@, list)
            &&& offers_exactly(
                b,
                "x-special/gnome-copied-files"@,
                vstd::utf8::encode_utf8("copy\n"@ + uri_list),
            )
            &&& offers_exactly(b, "text/plain;charset=utf-8"@, plain)
            &&& offers_exactly(b, "text/plain"@, plain)
            &&& offers_exactly(f, "text/plain;charset=utf-8"@, plain)
        }),
{
    let b = bundle_items(sha, name, text, uri_list);
    let f = file_items(sha, name, text, uri_list);
    reveal_strlit("text/uri-list");
    reveal_strlit("x-special/gnome-copied-files");
    reveal_strlit("text/plain;charset=utf-8");
    reveal_strlit("text/plain");
    reveal_strlit("application/x-multicliprelay-applied");
    assert("text/uri-list"@.len() == 13);
    assert("x-special/gnome-copied-files"@.len() == 28);
    assert("text/plain;charset=utf-8"@.len() == 24);
    assert("text/plain"@.len() == 10);
    assert("application/x-multicliprelay-applied"@.len() == 36);
    assert(b[0].mime == "text/plain;charset=utf-8"@);
    assert(b[1].mime == "text/plain"@);
    assert(b[2].mime == "text/uri-list"@);
    assert(b[3].mime == "x-special/gnome-copied-files"@);
    assert(b[4].mime == "application/x-multicliprelay-applied"@);
    assert(f[0].mime == "text/plain;charset=utf-8"@);
    assert(f[1].mime == "text/uri-list"@);
    assert(f[2].mime == "application/x-multicliprelay-applied"@);
}

/// The marker of received files says what was applied, and by which digest.
pub proof fn law_what_the_marker_says(sha: Seq<char>, name: Seq<char>, plain: Seq<char>)
    ensures
        ("applied\nkind=tar\nsha="@ + sha + "\nname="@ + name).is_prefix_of(
            bundle_marker(sha, name, plain),
        ),
        ("applied\nkind=file\nsha="@ + sha + "\nname="@ + name).is_prefix_of(
            file_marker(sha, name),
        ),
{
    let a = "applied\nkind=tar\nsha="@ + sha + "\nname="@ + name;
    let b = bundle_marker(sha, name, plain);
    assert(a =~= b.take(a.len() as int));
    let c = "applied\nkind=file\nsha="@ + sha + "\nname="@ + name;
    let d = file_marker(sha, name);
    assert(c =~= d.take(c.len() as int));
}

} // verus!
