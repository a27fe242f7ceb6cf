//! Archives: the order of what a directory holds, and the bytes of an archive.

use crate::bundle::{Entry, EntryKind, EntryView, PathKind};
use crate::order::strict_total;
use crate::path::{
    comes_before, copy_parts, has_prefix, join, joined, lemma_path_order, parts, parts_of, path_less,
    render, rendered, Part, PartView,
};
use vstd::prelude::*;
use vstd::utf8::encode_utf8;

verus! {

/// In the order of the paths `keys`, the one at `a` comes before the one at `b`; of
/// equal paths the one that was given first.
pub open spec fn comes_first(keys: Seq<Seq<PartView>>, a: int, b: int) -> bool {
    path_less(keys[a], keys[b]) || keys[a] == keys[b] && a < b
}

/// `perm` lists the positions of `keys` in order.
pub open spec fn is_sorted_order(keys: Seq<Seq<PartView>>, perm: Seq<usize>) -> bool {
    &&& perm.len() == keys.len()
    &&& forall|i: int| 0 <= i < perm.len() ==> (#[trigger] perm[i]) < keys.len()
    &&& forall|i: int, j: int|
        0 <= i < j < perm.len() ==> comes_first(
            keys,
            (#[trigger] perm[i]) as int,
            (#[trigger] perm[j]) as int,
        )
}

proof fn lemma_first_transitive(keys: Seq<Seq<PartView>>, a: int, b: int, c: int)
    requires
        comes_first(keys, a, b),
        comes_first(keys, b, c),
    ensures
        comes_first(keys, a, c),
{
    lemma_path_order();
    let lt = |a: Seq<PartView>, b: Seq<PartView>| path_less(a, b);
    assert(strict_total(lt));
    if path_less(keys[a], keys[b]) && path_less(keys[b], keys[c]) {
        assert(lt(keys[a], keys[b]) && lt(keys[b], keys[c]));
        assert(lt(keys[a], keys[c]));
    }
}

/// The positions of paths in order; equal paths stay in the order given.
pub fn sorted_order(keys: &Vec<Vec<Part>>) -> (res: Vec<usize>)
    ensures
        is_sorted_order(keys.deep_view(), res@),
{
    let ghost ks = keys.deep_view();
    let mut perm: Vec<usize> = Vec::new();
    let mut k: usize = 0;
    while k < keys.len()
        invariant
            ks == keys.deep_view(),
            ks.len() == keys@.len(),
            k <= keys@.len(),
            perm@.len() == k,
            forall|i: int| 0 <= i < k ==> (#[trigger] perm@[i]) < k,
            forall|i: int, j: int|
                0 <= i < j < k ==> comes_first(
                    ks,
                    (#[trigger] perm@[i]) as int,
                    (#[trigger] perm@[j]) as int,
                ),
        decreases keys@.len() - k,
    {
        let mut pos: usize = k;
        while pos > 0 && comes_before(&keys[k], &keys[perm[pos - 1]])
            invariant
                ks == keys.deep_view(),
                ks.len() == keys@.len(),
                k < keys@.len(),
                pos <= k,
                perm@.len() == k,
                forall|i: int| 0 <= i < k ==> (#[trigger] perm@[i]) < k,
                forall|i: int|
                    pos <= i < k ==> path_less(ks[k as int], ks[(#[trigger] perm@[i]) as int]),
            decreases pos,
        {
            assert(ks[perm@[pos - 1] as int] == keys@[perm@[pos - 1] as int].deep_view());
            pos -= 1;
        }
        let ghost before = perm@;
        proof {
            lemma_path_order();
            let lt = |a: Seq<PartView>, b: Seq<PartView>| path_less(a, b);
            assert(strict_total(lt));
            if pos > 0 {
                let last = before[pos - 1] as int;
                assert(ks[last] == keys@[last].deep_view());
                assert(!lt(ks[k as int], ks[last]));
                assert(lt(ks[last], ks[k as int]) || ks[last] == ks[k as int]);
                assert(comes_first(ks, last, k as int));
                assert forall|i: int| 0 <= i < pos implies comes_first(
                    ks,
                    (#[trigger] before[i]) as int,
                    k as int,
                ) by {
                    if i < pos - 1 {
                        lemma_first_transitive(ks, before[i] as int, last, k as int);
                    }
                }
            }
        }
        perm.insert(pos, k);
        proof {
            let after = perm@;
            assert(after =~= before.insert(pos as int, k));
            assert forall|i: int, j: int| 0 <= i < j < after.len() implies comes_first(
                ks,
                (#[trigger] after[i]) as int,
                (#[trigger] after[j]) as int,
            ) by {
                let x = if i < pos {
                    i
                } else {
                    i - 1
                };
                let y = if j < pos {
                    j
                } else {
                    j - 1
                };
                if i == pos {
                    assert(after[j] == before[y]);
                } else if j == pos {
                    assert(after[i] == before[x]);
                } else {
                    assert(after[i] == before[x]);
                    assert(after[j] == before[y]);
                }
            }
        }
        k += 1;
    }
    perm
}

/// The paths at the positions `perm`.
pub open spec fn picked(items: Seq<Seq<u8>>, perm: Seq<usize>) -> Seq<Seq<u8>> {
    perm.map_values(|i: usize| items[i as int])
}

/// `res` is the first `max` of the items in order.
pub open spec fn first_in_order(items: Seq<Seq<u8>>, max: nat, res: Seq<Seq<u8>>) -> bool {
    exists|perm: Seq<usize>|
        #[trigger] is_sorted_order(crate::bundle::all_parts(items), perm) && res == picked(
            items,
            perm,
        ).take(
            if items.len() < max {
                items.len() as int
            } else {
                max as int
            },
        )
}

/// What a directory holds, in order, at most `max_items` of it.
pub fn list_top_level_items(items: &Vec<Vec<u8>>, max_items: usize) -> (res: Vec<Vec<u8>>)
    ensures
        first_in_order(items.deep_view(), max_items as nat, res.deep_view()),
{
    let ghost all = items.deep_view();
    let mut keys: Vec<Vec<Part>> = Vec::new();
    let mut i: usize = 0;
    while i < items.len()
        invariant
            i <= items@.len(),
            keys@.len() == i,
            all == items.deep_view(),
            forall|j: int| 0 <= j < i ==> (#[trigger] keys@[j]).deep_view() == parts(all[j]),
        decreases items@.len() - i,
    {
        assert(items@[i as int].deep_view() =~= items@[i as int]@);
        keys.push(parts_of(items[i].as_slice()));
        i += 1;
    }
    assert(keys.deep_view() =~= crate::bundle::all_parts(all));
    let perm = sorted_order(&keys);
    let ghost want = picked(all, perm@);
    let mut out: Vec<Vec<u8>> = Vec::new();
    let mut n: usize = 0;
    assert(out.deep_view() =~= want.take(0));
    while n < perm.len() && n < max_items
        invariant
            n <= perm@.len(),
            n <= max_items,
            all == items.deep_view(),
            all.len() == items@.len(),
            is_sorted_order(crate::bundle::all_parts(all), perm@),
            want == picked(all, perm@),
            out.deep_view() == want.take(n as int),
        decreases perm@.len() - n,
    {
        let at = perm[n];
        assert(perm@[n as int] < all.len());
        assert(items@[at as int].deep_view() =~= items@[at as int]@);
        let p = crate::bytes::to_vec(items[at].as_slice());
        let ghost before = out.deep_view();
        assert(p.deep_view() =~= p@);
        out.push(p);
        assert(out.deep_view() =~= before.push(p@));
        assert(want.take(n + 1) =~= before.push(p@));
        n += 1;
    }
    assert(want.len() == all.len());
    out
}

/// What was found in a directory: a path, and what it leads to.
#[verifier::ext_equal]
pub struct FoundView {
    pub path: Seq<u8>,
    pub kind: PathKind,
}

/// What was found in a directory: a path, and what it leads to.
#[derive(Debug)]
pub struct Found {
    pub path: Vec<u8>,
    pub kind: PathKind,
}

impl View for Found {
    type V = FoundView;

    open spec fn view(&self) -> FoundView {
        FoundView { path: self.path@, kind: self.kind }
    }
}

impl DeepView for Found {
    type V = FoundView;

    open spec fn deep_view(&self) -> FoundView {
        self@
    }
}

/// The path lies inside the directory, and is not the directory itself.
pub open spec fn is_inside(dir: Seq<PartView>, p: Seq<PartView>) -> bool {
    dir.is_prefix_of(p) && p != dir
}

/// What lies inside the directory.
pub open spec fn inside(dir: Seq<PartView>, found: Seq<FoundView>) -> Seq<FoundView>
    decreases found.len(),
{
    if found.len() == 0 {
        Seq::empty()
    } else if is_inside(dir, parts(found.last().path)) {
        inside(dir, found.drop_last()).push(found.last())
    } else {
        inside(dir, found.drop_last())
    }
}

/// Each path, seen from the directory.
pub open spec fn seen_from(dir: Seq<PartView>, found: Seq<FoundView>) -> Seq<Seq<PartView>> {
    found.map_values(|f: FoundView| parts(f.path).skip(dir.len() as int))
}

/// The entry for something found in a directory: none for what is neither file nor
/// directory.
pub open spec fn found_entries(
    dir: Seq<PartView>,
    archive_dir: Seq<u8>,
    f: FoundView,
) -> Seq<EntryView> {
    let archive = joined(archive_dir, rendered(parts(f.path).skip(dir.len() as int)));
    match f.kind {
        PathKind::Dir => seq![EntryView { kind: EntryKind::Dir, fs: f.path, archive }],
        PathKind::File => seq![EntryView { kind: EntryKind::File, fs: f.path, archive }],
        PathKind::Other => Seq::empty(),
    }
}

/// The entries for what was found, in the order `perm`.
pub open spec fn ordered_entries(
    dir: Seq<PartView>,
    archive_dir: Seq<u8>,
    found: Seq<FoundView>,
    perm: Seq<usize>,
) -> Seq<EntryView>
    decreases perm.len(),
{
    if perm.len() == 0 {
        Seq::empty()
    } else {
        ordered_entries(dir, archive_dir, found, perm.drop_last()) + found_entries(
            dir,
            archive_dir,
            found[perm.last() as int],
        )
    }
}

/// The entries of a directory with what it holds: the directory itself, then the rest
/// in order.
pub open spec fn is_tree_plan(
    fs_dir: Seq<u8>,
    archive_dir: Seq<u8>,
    found: Seq<FoundView>,
    perm: Seq<usize>,
    plan: Seq<EntryView>,
) -> bool {
    let dir = parts(fs_dir);
    let kept = inside(dir, found);
    &&& is_sorted_order(seen_from(dir, kept), perm)
    &&& plan == seq![EntryView { kind: EntryKind::Dir, fs: fs_dir, archive: archive_dir }]
        + ordered_entries(dir, archive_dir, kept, perm)
}

/// What goes into the archive for a directory, given what was found in it.
pub fn plan_tree(fs_dir: &[u8], archive_dir: &[u8], found: &Vec<Found>) -> (res: Vec<Entry>)
    ensures
        exists|perm: Seq<usize>|
            #[trigger] is_tree_plan(
                fs_dir@,
                archive_dir@,
                found.deep_view(),
                perm,
                res.deep_view(),
            ),
{
    let dir = parts_of(fs_dir);
    let ghost dv = parts(fs_dir@);
    let ghost all = found.deep_view();
    let n = dir.len();
    let mut kept: Vec<usize> = Vec::new();
    let mut keys: Vec<Vec<Part>> = Vec::new();
    let ghost mut kept_view: Seq<FoundView> = Seq::empty();
    let mut i: usize = 0;
    assert(all.take(0) =~= Seq::<FoundView>::empty());
    assert(keys.deep_view() =~= seen_from(dv, kept_view));
    while i < found.len()
        invariant
            i <= found@.len(),
            n == dir@.len(),
            dv == dir.deep_view(),
            dv.len() == n,
            all == found.deep_view(),
            all.len() == found@.len(),
            kept_view == inside(dv, all.take(i as int)),
            kept@.len() == kept_view.len(),
            forall|j: int|
                0 <= j < kept_view.len() ==> (#[trigger] kept@[j]) < found@.len()
                    && all[kept@[j] as int] == kept_view[j],
            keys.deep_view() == seen_from(dv, kept_view),
        decreases found@.len() - i,
    {
        let ghost next = all.take(i + 1);
        assert(next.drop_last() =~= all.take(i as int));
        assert(next.last() == found@[i as int]@);
        let c = parts_of(found[i].path.as_slice());
        if has_prefix(&c, &dir) && c.len() != n {
            let rel = copy_parts(&c, n, c.len());
            assert(rel.deep_view() =~= c.deep_view().skip(n as int));
            let ghost before = keys.deep_view();
            keys.push(rel);
            kept.push(i);
            assert(keys.deep_view() =~= before.push(rel.deep_view()));
            proof {
                kept_view = kept_view.push(next.last());
                assert(seen_from(dv, kept_view) =~= before.push(rel.deep_view()));
            }
        } else {
            assert(dv.is_prefix_of(c.deep_view()) ==> c.deep_view() =~= dv);
        }
        i += 1;
    }
    assert(all.take(i as int) =~= all);
    let perm = sorted_order(&keys);
    let mut out: Vec<Entry> = Vec::new();
    out.push(
        Entry {
            kind: EntryKind::Dir,
            fs: crate::bytes::to_vec(fs_dir),
            archive: crate::bytes::to_vec(archive_dir),
        },
    );
    let ghost head = out.deep_view();
    assert(head =~= seq![
        EntryView { kind: EntryKind::Dir, fs: fs_dir@, archive: archive_dir@ },
    ]);
    let mut k: usize = 0;
    assert(perm@.take(0) =~= Seq::<usize>::empty());
    assert(head + ordered_entries(dv, archive_dir@, kept_view, perm@.take(0)) =~= head);
    while k < perm.len()
        invariant
            k <= perm@.len(),
            n == dir@.len(),
            dv == dir.deep_view(),
            dv.len() == n,
            all == found.deep_view(),
            all.len() == found@.len(),
            kept@.len() == kept_view.len(),
            keys@.len() == kept_view.len(),
            forall|j: int|
                0 <= j < kept_view.len() ==> (#[trigger] kept@[j]) < found@.len()
                    && all[kept@[j] as int] == kept_view[j],
            keys.deep_view() == seen_from(dv, kept_view),
            is_sorted_order(seen_from(dv, kept_view), perm@),
            out.deep_view() == head + ordered_entries(
                dv,
                archive_dir@,
                kept_view,
                perm@.take(k as int),
            ),
        decreases perm@.len() - k,
    {
        let at = perm[k];
        assert(perm@[k as int] < kept_view.len());
        let f = &found[kept[at]];
        let ghost fv = kept_view[at as int];
        assert(f@ == all[kept@[at as int] as int]);
        assert(keys@[at as int].deep_view() == keys.deep_view()[at as int]);
        assert(seen_from(dv, kept_view)[at as int] == parts(fv.path).skip(n as int));
        let rel = render(&keys[at]);
        let archive = join(archive_dir, rel.as_slice());
        let fs = crate::bytes::to_vec(f.path.as_slice());
        let ghost before = out.deep_view();
        match f.kind {
            PathKind::Dir => {
                out.push(Entry { kind: EntryKind::Dir, fs, archive });
            },
            PathKind::File => {
                out.push(Entry { kind: EntryKind::File, fs, archive });
            },
            PathKind::Other => {},
        }
        assert(out.deep_view() =~= before + found_entries(dv, archive_dir@, fv));
        assert(perm@.take(k + 1).drop_last() =~= perm@.take(k as int));
        assert(out.deep_view() =~= head + ordered_entries(
            dv,
            archive_dir@,
            kept_view,
            perm@.take(k + 1),
        ));
        k += 1;
    }
    assert(perm@.take(k as int) =~= perm@);
    assert(is_tree_plan(fs_dir@, archive_dir@, all, perm@, out.deep_view()));
    out
}

/// The permission bits of an entry: those of the file, or a default where they are
/// not known.
pub open spec fn entry_mode(raw: Option<u32>, kind: EntryKind) -> u32 {
    match raw {
        Some(m) => (m % 0o10000) as u32,
        None => if kind == EntryKind::File {
            0o644
        } else {
            0o755
        },
    }
}

/// The permission bits of an entry.
pub fn entry_mode_of(raw: Option<u32>, kind: EntryKind) -> (res: u32)
    ensures
        res == entry_mode(raw, kind),
{
    match raw {
        Some(m) => {
            assert(m & 0o7777 == m % 0o10000) by (bit_vector);
            m & 0o7777
        },
        None => if kind == EntryKind::File {
            0o644
        } else {
            0o755
        },
    }
}

/// The byte that tells what an entry is.
pub open spec fn type_flag(kind: EntryKind) -> u8 {
    if kind == EntryKind::File {
        48u8
    } else {
        53u8
    }
}

/// The numbers of the user and the group that own an entry.
pub const OWNER: u64 = 0;

/// A header of the ustar format; nothing where the name cannot stand in one.
pub uninterp spec fn ustar_header(flag: u8, path: Seq<char>, size: nat, mode: u32, uid: u64, gid: u64, mtime: u64) -> Option<Seq<u8>>;

/// The zero bytes after `n` bytes of data, up to a multiple of 512.
pub open spec fn padding(n: nat) -> Seq<u8> {
    crate::win_image::zeros(((512 - n % 512) % 512) as nat)
}

/// The bytes before the first that is zero.
pub open spec fn until_zero(b: Seq<u8>) -> Seq<u8>
    decreases b.len(),
{
    if b.len() == 0 || b[0] == 0 {
        Seq::empty()
    } else {
        seq![b[0]] + until_zero(b.skip(1))
    }
}

/// The number that octal digits stand for.
pub open spec fn octal(digits: Seq<u8>) -> nat
    decreases digits.len(),
{
    if digits.len() == 0 {
        0
    } else {
        8 * octal(digits.drop_last()) + (digits.last() - 48) as nat
    }
}

/// The number in a field of a header: octal digits, ended by a zero byte.
pub open spec fn field(h: Seq<u8>, from: int, to: int) -> nat {
    octal(until_zero(h.subrange(from, to)))
}

/// The name in a header: a prefix, if there is one, and what follows it.
pub open spec fn stored_name(h: Seq<u8>) -> Seq<u8> {
    let name = until_zero(h.subrange(0, 100));
    let prefix = until_zero(h.subrange(345, 500));
    if prefix.len() == 0 {
        name
    } else {
        prefix.push(47u8) + name
    }
}

/// What a header says of its entry.
#[verifier::ext_equal]
pub struct HeaderView {
    pub flag: u8,
    pub name: Seq<u8>,
    pub size: nat,
    pub mode: nat,
    pub uid: nat,
    pub gid: nat,
    pub mtime: nat,
}

/// What a header says of its entry, read at the places that the ustar format gives.
pub open spec fn read_header(h: Seq<u8>) -> HeaderView {
    HeaderView {
        flag: h[156],
        name: stored_name(h),
        size: field(h, 124, 136),
        mode: field(h, 100, 108),
        uid: field(h, 108, 116),
        gid: field(h, 116, 124),
        mtime: field(h, 136, 148),
    }
}

/// A name inside an archive as it is written there: names with slashes between them.
pub open spec fn is_plain_name(p: Seq<u8>) -> bool {
    &&& p.len() > 0
    &&& !p.contains(0u8)
    &&& rendered(parts(p)) == p
    &&& forall|i: int| 0 <= i < parts(p).len() ==> (#[trigger] parts(p)[i]) is Name
}

/// The most that eleven octal digits hold, and one more.
pub const OCTAL_LIMIT: u64 = 8589934592;

/// The most that seven octal digits hold, and one more.
pub const SHORT_OCTAL_LIMIT: u64 = 2097152;

/// A name for which a header has room: a hundred bytes, or a beginning of up to 155 bytes and
/// after a slash up to a hundred more.
pub open spec fn fits_in_header(name: Seq<u8>) -> bool {
    name.len() <= 100 || exists|k: int|
        0 < k <= 155 && k < name.len() && #[trigger] name[k] == 47u8 && name.len() - k - 1 <= 100
}

/// `tar::Header` with its setters, and `tar::Builder::append`: the header, the data,
/// and zero bytes up to a full block. It fails where the name does not fit or is no
/// name inside an archive; for a plain name it fails exactly where the header has no room for
/// it. A header is one block. For a file or a directory whose name is
/// plain and whose numbers fit in octal digits, the header holds what was set, at the
/// places of the ustar format. As on a Unix system, where a backslash is part of a name.
#[verifier::external_body]
fn append_entry(
    flag: u8,
    path: &str,
    mode: u32,
    uid: u64,
    gid: u64,
    mtime: u64,
    data: &[u8],
) -> (res: Option<Vec<u8>>)
    ensures
        res is Some ==> res->0@.len() >= 512 && res->0@.len() == 512 + data@.len() + padding(
            data@.len(),
        ).len(),
        res is Some && (flag == 48 || flag == 53) && is_plain_name(encode_utf8(path@)) && mode
            < 0o10000 && uid < SHORT_OCTAL_LIMIT && gid < SHORT_OCTAL_LIMIT && mtime < OCTAL_LIMIT
            && data@.len() < OCTAL_LIMIT ==> read_header(res->0@.take(512)) == (HeaderView {
            flag,
            name: encode_utf8(path@),
            size: data@.len(),
            mode: mode as nat,
            uid: uid as nat,
            gid: gid as nat,
            mtime: mtime as nat,
        }),
        is_plain_name(encode_utf8(path@)) ==> (res is Some <==> fits_in_header(encode_utf8(path@))),
        match res {
            Some(b) => ustar_header(flag, path@, data@.len(), mode, uid, gid, mtime) is Some && b@
                == ustar_header(flag, path@, data@.len(), mode, uid, gid, mtime)->0 + data@
                + padding(data@.len()),
            None => ustar_header(flag, path@, data@.len(), mode, uid, gid, mtime) is None,
        },
{
    let mut h = tar::Header::new_ustar();
    h.set_entry_type(tar::EntryType::new(flag));
    h.set_size(data.len() as u64);
    h.set_mode(mode);
    h.set_mtime(mtime);
    h.set_uid(uid);
    h.set_gid(gid);
    h.set_path(path).ok()?;
    h.set_cksum();
    let mut b = tar::Builder::new(Vec::new());
    b.append(&h, data).ok()?;
    Some(b.get_ref().clone())
}

/// The bytes of an entry.
pub open spec fn entry_bytes(
    kind: EntryKind,
    path: Seq<char>,
    mode: Option<u32>,
    mtime: u64,
    data: Seq<u8>,
) -> Option<Seq<u8>> {
    match ustar_header(
        type_flag(kind),
        path,
        data.len(),
        entry_mode(mode, kind),
        OWNER,
        OWNER,
        mtime,
    ) {
        Some(h) => Some(h + data + padding(data.len())),
        None => None,
    }
}

/// The bytes of an entry; nothing where its name cannot stand in an archive. A plain name can
/// exactly where a header has room for it. `mode` is the file's mode where it is known.
pub fn encode_entry(
    kind: EntryKind,
    path: &str,
    mode: Option<u32>,
    mtime: u64,
    data: &[u8],
) -> (res: Option<Vec<u8>>)
    ensures
        crate::wire::opt_payload(res) == entry_bytes(kind, path@, mode, mtime, data@),
        is_plain_name(encode_utf8(path@)) ==> (res is Some <==> fits_in_header(encode_utf8(path@))),
        res is Some && is_plain_name(encode_utf8(path@)) && mtime < OCTAL_LIMIT && data@.len()
            < OCTAL_LIMIT ==> is_entry_of(
            res->0@,
            ArchivedView {
                flag: type_flag(kind),
                name: encode_utf8(path@),
                mode: entry_mode(mode, kind) as nat,
                mtime: mtime as nat,
                data: data@,
            },
        ),
{
    let flag: u8 = if kind == EntryKind::File {
        48u8
    } else {
        53u8
    };
    let res = append_entry(flag, path, entry_mode_of(mode, kind), OWNER, OWNER, mtime, data);
    proof {
        if res is Some {
            let b = res->0@;
            assert(b.subrange(512, 512 + data@.len() as int) =~= data@);
        }
    }
    res
}

/// An entry of an archive: what it is, its name, its mode, its time and its data.
#[verifier::ext_equal]
pub struct ArchivedView {
    pub flag: u8,
    pub name: Seq<u8>,
    pub mode: nat,
    pub mtime: nat,
    pub data: Seq<u8>,
}

/// `b` are the bytes of the entry `e`: a header that tells of it, its data, and what fills
/// the last block.
pub open spec fn is_entry_of(b: Seq<u8>, e: ArchivedView) -> bool {
    &&& b.len() == 512 + e.data.len() + padding(e.data.len()).len()
    &&& read_header(b.take(512)) == (HeaderView {
        flag: e.flag,
        name: e.name,
        size: e.data.len(),
        mode: e.mode,
        uid: OWNER as nat,
        gid: OWNER as nat,
        mtime: e.mtime,
    })
    &&& b.subrange(512, 512 + e.data.len() as int) == e.data
    &&& e.name.len() > 0
}

/// Where the entry ends that begins an archive.
pub open spec fn entry_end(b: Seq<u8>) -> int {
    let size = read_header(b.take(512)).size;
    (512 + size + padding(size).len()) as int
}

/// The entries of an archive, up to a block without a name or a part of an entry.
pub open spec fn read_archive(b: Seq<u8>) -> Seq<ArchivedView>
    decreases b.len(),
{
    if b.len() < 512 || read_header(b.take(512)).name.len() == 0 || entry_end(b) > b.len() {
        Seq::empty()
    } else {
        let h = read_header(b.take(512));
        seq![
            ArchivedView {
                flag: h.flag,
                name: h.name,
                mode: h.mode,
                mtime: h.mtime,
                data: b.subrange(512, (512 + h.size) as int),
            },
        ] + read_archive(b.skip(entry_end(b)))
    }
}

/// An archive holds the entries that were put into it, in order, and nothing else: their
/// names, modes, times and data.
pub proof fn law_archive_is_read_back(entries: Seq<Seq<u8>>, es: Seq<ArchivedView>)
    requires
        entries.len() == es.len(),
        forall|i: int| 0 <= i < es.len() ==> is_entry_of(#[trigger] entries[i], es[i]),
    ensures
        read_archive(concatenated(entries) + crate::win_image::zeros(1024)) == es,
{
    lemma_read_entries(entries, es, crate::win_image::zeros(1024));
    let z = crate::win_image::zeros(1024);
    let h = z.take(512);
    assert(h.subrange(0, 100)[0] == 0);
    assert(h.subrange(345, 500)[0] == 0);
    assert(read_archive(z) =~= Seq::<ArchivedView>::empty());
    assert(es + Seq::<ArchivedView>::empty() =~= es);
}

/// What is read of entries that follow each other, and what is read of the rest.
proof fn lemma_read_entries(entries: Seq<Seq<u8>>, es: Seq<ArchivedView>, rest: Seq<u8>)
    requires
        entries.len() == es.len(),
        forall|i: int| 0 <= i < es.len() ==> is_entry_of(#[trigger] entries[i], es[i]),
    ensures
        read_archive(concatenated(entries) + rest) == es + read_archive(rest),
    decreases entries.len(),
{
    if entries.len() == 0 {
        assert(concatenated(entries) + rest =~= rest);
        assert(es + read_archive(rest) =~= read_archive(rest));
    } else {
        let b = entries.last();
        let e = es.last();
        let tail = b + rest;
        assert forall|i: int| 0 <= i < es.len() - 1 implies is_entry_of(
            #[trigger] entries.drop_last()[i],
            es.drop_last()[i],
        ) by {
            assert(is_entry_of(entries[i], es[i]));
        }
        lemma_read_entries(entries.drop_last(), es.drop_last(), tail);
        assert(concatenated(entries) + rest =~= concatenated(entries.drop_last()) + tail);
        assert(is_entry_of(entries[entries.len() - 1], es[entries.len() - 1]));
        assert(tail.take(512) =~= b.take(512));
        assert(tail.subrange(512, 512 + e.data.len() as int) =~= b.subrange(
            512,
            512 + e.data.len() as int,
        ));
        assert(entry_end(tail) == b.len());
        assert(tail.skip(b.len() as int) =~= rest);
        assert(read_archive(tail) == seq![e] + read_archive(rest));
        assert(es.drop_last() + (seq![e] + read_archive(rest)) =~= es + read_archive(rest));
    }
}

/// The entries one after the other.
pub open spec fn concatenated(entries: Seq<Seq<u8>>) -> Seq<u8>
    decreases entries.len(),
{
    if entries.len() == 0 {
        Seq::empty()
    } else {
        concatenated(entries.drop_last()) + entries.last()
    }
}

/// An archive of entries: they follow each other, and 1024 zero bytes end it.
pub fn archive_of(entries: &Vec<Vec<u8>>) -> (res: Vec<u8>)
    ensures
        res@ == concatenated(entries.deep_view()) + crate::win_image::zeros(1024),
{
    let ghost all = entries.deep_view();
    let mut out: Vec<u8> = Vec::new();
    let mut i: usize = 0;
    assert(all.take(0) =~= Seq::<Seq<u8>>::empty());
    while i < entries.len()
        invariant
            i <= entries@.len(),
            all == entries.deep_view(),
            all.len() == entries@.len(),
            out@ == concatenated(all.take(i as int)),
        decreases entries@.len() - i,
    {
        let ghost next = all.take(i + 1);
        assert(next.drop_last() =~= all.take(i as int));
        assert(entries@[i as int].deep_view() =~= entries@[i as int]@);
        out.extend_from_slice(entries[i].as_slice());
        assert(out@ =~= concatenated(next));
        i += 1;
    }
    assert(all.take(i as int) =~= all);
    let mut end = archive_end();
    out.append(&mut end);
    out
}

/// `tar::Builder::into_inner` on an archive without entries: the two blocks of zero
/// bytes that end every archive.
#[verifier::external_body]
fn archive_end() -> (res: Vec<u8>)
    ensures
        res@ == crate::win_image::zeros(1024),
{
    tar::Builder::new(Vec::new()).into_inner().unwrap_or_default()
}

/// Names that a file system can have: each can stand between two slashes, and holds no zero
/// byte.
pub open spec fn are_names(cs: Seq<PartView>) -> bool {
    forall|i: int|
        0 <= i < cs.len() ==> (#[trigger] cs[i]) is Name && crate::path::is_name(cs[i]->0)
            && !cs[i]->0.contains(0u8)
}

/// A path of names is plain, so that an archive holds it as it is.
pub proof fn law_names_are_plain(cs: Seq<PartView>)
    requires
        cs.len() > 0,
        are_names(cs),
    ensures
        is_plain_name(rendered(cs)),
{
    assert(crate::path::are_parts(cs)) by {
        assert forall|i: int| 0 <= i < cs.len() implies match #[trigger] cs[i] {
            PartView::Root => i == 0,
            PartView::Cur => i == 0,
            PartView::Up => true,
            PartView::Name(n) => crate::path::is_name(n),
        } by {
            assert(cs[i] is Name);
        }
    }
    crate::path::law_rendered_parts_are_read_back(cs);
    lemma_no_zero(cs);
}

proof fn lemma_no_zero(cs: Seq<PartView>)
    requires
        are_names(cs),
    ensures
        !rendered(cs).contains(0u8),
    decreases cs.len(),
{
    let r = rendered(cs);
    if cs.len() > 0 {
        let init = cs.drop_last();
        assert forall|i: int| 0 <= i < init.len() implies (#[trigger] init[i]) is Name
            && crate::path::is_name(init[i]->0) && !init[i]->0.contains(0u8) by {
            assert(init[i] == cs[i]);
        }
        lemma_no_zero(init);
        let n = cs[cs.len() - 1]->0;
        assert(cs[cs.len() - 1] is Name);
        if r.contains(0u8) {
            let i = choose|i: int| 0 <= i < r.len() && r[i] == 0u8;
            let a = rendered(init);
            if i < a.len() {
                assert(a[i] == 0u8);
                assert(a.contains(0u8));
            } else if r.len() == a.len() + n.len() {
                assert(n[i - a.len()] == 0u8);
                assert(n.contains(0u8));
            } else if i > a.len() {
                assert(n[i - a.len() - 1] == 0u8);
                assert(n.contains(0u8));
            }
        }
    }
}

/// The files among what was found.
pub open spec fn files_among(found: Seq<FoundView>) -> Seq<Seq<u8>>
    decreases found.len(),
{
    if found.len() == 0 {
        Seq::empty()
    } else if found.last().kind == PathKind::File {
        files_among(found.drop_last()).push(found.last().path)
    } else {
        files_among(found.drop_last())
    }
}

/// The files below a directory, in order, at most `max_items` of them, given what was found
/// there.
pub fn list_files_recursively(found: &Vec<Found>, max_items: usize) -> (res: Vec<Vec<u8>>)
    ensures
        first_in_order(files_among(found.deep_view()), max_items as nat, res.deep_view()),
{
    let ghost all = found.deep_view();
    let mut files: Vec<Vec<u8>> = Vec::new();
    let mut i: usize = 0;
    assert(files.deep_view() =~= files_among(all.take(0)));
    while i < found.len()
        invariant
            i <= found@.len(),
            all == found.deep_view(),
            all.len() == found@.len(),
            files.deep_view() == files_among(all.take(i as int)),
        decreases found@.len() - i,
    {
        assert(all.take(i + 1).drop_last() =~= all.take(i as int));
        assert(all[i as int] == found@[i as int].deep_view());
        if found[i].kind == PathKind::File {
            let ghost before = files.deep_view();
            let v = crate::bytes::to_vec(found[i].path.as_slice());
            assert(v.deep_view() =~= v@);
            files.push(v);
            assert(files.deep_view() =~= before.push(all[i as int].path));
        }
        i += 1;
    }
    assert(all.take(i as int) =~= all);
    list_top_level_items(&files, max_items)
}

/// An order of positions leaves none out.
proof fn lemma_every_position(keys: Seq<Seq<PartView>>, perm: Seq<usize>, i: int)
    requires
        is_sorted_order(keys, perm),
        0 <= i < keys.len(),
    ensures
        exists|k: int| 0 <= k < perm.len() && #[trigger] perm[k] as int == i,
{
    let ps = perm.map_values(|x: usize| x as int);
    lemma_path_order();
    let lt = |a: Seq<PartView>, b: Seq<PartView>| path_less(a, b);
    assert(strict_total(lt));
    assert forall|a: int, b: int| 0 <= a < ps.len() && 0 <= b < ps.len() && a != b implies ps[a]
        != ps[b] by {
        let (x, y) = if a < b {
            (a, b)
        } else {
            (b, a)
        };
        assert(comes_first(keys, perm[x] as int, perm[y] as int));
        assert(!lt(keys[perm[x] as int], keys[perm[x] as int]));
    }
    assert(ps.no_duplicates());
    ps.unique_seq_to_set();
    let n = keys.len() as int;
    vstd::set_lib::lemma_int_range(0, n);
    let all = vstd::set_lib::set_int_range(0, n);
    vstd::seq_lib::seq_to_set_is_finite(ps);
    assert(ps.to_set().subset_of(all)) by {
        assert forall|x: int| ps.to_set().contains(x) implies all.contains(x) by {
            let k = choose|k: int| 0 <= k < ps.len() && ps[k] == x;
            assert(perm[k] < keys.len());
        }
    }
    vstd::set_lib::lemma_subset_equality(ps.to_set(), all);
    assert(all.contains(i));
    assert(ps.to_set().contains(i));
    let k = choose|k: int| 0 <= k < ps.len() && ps[k] == i;
    assert(perm[k] as int == i);
}

/// Of what a directory holds nothing is left out and nothing added, up to the number that is
/// asked for.
pub proof fn law_what_a_directory_holds(items: Seq<Seq<u8>>, max: nat, res: Seq<Seq<u8>>, i: int, k: int)
    requires
        first_in_order(items, max, res),
        0 <= i < items.len(),
        0 <= k < res.len(),
    ensures
        items.len() <= max ==> res.len() == items.len() && res.contains(items[i]),
        items.len() > max ==> res.len() == max,
        items.contains(res[k]),
        k + 1 < res.len() ==> parts(res[k]) == parts(res[k + 1]) || path_less(
            parts(res[k]),
            parts(res[k + 1]),
        ),
{
    let keys = crate::bundle::all_parts(items);
    let perm = choose|perm: Seq<usize>|
        #[trigger] is_sorted_order(keys, perm) && res == picked(items, perm).take(
            if items.len() < max {
                items.len() as int
            } else {
                max as int
            },
        );
    assert(res[k] == items[perm[k] as int]);
    if items.len() <= max {
        lemma_every_position(keys, perm, i);
        let j = choose|j: int| 0 <= j < perm.len() && #[trigger] perm[j] as int == i;
        assert(res[j] == items[i]);
    }
    if k + 1 < res.len() {
        assert(res[k + 1] == items[perm[k + 1] as int]);
        assert(comes_first(keys, perm[k] as int, perm[k + 1] as int));
        assert(keys[perm[k] as int] == parts(res[k]));
        assert(keys[perm[k + 1] as int] == parts(res[k + 1]));
    }
}

proof fn lemma_inside(dir: Seq<PartView>, found: Seq<FoundView>, i: int) -> (k: int)
    requires
        0 <= i < found.len(),
        is_inside(dir, parts(found[i].path)),
    ensures
        0 <= k < inside(dir, found).len(),
        inside(dir, found)[k] == found[i],
    decreases found.len(),
{
    let before = inside(dir, found.drop_last());
    if i == found.len() - 1 {
        before.len() as int
    } else {
        lemma_inside(dir, found.drop_last(), i)
    }
}

proof fn lemma_ordered(
    dir: Seq<PartView>,
    archive_dir: Seq<u8>,
    found: Seq<FoundView>,
    perm: Seq<usize>,
    k: int,
)
    requires
        0 <= k < perm.len(),
        found[perm[k] as int].kind != PathKind::Other,
    ensures
        exists|j: int|
            0 <= j < ordered_entries(dir, archive_dir, found, perm).len() && found_entries(
                dir,
                archive_dir,
                found[perm[k] as int],
            ) == seq![#[trigger] ordered_entries(dir, archive_dir, found, perm)[j]],
    decreases perm.len(),
{
    let before = ordered_entries(dir, archive_dir, found, perm.drop_last());
    let all = ordered_entries(dir, archive_dir, found, perm);
    if k == perm.len() - 1 {
        let own = found_entries(dir, archive_dir, found[perm[k] as int]);
        assert(all == before + own);
        assert(all[before.len() as int] == own[0]);
        assert(own =~= seq![all[before.len() as int]]);
    } else {
        lemma_ordered(dir, archive_dir, found, perm.drop_last(), k);
        assert(perm.drop_last()[k] == perm[k]);
        let j = choose|j: int|
            0 <= j < before.len() && found_entries(dir, archive_dir, found[perm[k] as int]) == seq![
                #[trigger] before[j],
            ];
        assert(all[j] == before[j]);
    }
}

/// Every file and every directory that was found inside a directory goes into the archive, at
/// its place under the directory's name there.
pub proof fn law_everything_found_is_packed(
    fs_dir: Seq<u8>,
    archive_dir: Seq<u8>,
    found: Seq<FoundView>,
    perm: Seq<usize>,
    plan: Seq<EntryView>,
    i: int,
    way: Seq<PartView>,
)
    requires
        is_tree_plan(fs_dir, archive_dir, found, perm, plan),
        0 <= i < found.len(),
        found[i].kind != PathKind::Other,
        way.len() > 0,
        parts(found[i].path) == parts(fs_dir) + way,
    ensures
        plan.len() > 0 && plan[0] == (EntryView {
            kind: EntryKind::Dir,
            fs: fs_dir,
            archive: archive_dir,
        }),
        exists|j: int|
            0 < j < plan.len() && (#[trigger] plan[j]).fs == found[i].path && plan[j].kind == (
            if found[i].kind == PathKind::File {
                EntryKind::File
            } else {
                EntryKind::Dir
            }) && plan[j].archive == joined(archive_dir, rendered(way)),
{
    let dir = parts(fs_dir);
    let kept = inside(dir, found);
    let p = parts(found[i].path);
    assert(dir =~= p.take(dir.len() as int));
    assert(p.len() != dir.len());
    assert(p.skip(dir.len() as int) =~= way);
    let m = lemma_inside(dir, found, i);
    lemma_every_position(seen_from(dir, kept), perm, m);
    let k = choose|k: int| 0 <= k < perm.len() && #[trigger] perm[k] as int == m;
    lemma_ordered(dir, archive_dir, kept, perm, k);
    let es = ordered_entries(dir, archive_dir, kept, perm);
    let own = found_entries(dir, archive_dir, found[i]);
    let j = choose|j: int| 0 <= j < es.len() && own == seq![#[trigger] es[j]];
    assert(seq![es[j]][0] == own[0]);
    assert(plan[j + 1] == es[j]);
}

/// The permission bits of a file are kept, whatever stands above them; the data of an entry is
/// filled up with zeros to full blocks of 512 bytes, with less than one block.
pub proof fn law_modes_and_blocks(bits: u32, above: u32, kind: EntryKind, n: nat, i: int)
    requires
        bits < 4096,
        above < 1048576,
    ensures
        entry_mode(Some((above * 4096 + bits) as u32), kind) == bits,
        entry_mode(None, EntryKind::File) == 420,
        entry_mode(None, EntryKind::Dir) == 493,
        (n + padding(n).len()) % 512 == 0,
        padding(n).len() < 512,
        0 <= i < padding(n).len() ==> padding(n)[i] == 0,
        type_flag(EntryKind::File) == 48u8,
        type_flag(EntryKind::Dir) == 53u8,
{
    assert(above * 4096 + bits < 4294967296);
    assert((above * 4096 + bits) % 4096 == bits);
}

/// An entry is its header, its data as it is, and zeros up to a full block.
pub proof fn law_entry_holds_its_data(
    kind: EntryKind,
    path: Seq<char>,
    mode: Option<u32>,
    mtime: u64,
    data: Seq<u8>,
    h: Seq<u8>,
)
    requires
        ustar_header(
            type_flag(kind),
            path,
            data.len(),
            entry_mode(mode, kind),
            0,
            0,
            mtime,
        ) == Some(h),
    ensures
        entry_bytes(kind, path, mode, mtime, data) matches Some(b) && h.is_prefix_of(b) && b.subrange(
            h.len() as int,
            h.len() + data.len() as int,
        ) == data && (b.len() - h.len()) % 512 == 0 && b.len() - h.len() - data.len() < 512
            && forall|i: int| h.len() + data.len() <= i < b.len() ==> #[trigger] b[i] == 0,
{
    let b = h + data + padding(data.len());
    assert(h =~= b.take(h.len() as int));
    assert(b.subrange(h.len() as int, h.len() + data.len() as int) =~= data);
}

/// The files among what was found are all of them, in order.
pub proof fn law_files_among_what_was_found(a: Seq<FoundView>, b: Seq<FoundView>, f: FoundView)
    ensures
        files_among(a + b) == files_among(a) + files_among(b),
        files_among(seq![f]) == if f.kind == PathKind::File {
            seq![f.path]
        } else {
            Seq::empty()
        },
    decreases b.len(),
{
    assert(seq![f].drop_last() =~= Seq::<FoundView>::empty());
    assert(files_among(Seq::<FoundView>::empty()) =~= Seq::<Seq<u8>>::empty());
    assert(seq![f].last() == f);
    if f.kind == PathKind::File {
        assert(files_among(seq![f]) =~= seq![f.path]);
    }
    if b.len() == 0 {
        assert(a + b =~= a);
        assert(files_among(a) + files_among(b) =~= files_among(a));
    } else {
        law_files_among_what_was_found(a, b.drop_last(), f);
        assert((a + b).drop_last() =~= a + b.drop_last());
        assert((a + b).last() == b.last());
        assert(files_among(a + b) =~= files_among(a) + files_among(b));
    }
}

} // verus!
