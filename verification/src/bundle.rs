//! Bundles: several files, or directories, sent as one archive. What goes into the
//! archive, under which names and in which order.

use crate::message::{clock_ms, now_ms};
use crate::number::{decimal, print};
use crate::order::{increasing, strict_total};
use crate::path::{
    comes_before, common, common_len, copy_part, copy_parts, has_parent, has_parent_exec, has_prefix,
    last_name_text, last_name_text_of, lemma_path_order, parts, parts_of, path_less, render,
    rendered, same_parts, Part, PartView,
};
use vstd::prelude::*;
use vstd::utf8::encode_utf8;

verus! {

/// What a path leads to.
#[derive(Clone, Copy, Debug, PartialEq, Eq, Structural)]
pub enum PathKind {
    File,
    Dir,
    /// A link, or a special file.
    Other,
}

/// The components of each path.
pub open spec fn all_parts(paths: Seq<Seq<u8>>) -> Seq<Seq<PartView>> {
    paths.map_values(|p: Seq<u8>| parts(p))
}

/// The components of each path.
fn all_parts_of(paths: &Vec<Vec<u8>>) -> (res: Vec<Vec<Part>>)
    ensures
        res.deep_view() == all_parts(paths.deep_view()),
{
    let mut out: Vec<Vec<Part>> = Vec::new();
    let mut i: usize = 0;
    while i < paths.len()
        invariant
            i <= paths@.len(),
            out@.len() == i,
            forall|j: int|
                0 <= j < i ==> (#[trigger] out@[j]).deep_view() == parts(paths@[j]@),
        decreases paths@.len() - i,
    {
        out.push(parts_of(paths[i].as_slice()));
        i += 1;
    }
    assert forall|j: int| 0 <= j < paths@.len() implies #[trigger] paths.deep_view()[j]
        == paths@[j]@ by {
        assert(paths@[j].deep_view() =~= paths@[j]@);
    }
    assert(out.deep_view() =~= all_parts(paths.deep_view()));
    out
}

/// A name that says nothing but that it is a bundle.
pub open spec fn generic_name(now: u64) -> Seq<char> {
    "multicliprelay-bundle-"@ + decimal(now as nat) + ".tar"@
}

/// The directory that holds every path, where there is one.
pub open spec fn shared_parent(cs: Seq<Seq<PartView>>) -> Option<Seq<PartView>> {
    if cs.len() > 0 && forall|i: int|
        0 <= i < cs.len() ==> has_parent(#[trigger] cs[i]) && cs[i].drop_last() == cs[0].drop_last() {
        Some(cs[0].drop_last())
    } else {
        None
    }
}

/// The name of a bundle of paths: after the one path; after the directory that holds
/// them all, since some file managers give a directory as what it holds; else after
/// the time.
pub open spec fn bundle_name(paths: Seq<Seq<u8>>, now: u64) -> Seq<char> {
    let cs = all_parts(paths);
    let named = if cs.len() == 1 {
        last_name_text(cs[0])
    } else {
        match shared_parent(cs) {
            Some(p) => last_name_text(p),
            None => None,
        }
    };
    match named {
        Some(n) => n + ".tar"@,
        None => generic_name(now),
    }
}

fn generic(now: u64) -> (res: String)
    ensures
        res@ == generic_name(now),
{
    let mut s = String::new();
    s.append("multicliprelay-bundle-");
    s.append(print(now as u128).as_str());
    s.append(".tar");
    assert(s@ =~= generic_name(now));
    s
}

/// The directory that holds every path, where there is one.
fn shared_parent_of(cs: &Vec<Vec<Part>>) -> (res: Option<Vec<Part>>)
    ensures
        match res {
            Some(p) => shared_parent(cs.deep_view()) == Some(p.deep_view()),
            None => shared_parent(cs.deep_view()) is None,
        },
{
    let ghost all = cs.deep_view();
    if cs.len() == 0 {
        return None;
    }
    assert(all[0] == cs@[0].deep_view());
    if !has_parent_exec(&cs[0]) {
        assert(!has_parent(all[0]));
        return None;
    }
    let n = cs[0].len();
    let first = copy_parts(&cs[0], 0, n - 1);
    assert(first.deep_view() =~= all[0].drop_last());
    let mut i: usize = 0;
    while i < cs.len()
        invariant
            i <= cs@.len(),
            all == cs.deep_view(),
            all.len() == cs@.len(),
            first.deep_view() == all[0].drop_last(),
            forall|j: int|
                0 <= j < i ==> has_parent(#[trigger] all[j]) && all[j].drop_last()
                    == all[0].drop_last(),
        decreases cs@.len() - i,
    {
        assert(all[i as int] == cs@[i as int].deep_view());
        if !has_parent_exec(&cs[i]) {
            assert(!has_parent(all[i as int]));
            return None;
        }
        let m = cs[i].len();
        let dir = copy_parts(&cs[i], 0, m - 1);
        assert(dir.deep_view() =~= all[i as int].drop_last());
        if !same_parts(&dir, &first) {
            return None;
        }
        i += 1;
    }
    Some(first)
}

/// The name of a bundle of paths at a given time.
pub fn bundle_name_at(paths: &Vec<Vec<u8>>, now: u64) -> (res: String)
    ensures
        res@ == bundle_name(paths.deep_view(), now),
{
    let cs = all_parts_of(paths);
    let ghost all = cs.deep_view();
    let named: Option<String> = if cs.len() == 1 {
        assert(all[0] == cs@[0].deep_view());
        last_name_text_of(&cs[0])
    } else {
        match shared_parent_of(&cs) {
            Some(p) => last_name_text_of(&p),
            None => None,
        }
    };
    match named {
        Some(n) => {
            let mut s = n;
            s.append(".tar");
            s
        },
        None => generic(now),
    }
}

/// The name of a bundle of paths.
pub fn bundle_name_for(paths: &Vec<Vec<u8>>) -> (res: String)
    ensures
        exists|nanos: Option<u128>|
            res@ == bundle_name(paths.deep_view(), #[trigger] clock_ms(nanos)),
{
    bundle_name_at(paths, now_ms())
}

/// The directories that hold the paths, where they are held by one.
pub open spec fn parent_dirs(cs: Seq<Seq<PartView>>) -> Seq<Seq<PartView>>
    decreases cs.len(),
{
    if cs.len() == 0 {
        Seq::empty()
    } else if has_parent(cs.last()) {
        parent_dirs(cs.drop_last()).push(cs.last().drop_last())
    } else {
        parent_dirs(cs.drop_last())
    }
}

/// The longest common head of all of them.
pub open spec fn common_all(ds: Seq<Seq<PartView>>) -> Seq<PartView>
    decreases ds.len(),
{
    if ds.len() <= 1 {
        ds[0]
    } else {
        common(common_all(ds.drop_last()), ds.last())
    }
}

/// The path lies under `root`, at some depth.
pub open spec fn under(root: Seq<PartView>, c: Seq<PartView>) -> bool {
    root.is_prefix_of(c)
}

/// Some path lies in a directory of its own under `root`.
pub open spec fn nested(root: Seq<PartView>, cs: Seq<Seq<PartView>>) -> bool {
    exists|i: int|
        0 <= i < cs.len() && under(root, #[trigger] cs[i]) && cs[i].len() > root.len() + 1
}

/// The directory whose tree a selection of files alone stands for. Some file managers
/// give a directory as the list of the files in it: files that lie at different
/// depths under one directory keep their places under it.
pub open spec fn tree_root(cs: Seq<Seq<PartView>>, kinds: Seq<PathKind>) -> Option<Seq<PartView>> {
    let ds = parent_dirs(cs);
    let root = common_all(ds);
    if (forall|i: int| 0 <= i < kinds.len() ==> kinds[i] == PathKind::File) && ds.len() > 0
        && nested(root, cs) && last_name_text(root) is Some {
        Some(root)
    } else {
        None
    }
}

fn parent_dirs_of(cs: &Vec<Vec<Part>>) -> (res: Vec<Vec<Part>>)
    ensures
        res.deep_view() == parent_dirs(cs.deep_view()),
{
    let ghost all = cs.deep_view();
    let mut out: Vec<Vec<Part>> = Vec::new();
    let mut i: usize = 0;
    assert(all.take(0) =~= Seq::empty());
    assert(out.deep_view() =~= Seq::empty());
    while i < cs.len()
        invariant
            i <= cs@.len(),
            all == cs.deep_view(),
            all.len() == cs@.len(),
            out.deep_view() == parent_dirs(all.take(i as int)),
        decreases cs@.len() - i,
    {
        let ghost next = all.take(i + 1);
        assert(next.drop_last() =~= all.take(i as int));
        assert(next.last() == cs@[i as int].deep_view());
        let ghost before = out.deep_view();
        if has_parent_exec(&cs[i]) {
            let n = cs[i].len();
            let d = copy_parts(&cs[i], 0, n - 1);
            assert(d.deep_view() =~= next.last().drop_last());
            out.push(d);
            assert(out.deep_view() =~= before.push(d.deep_view()));
        }
        i += 1;
    }
    assert(all.take(i as int) =~= all);
    out
}

fn common_all_of(ds: &Vec<Vec<Part>>) -> (res: Vec<Part>)
    requires
        ds@.len() > 0,
    ensures
        res.deep_view() == common_all(ds.deep_view()),
{
    let ghost all = ds.deep_view();
    assert(all[0] == ds@[0].deep_view());
    let mut root = copy_parts(&ds[0], 0, ds[0].len());
    assert(root.deep_view() =~= all[0]);
    let mut i: usize = 1;
    while i < ds.len()
        invariant
            1 <= i <= ds@.len(),
            all == ds.deep_view(),
            all.len() == ds@.len(),
            root.deep_view() == common_all(all.take(i as int)),
        decreases ds@.len() - i,
    {
        let ghost next = all.take(i + 1);
        assert(next.drop_last() =~= all.take(i as int));
        assert(next.last() == ds@[i as int].deep_view());
        let k = common_len(&root, &ds[i]);
        let shorter = copy_parts(&root, 0, k);
        assert(shorter.deep_view() =~= root.deep_view().take(k as int));
        root = shorter;
        i += 1;
    }
    assert(all.take(i as int) =~= all);
    root
}

fn nested_in(root: &Vec<Part>, cs: &Vec<Vec<Part>>) -> (res: bool)
    ensures
        res == nested(root.deep_view(), cs.deep_view()),
{
    let ghost all = cs.deep_view();
    let ghost r = root.deep_view();
    let mut i: usize = 0;
    while i < cs.len()
        invariant
            i <= cs@.len(),
            all == cs.deep_view(),
            all.len() == cs@.len(),
            r == root.deep_view(),
            forall|j: int|
                0 <= j < i ==> !(under(r, #[trigger] all[j]) && all[j].len() > r.len() + 1),
        decreases cs@.len() - i,
    {
        assert(all[i as int] == cs@[i as int].deep_view());
        let k = root.len();
        if has_prefix(&cs[i], root) {
            assert(under(r, all[i as int]));
            if cs[i].len() - k > 1 {
                return true;
            }
        }
        i += 1;
    }
    false
}

/// The directory whose tree a selection of files alone stands for.
fn tree_root_of(cs: &Vec<Vec<Part>>, kinds: &Vec<PathKind>) -> (res: Option<Vec<Part>>)
    ensures
        match res {
            Some(r) => tree_root(cs.deep_view(), kinds@) == Some(r.deep_view()),
            None => tree_root(cs.deep_view(), kinds@) is None,
        },
{
    let mut i: usize = 0;
    while i < kinds.len()
        invariant
            i <= kinds@.len(),
            forall|j: int| 0 <= j < i ==> kinds@[j] == PathKind::File,
        decreases kinds@.len() - i,
    {
        if kinds[i] != PathKind::File {
            return None;
        }
        i += 1;
    }
    let ds = parent_dirs_of(cs);
    assert(ds.deep_view().len() == ds@.len());
    if ds.len() == 0 {
        return None;
    }
    let root = common_all_of(&ds);
    if nested_in(&root, cs) && last_name_text_of(&root).is_some() {
        Some(root)
    } else {
        None
    }
}

/// `d` is a directory of the tree under `root`, as the archive names it: the tree's
/// own directory, or one that leads from it to one of the paths.
pub open spec fn is_tree_dir(root: Seq<PartView>, cs: Seq<Seq<PartView>>, d: Seq<PartView>) -> bool {
    d == seq![root.last()] || exists|i: int, k: int|
        0 <= i < cs.len() && under(root, #[trigger] cs[i]) && root.len() < k < cs[i].len() && d
            == seq![root.last()] + #[trigger] cs[i].subrange(root.len() as int, k)
}

/// What an entry of an archive is made of.
#[derive(Clone, Copy, Debug, PartialEq, Eq, Structural)]
pub enum EntryKind {
    /// A directory, without what it holds.
    Dir,
    /// A file.
    File,
    /// A directory with what it holds.
    Tree,
}

/// An entry of an archive.
#[verifier::ext_equal]
pub struct EntryView {
    pub kind: EntryKind,
    pub fs: Seq<u8>,
    pub archive: Seq<u8>,
}

/// An entry of an archive: where it is read from, and its name there.
#[derive(Debug)]
pub struct Entry {
    pub kind: EntryKind,
    pub fs: Vec<u8>,
    pub archive: Vec<u8>,
}

impl View for Entry {
    type V = EntryView;

    open spec fn view(&self) -> EntryView {
        EntryView { kind: self.kind, fs: self.fs@, archive: self.archive@ }
    }
}

impl DeepView for Entry {
    type V = EntryView;

    open spec fn deep_view(&self) -> EntryView {
        self@
    }
}

/// The entry for a directory of the tree under `root`.
pub open spec fn tree_dir_entry(root: Seq<PartView>, d: Seq<PartView>) -> EntryView {
    EntryView { kind: EntryKind::Dir, fs: rendered(root + d.skip(1)), archive: rendered(d) }
}

/// The name of a path in the archive where it stands alone.
pub open spec fn item_name(c: Seq<PartView>) -> Seq<char> {
    match last_name_text(c) {
        Some(n) => n,
        None => "item"@,
    }
}

/// The entries for one path: none for what is neither file nor directory.
pub open spec fn path_entries(
    root: Option<Seq<PartView>>,
    path: Seq<u8>,
    kind: PathKind,
) -> Seq<EntryView> {
    let c = parts(path);
    match kind {
        PathKind::Dir => seq![
            EntryView { kind: EntryKind::Tree, fs: path, archive: encode_utf8(item_name(c)) },
        ],
        PathKind::File => if root is Some && under(root->0, c) {
            seq![
                EntryView {
                    kind: EntryKind::File,
                    fs: path,
                    archive: rendered(seq![root->0.last()] + c.skip(root->0.len() as int)),
                },
            ]
        } else {
            seq![EntryView { kind: EntryKind::File, fs: path, archive: encode_utf8(item_name(c)) }]
        },
        PathKind::Other => Seq::empty(),
    }
}

/// The entries for the paths, in order.
pub open spec fn paths_entries(
    root: Option<Seq<PartView>>,
    paths: Seq<Seq<u8>>,
    kinds: Seq<PathKind>,
) -> Seq<EntryView>
    decreases paths.len(),
{
    if paths.len() == 0 {
        Seq::empty()
    } else {
        paths_entries(root, paths.drop_last(), kinds) + path_entries(
            root,
            paths.last(),
            kinds[paths.len() - 1],
        )
    }
}

/// `dirs` are the directories of the tree, in order; none without a tree.
pub open spec fn are_tree_dirs(
    root: Option<Seq<PartView>>,
    cs: Seq<Seq<PartView>>,
    dirs: Seq<Seq<PartView>>,
) -> bool {
    match root {
        Some(r) => increasing(dirs, |a: Seq<PartView>, b: Seq<PartView>| path_less(a, b))
            && forall|d: Seq<PartView>|
            #![trigger dirs.contains(d)]
            #![trigger is_tree_dir(r, cs, d)]
            dirs.contains(d) <==> is_tree_dir(r, cs, d),
        None => dirs.len() == 0,
    }
}

/// The entries for the directories of a tree.
pub open spec fn dir_entries(
    root: Option<Seq<PartView>>,
    dirs: Seq<Seq<PartView>>,
) -> Seq<EntryView> {
    dirs.map_values(|d: Seq<PartView>| tree_dir_entry(root->0, d))
}

/// The entries of the archive for a selection: the tree's directories first, so that
/// they are there before what they hold, then the paths in order.
pub open spec fn is_plan(
    paths: Seq<Seq<u8>>,
    kinds: Seq<PathKind>,
    dirs: Seq<Seq<PartView>>,
    plan: Seq<EntryView>,
) -> bool {
    let cs = all_parts(paths);
    let root = tree_root(cs, kinds);
    &&& are_tree_dirs(root, cs, dirs)
    &&& plan == dir_entries(root, dirs) + paths_entries(root, paths, kinds)
}

/// Adds `d` to an increasing list of paths, unless it is there.
fn insert_dir(dirs: &mut Vec<Vec<Part>>, d: Vec<Part>)
    requires
        increasing(
            old(dirs).deep_view(),
            |a: Seq<PartView>, b: Seq<PartView>| path_less(a, b),
        ),
    ensures
        increasing(
            final(dirs).deep_view(),
            |a: Seq<PartView>, b: Seq<PartView>| path_less(a, b),
        ),
        forall|x: Seq<PartView>|
            #![trigger final(dirs).deep_view().contains(x)]
            #![trigger old(dirs).deep_view().contains(x)]
            final(dirs).deep_view().contains(x) <==> old(dirs).deep_view().contains(x) || x
                == d.deep_view(),
{
    let ghost lt = |a: Seq<PartView>, b: Seq<PartView>| path_less(a, b);
    let ghost before = dirs.deep_view();
    let ghost dv = d.deep_view();
    proof {
        lemma_path_order();
        assert(strict_total(lt));
    }
    let mut i: usize = 0;
    while i < dirs.len() && comes_before(&dirs[i], &d)
        invariant
            i <= dirs@.len(),
            before == dirs.deep_view(),
            before.len() == dirs@.len(),
            dv == d.deep_view(),
            forall|j: int| 0 <= j < i ==> path_less(#[trigger] before[j], dv),
        decreases dirs@.len() - i,
    {
        assert(before[i as int] == dirs@[i as int].deep_view());
        i += 1;
    }
    if i < dirs.len() {
        assert(before[i as int] == dirs@[i as int].deep_view());
        if same_parts(&dirs[i], &d) {
            assert(before[i as int] == dv);
            return;
        }
        assert(lt(dv, before[i as int]) || lt(before[i as int], dv));
    }
    dirs.insert(i, d);
    proof {
        let after = dirs.deep_view();
        assert(after =~= before.insert(i as int, dv));
        assert forall|a: int, b: int| 0 <= a < b < after.len() implies lt(
            #[trigger] after[a],
            #[trigger] after[b],
        ) by {
            if b < i {
                assert(lt(before[a], before[b]));
            } else if b == i {
                assert(lt(before[a], dv));
            } else if a == i {
                if b - 1 > i {
                    assert(lt(before[i as int], before[b - 1]));
                    assert(lt(dv, before[i as int]));
                }
            } else if a < i {
                assert(lt(before[a], before[b - 1]));
            } else {
                assert(lt(before[a - 1], before[b - 1]));
            }
        }
        assert forall|x: Seq<PartView>| after.contains(x) <==> before.contains(x) || x == dv by {
            if before.contains(x) {
                let k = choose|k: int| 0 <= k < before.len() && before[k] == x;
                if k < i {
                    assert(after[k] == x);
                } else {
                    assert(after[k + 1] == x);
                }
            }
            assert(after[i as int] == dv);
            if after.contains(x) && x != dv {
                let k = choose|k: int| 0 <= k < after.len() && after[k] == x;
                if k < i {
                    assert(before[k] == x);
                } else {
                    assert(before[k - 1] == x);
                }
            }
        }
    }
}

/// The directories that lead from the tree's own to the paths seen so far.
spec fn is_tree_dir_upto(
    root: Seq<PartView>,
    cs: Seq<Seq<PartView>>,
    n: int,
    m: int,
    d: Seq<PartView>,
) -> bool {
    d == seq![root.last()] || exists|i: int, k: int|
        0 <= i < cs.len() && (i < n || i == n && k < m) && under(root, #[trigger] cs[i])
            && root.len() < k < cs[i].len() && d == seq![root.last()] + #[trigger] cs[i].subrange(
            root.len() as int,
            k,
        )
}

/// The directories of the tree under `root`, in order.
fn tree_dirs(root: &Vec<Part>, cs: &Vec<Vec<Part>>) -> (res: Vec<Vec<Part>>)
    requires
        root@.len() > 0,
    ensures
        are_tree_dirs(Some(root.deep_view()), cs.deep_view(), res.deep_view()),
{
    let ghost r = root.deep_view();
    let ghost all = cs.deep_view();
    let ghost lt = |a: Seq<PartView>, b: Seq<PartView>| path_less(a, b);
    let n = root.len();
    let mut top: Vec<Part> = Vec::new();
    top.push(copy_part(&root[n - 1]));
    assert(top.deep_view() =~= seq![r.last()]);
    let mut dirs: Vec<Vec<Part>> = Vec::new();
    let ghost top_view = top.deep_view();
    dirs.push(top);
    assert(dirs.deep_view() =~= seq![top_view]);
    proof {
        assert forall|d: Seq<PartView>| dirs.deep_view().contains(d) <==> is_tree_dir_upto(
            r,
            all,
            0,
            0,
            d,
        ) by {
            assert(dirs.deep_view()[0] == top_view);
        }
    }
    let mut i: usize = 0;
    while i < cs.len()
        invariant
            n == root@.len(),
            n > 0,
            r == root.deep_view(),
            r.len() == n,
            all == cs.deep_view(),
            all.len() == cs@.len(),
            i <= cs@.len(),
            increasing(dirs.deep_view(), |a: Seq<PartView>, b: Seq<PartView>| path_less(a, b)),
            forall|d: Seq<PartView>|
                #![trigger dirs.deep_view().contains(d)]
                dirs.deep_view().contains(d) <==> is_tree_dir_upto(r, all, i as int, 0, d),
        decreases cs@.len() - i,
    {
        let ghost c = all[i as int];
        assert(c == cs@[i as int].deep_view());
        let len = cs[i].len();
        if len > n && has_prefix(&cs[i], root) {
            let mut k: usize = n + 1;
            assert forall|d: Seq<PartView>|
                is_tree_dir_upto(r, all, i as int, 0, d) == is_tree_dir_upto(
                    r,
                    all,
                    i as int,
                    k as int,
                    d,
                ) by {}
            while k < len
                invariant
                    n == root@.len(),
                    n > 0,
                    r == root.deep_view(),
                    r.len() == n,
                    all == cs.deep_view(),
                    all.len() == cs@.len(),
                    i < cs@.len(),
                    c == all[i as int],
                    c == cs@[i as int].deep_view(),
                    len == c.len(),
                    len == cs@[i as int]@.len(),
                    under(r, c),
                    n < k,
                    increasing(
                        dirs.deep_view(),
                        |a: Seq<PartView>, b: Seq<PartView>| path_less(a, b),
                    ),
                    forall|d: Seq<PartView>|
                        #![trigger dirs.deep_view().contains(d)]
                        dirs.deep_view().contains(d) <==> is_tree_dir_upto(
                            r,
                            all,
                            i as int,
                            k as int,
                            d,
                        ),
                decreases len - k,
            {
                let mut d = copy_parts(&cs[i], n, k);
                let ghost tail = d.deep_view();
                assert(tail == c.subrange(n as int, k as int));
                d.insert(0, copy_part(&root[n - 1]));
                assert(d.deep_view() =~= seq![r.last()] + tail);
                let ghost dv = d.deep_view();
                insert_dir(&mut dirs, d);
                proof {
                    assert forall|x: Seq<PartView>|
                        #![trigger dirs.deep_view().contains(x)]
                        dirs.deep_view().contains(x) <==> is_tree_dir_upto(
                            r,
                            all,
                            i as int,
                            k + 1,
                            x,
                        ) by {
                        if x == dv {
                            assert(under(r, all[i as int]) && dv == seq![r.last()]
                                + all[i as int].subrange(r.len() as int, k as int));
                            assert(is_tree_dir_upto(r, all, i as int, k + 1, x));
                        }
                        if is_tree_dir_upto(r, all, i as int, k as int, x) {
                            assert(is_tree_dir_upto(r, all, i as int, k + 1, x));
                        }
                        if is_tree_dir_upto(r, all, i as int, k + 1, x) && x != dv {
                            assert(is_tree_dir_upto(r, all, i as int, k as int, x));
                        }
                    }
                }
                k += 1;
            }
            assert forall|d: Seq<PartView>|
                is_tree_dir_upto(r, all, i as int, k as int, d) == is_tree_dir_upto(
                    r,
                    all,
                    i + 1,
                    0,
                    d,
                ) by {}
        } else {
            assert(!under(r, c) || c.len() <= r.len());
            assert forall|d: Seq<PartView>|
                is_tree_dir_upto(r, all, i as int, 0, d) == is_tree_dir_upto(
                    r,
                    all,
                    i + 1,
                    0,
                    d,
                ) by {}
        }
        i += 1;
    }
    assert forall|d: Seq<PartView>|
        is_tree_dir_upto(r, all, i as int, 0, d) == is_tree_dir(r, all, d) by {}
    dirs
}

/// The components of an optional path.
spec fn opt_parts(o: Option<Vec<Part>>) -> Option<Seq<PartView>> {
    match o {
        Some(r) => Some(r.deep_view()),
        None => None,
    }
}

/// The entries for one path.
fn push_path(root: &Option<Vec<Part>>, path: &Vec<u8>, kind: PathKind, out: &mut Vec<Entry>)
    requires
        root is Some ==> root->0@.len() > 0,
    ensures
        final(out).deep_view() == old(out).deep_view() + path_entries(
            opt_parts(*root),
            path@,
            kind,
        ),
{
    let ghost before = out.deep_view();
    let c = parts_of(path.as_slice());
    let name: String = match last_name_text_of(&c) {
        Some(n) => n,
        None => "item".to_string(),
    };
    let fs = crate::bytes::to_vec(path.as_slice());
    match kind {
        PathKind::Dir => {
            let archive = name.as_str().as_bytes_vec();
            out.push(Entry { kind: EntryKind::Tree, fs, archive });
        },
        PathKind::File => {
            if let Some(r) = root {
                if has_prefix(&c, r) {
                    let n = r.len();
                    let mut a = copy_parts(&c, n, c.len());
                    assert(a.deep_view() =~= c.deep_view().skip(n as int));
                    let ghost rest = a.deep_view();
                    a.insert(0, copy_part(&r[n - 1]));
                    assert(a.deep_view() =~= seq![r.deep_view().last()] + rest);
                    let archive = render(&a);
                    out.push(Entry { kind: EntryKind::File, fs, archive });
                    assert(out.deep_view() =~= before + path_entries(
                        Some(r.deep_view()),
                        path@,
                        kind,
                    ));
                    return;
                }
            }
            let archive = name.as_str().as_bytes_vec();
            out.push(Entry { kind: EntryKind::File, fs, archive });
        },
        PathKind::Other => {},
    }
    assert(out.deep_view() =~= before + path_entries(opt_parts(*root), path@, kind));
}

/// What goes into the archive for a selection of paths.
pub fn plan_bundle(paths: &Vec<Vec<u8>>, kinds: &Vec<PathKind>) -> (res: Vec<Entry>)
    requires
        paths@.len() == kinds@.len(),
    ensures
        exists|dirs: Seq<Seq<PartView>>|
            #[trigger] is_plan(paths.deep_view(), kinds@, dirs, res.deep_view()),
{
    let cs = all_parts_of(paths);
    let ghost all = cs.deep_view();
    let ghost ps = paths.deep_view();
    let root = tree_root_of(&cs, kinds);
    let ghost rv = opt_parts(root);
    assert(rv == tree_root(all, kinds@));
    assert(root is Some ==> root->0@.len() > 0) by {
        if root is Some {
            assert(last_name_text(rv->0) is Some);
            assert(root->0.deep_view().len() == root->0@.len());
        }
    }
    let mut out: Vec<Entry> = Vec::new();
    let ghost mut dirs_view: Seq<Seq<PartView>> = Seq::empty();
    assert(out.deep_view() =~= dir_entries(rv, dirs_view));
    if let Some(r) = &root {
        let dirs = tree_dirs(r, &cs);
        proof {
            dirs_view = dirs.deep_view();
        }
        let n = r.len();
        let mut i: usize = 0;
        while i < dirs.len()
            invariant
                i <= dirs@.len(),
                n == r@.len(),
                dirs_view == dirs.deep_view(),
                dirs_view.len() == dirs@.len(),
                rv == Some(r.deep_view()),
                are_tree_dirs(rv, all, dirs_view),
                out.deep_view() == dir_entries(rv, dirs_view.take(i as int)),
            decreases dirs@.len() - i,
        {
            let ghost d = dirs_view[i as int];
            assert(d == dirs@[i as int].deep_view());
            proof {
                assert(dirs_view.contains(d));
                assert(is_tree_dir(r.deep_view(), all, d));
                assert(d.len() >= 1);
            }
            let mut fs = copy_parts(r, 0, n);
            assert(fs.deep_view() =~= r.deep_view());
            let ghost fs0 = fs.deep_view();
            let mut rest = copy_parts(&dirs[i], 1, dirs[i].len());
            assert(rest.deep_view() =~= d.skip(1));
            let ghost rest0 = rest.deep_view();
            fs.append(&mut rest);
            assert(fs.deep_view() =~= fs0 + rest0);
            let ghost before = out.deep_view();
            out.push(Entry { kind: EntryKind::Dir, fs: render(&fs), archive: render(&dirs[i]) });
            assert(out.deep_view() =~= before.push(tree_dir_entry(r.deep_view(), d)));
            assert(dir_entries(rv, dirs_view.take(i + 1)) =~= before.push(
                tree_dir_entry(r.deep_view(), d),
            ));
            i += 1;
        }
        assert(dirs_view.take(i as int) =~= dirs_view);
    }
    let ghost head = out.deep_view();
    let mut i: usize = 0;
    assert(head =~= dir_entries(rv, dirs_view));
    assert(ps.take(0) =~= Seq::<Seq<u8>>::empty());
    assert(head + paths_entries(rv, ps.take(0), kinds@) =~= head);
    while i < paths.len()
        invariant
            i <= paths@.len(),
            paths@.len() == kinds@.len(),
            ps == paths.deep_view(),
            ps.len() == paths@.len(),
            rv == opt_parts(root),
            root is Some ==> root->0@.len() > 0,
            out.deep_view() == head + paths_entries(rv, ps.take(i as int), kinds@),
        decreases paths@.len() - i,
    {
        let ghost next = ps.take(i + 1);
        assert(next.drop_last() =~= ps.take(i as int));
        assert(paths@[i as int].deep_view() =~= paths@[i as int]@);
        assert(next.last() == paths@[i as int]@);
        let ghost before = paths_entries(rv, ps.take(i as int), kinds@);
        push_path(&root, &paths[i], kinds[i], &mut out);
        assert(out.deep_view() =~= head + (before + path_entries(
            rv,
            next.last(),
            kinds@[i as int],
        )));
        i += 1;
    }
    assert(ps.take(i as int) =~= ps);
    assert(is_plan(ps, kinds@, dirs_view, out.deep_view()));
    out
}

/// A selection has one plan: the order of the directories leaves nothing open.
pub proof fn law_plan_is_unique(
    paths: Seq<Seq<u8>>,
    kinds: Seq<PathKind>,
    dirs: Seq<Seq<PartView>>,
    plan: Seq<EntryView>,
    other_dirs: Seq<Seq<PartView>>,
    other_plan: Seq<EntryView>,
)
    requires
        is_plan(paths, kinds, dirs, plan),
        is_plan(paths, kinds, other_dirs, other_plan),
    ensures
        plan == other_plan,
{
    let cs = all_parts(paths);
    match tree_root(cs, kinds) {
        Some(r) => {
            lemma_path_order();
            let lt = |a: Seq<PartView>, b: Seq<PartView>| path_less(a, b);
            assert forall|d: Seq<PartView>| dirs.contains(d) <==> other_dirs.contains(d) by {
                assert(dirs.contains(d) <==> is_tree_dir(r, cs, d));
                assert(other_dirs.contains(d) <==> is_tree_dir(r, cs, d));
            }
            crate::order::law_increasing_is_unique(dirs, other_dirs, lt);
        },
        None => {
            assert(dirs =~= other_dirs);
        },
    }
}

/// In the plan for a tree of files, every directory but the first is preceded by the one
/// that holds it, so that it can be made when it comes.
pub proof fn law_directories_come_before_what_they_hold(
    paths: Seq<Seq<u8>>,
    kinds: Seq<PathKind>,
    dirs: Seq<Seq<PartView>>,
    plan: Seq<EntryView>,
    j: int,
)
    requires
        is_plan(paths, kinds, dirs, plan),
        0 <= j < dirs.len(),
        dirs[j].len() > 1,
    ensures
        exists|i: int| 0 <= i < j && #[trigger] dirs[i] == dirs[j].drop_last(),
{
    let cs = all_parts(paths);
    let r = tree_root(cs, kinds)->0;
    let d = dirs[j];
    let up = d.drop_last();
    assert(dirs.contains(d));
    assert(is_tree_dir(r, cs, d));
    let (n, k) = choose|n: int, k: int|
        0 <= n < cs.len() && under(r, #[trigger] cs[n]) && r.len() < k < cs[n].len() && d
            == seq![r.last()] + #[trigger] cs[n].subrange(r.len() as int, k);
    if d != seq![r.last()] {
        if k == r.len() + 1 {
            assert(up =~= seq![r.last()]);
        } else {
            assert(up =~= seq![r.last()] + cs[n].subrange(r.len() as int, k - 1));
        }
    }
    assert(is_tree_dir(r, cs, up));
    assert(dirs.contains(up));
    let i = choose|i: int| 0 <= i < dirs.len() && dirs[i] == up;
    lemma_path_order();
    let lt = |a: Seq<PartView>, b: Seq<PartView>| path_less(a, b);
    lemma_head_is_less(up, d);
    assert(lt(up, d));
    if i >= j {
        if i > j {
            assert(lt(dirs[j], dirs[i]));
            assert(lt(up, d) && lt(d, up));
        }
        assert(lt(up, up) || lt(d, d));
    }
}

/// Every file in the plan for a tree lies in one of its directories.
pub proof fn law_files_lie_in_the_tree(
    paths: Seq<Seq<u8>>,
    kinds: Seq<PathKind>,
    dirs: Seq<Seq<PartView>>,
    plan: Seq<EntryView>,
    i: int,
)
    requires
        is_plan(paths, kinds, dirs, plan),
        tree_root(all_parts(paths), kinds) is Some,
        0 <= i < paths.len(),
        under(tree_root(all_parts(paths), kinds)->0, parts(paths[i])),
        parts(paths[i]).len() > tree_root(all_parts(paths), kinds)->0.len(),
    ensures
        ({
            let r = tree_root(all_parts(paths), kinds)->0;
            let name = seq![r.last()] + parts(paths[i]).skip(r.len() as int);
            dirs.contains(name.drop_last())
        }),
{
    let cs = all_parts(paths);
    let r = tree_root(cs, kinds)->0;
    let c = parts(paths[i]);
    assert(cs[i] == c);
    let name = seq![r.last()] + c.skip(r.len() as int);
    let up = name.drop_last();
    if c.len() == r.len() + 1 {
        assert(up =~= seq![r.last()]);
    } else {
        let k = c.len() - 1;
        assert(up =~= seq![r.last()] + cs[i].subrange(r.len() as int, k));
    }
    assert(is_tree_dir(r, cs, up));
}

/// A path comes after the ones that lead to it.
proof fn lemma_head_is_less(a: Seq<PartView>, b: Seq<PartView>)
    requires
        a.is_prefix_of(b),
        a.len() < b.len(),
    ensures
        path_less(a, b),
    decreases a.len(),
{
    if a.len() > 0 {
        assert(a[0] == b[0]);
        assert(a.drop_first() =~= b.drop_first().take(a.len() - 1));
        lemma_head_is_less(a.drop_first(), b.drop_first());
    }
}

/// An entry of the plan packs the path.
pub open spec fn packs(e: EntryView, path: Seq<u8>, kind: PathKind) -> bool {
    &&& e.fs == path
    &&& kind == PathKind::File ==> e.kind == EntryKind::File
    &&& kind == PathKind::Dir ==> e.kind == EntryKind::Tree
}

proof fn lemma_path_is_packed(
    root: Option<Seq<PartView>>,
    paths: Seq<Seq<u8>>,
    kinds: Seq<PathKind>,
    i: int,
) -> (j: int)
    requires
        0 <= i < paths.len(),
        kinds[i] != PathKind::Other,
    ensures
        0 <= j < paths_entries(root, paths, kinds).len(),
        packs(paths_entries(root, paths, kinds)[j], paths[i], kinds[i]),
        seq![paths_entries(root, paths, kinds)[j]] == path_entries(root, paths[i], kinds[i]),
    decreases paths.len(),
{
    let before = paths_entries(root, paths.drop_last(), kinds);
    let all = paths_entries(root, paths, kinds);
    if i == paths.len() - 1 {
        let own = path_entries(root, paths[i], kinds[i]);
        assert(all == before + own);
        assert(own.len() == 1);
        assert(all[before.len() as int] == own[0]);
        assert(seq![all[before.len() as int]] =~= own);
        before.len() as int
    } else {
        let j = lemma_path_is_packed(root, paths.drop_last(), kinds, i);
        assert(all[j] == before[j]);
        j
    }
}

/// Every file and every directory that was selected goes into the archive: a file as it is, a
/// directory with what it holds.
pub proof fn law_every_selected_path_is_packed(
    paths: Seq<Seq<u8>>,
    kinds: Seq<PathKind>,
    dirs: Seq<Seq<PartView>>,
    plan: Seq<EntryView>,
    i: int,
)
    requires
        is_plan(paths, kinds, dirs, plan),
        0 <= i < paths.len(),
        kinds[i] != PathKind::Other,
    ensures
        exists|j: int| 0 <= j < plan.len() && packs(#[trigger] plan[j], paths[i], kinds[i]),
{
    let root = tree_root(all_parts(paths), kinds);
    let j = lemma_path_is_packed(root, paths, kinds, i);
    let k = dir_entries(root, dirs).len() + j;
    assert(plan[k] == paths_entries(root, paths, kinds)[j]);
}

proof fn lemma_packed_was_selected(
    root: Option<Seq<PartView>>,
    paths: Seq<Seq<u8>>,
    kinds: Seq<PathKind>,
    j: int,
)
    requires
        0 <= j < paths_entries(root, paths, kinds).len(),
    ensures
        exists|i: int|
            0 <= i < paths.len() && kinds[i] != PathKind::Other && packs(
                paths_entries(root, paths, kinds)[j],
                #[trigger] paths[i],
                kinds[i],
            ),
    decreases paths.len(),
{
    let before = paths_entries(root, paths.drop_last(), kinds);
    let all = paths_entries(root, paths, kinds);
    let n = paths.len() - 1;
    if j < before.len() {
        lemma_packed_was_selected(root, paths.drop_last(), kinds, j);
        let i = choose|i: int|
            0 <= i < paths.drop_last().len() && kinds[i] != PathKind::Other && packs(
                before[j],
                #[trigger] paths.drop_last()[i],
                kinds[i],
            );
        assert(paths[i] == paths.drop_last()[i]);
        assert(all[j] == before[j]);
    } else {
        assert(all[j] == path_entries(root, paths[n], kinds[n])[j - before.len()]);
        assert(packs(all[j], paths[n], kinds[n]));
    }
}

/// Nothing goes into the archive that was not selected, but for the directories on the way.
pub proof fn law_only_selected_paths_are_packed(
    paths: Seq<Seq<u8>>,
    kinds: Seq<PathKind>,
    dirs: Seq<Seq<PartView>>,
    plan: Seq<EntryView>,
    j: int,
)
    requires
        is_plan(paths, kinds, dirs, plan),
        0 <= j < plan.len(),
        plan[j].kind != EntryKind::Dir,
    ensures
        exists|i: int|
            0 <= i < paths.len() && kinds[i] != PathKind::Other && packs(
                plan[j],
                #[trigger] paths[i],
                kinds[i],
            ),
{
    let root = tree_root(all_parts(paths), kinds);
    let d = dir_entries(root, dirs);
    if j < d.len() {
        assert(plan[j] == d[j]);
        assert(d[j] == tree_dir_entry(root->0, dirs[j]));
    } else {
        assert(plan[j] == paths_entries(root, paths, kinds)[j - d.len()]);
        lemma_packed_was_selected(root, paths, kinds, j - d.len());
    }
}

/// Where the selection stands for no tree, everything goes into the archive under its own last
/// name; so it does where a directory was selected too.
pub proof fn law_names_without_a_tree(
    paths: Seq<Seq<u8>>,
    kinds: Seq<PathKind>,
    dirs: Seq<Seq<PartView>>,
    plan: Seq<EntryView>,
    i: int,
    d: int,
    name: Seq<char>,
)
    requires
        is_plan(paths, kinds, dirs, plan),
        0 <= i < paths.len(),
        kinds[i] != PathKind::Other,
        tree_root(all_parts(paths), kinds) is None || 0 <= d < kinds.len() && kinds[d]
            == PathKind::Dir,
        parts(paths[i]).len() > 0,
        parts(paths[i]).last() == PartView::Name(encode_utf8(name)),
    ensures
        exists|j: int|
            0 <= j < plan.len() && packs(#[trigger] plan[j], paths[i], kinds[i]) && plan[j].archive
                == encode_utf8(name),
{
    let root = tree_root(all_parts(paths), kinds);
    assert(root is None);
    let j = lemma_path_is_packed(root, paths, kinds, i);
    let k = dir_entries(root, dirs).len() + j;
    let e = paths_entries(root, paths, kinds)[j];
    assert(plan[k] == e);
    vstd::utf8::encode_utf8_valid_utf8(name);
    vstd::utf8::encode_utf8_decode_utf8(name);
    let own = path_entries(root, paths[i], kinds[i]);
    assert(own[0] == e) by {
        assert(seq![e][0] == e);
    }
}

/// Where the files of a selection stand for a tree, each goes into the archive at its place
/// under the tree's own directory: the name of that directory, then the way from it.
pub proof fn law_files_keep_their_places(
    paths: Seq<Seq<u8>>,
    kinds: Seq<PathKind>,
    dirs: Seq<Seq<PartView>>,
    plan: Seq<EntryView>,
    i: int,
    root: Seq<PartView>,
    way: Seq<PartView>,
)
    requires
        is_plan(paths, kinds, dirs, plan),
        tree_root(all_parts(paths), kinds) == Some(root),
        0 <= i < paths.len() == kinds.len(),
        parts(paths[i]) == root + way,
    ensures
        exists|j: int|
            0 <= j < plan.len() && packs(#[trigger] plan[j], paths[i], kinds[i]) && plan[j].archive
                == rendered(seq![root.last()] + way),
{
    let r = Some(root);
    assert(kinds[i] == PathKind::File);
    let c = parts(paths[i]);
    assert(root =~= c.take(root.len() as int));
    assert(c.skip(root.len() as int) =~= way);
    let j = lemma_path_is_packed(r, paths, kinds, i);
    let k = dir_entries(r, dirs).len() + j;
    let e = paths_entries(r, paths, kinds)[j];
    assert(plan[k] == e);
    let own = path_entries(r, paths[i], kinds[i]);
    assert(own[0] == e) by {
        assert(seq![e][0] == e);
    }
}

proof fn lemma_common_all(ds: Seq<Seq<PartView>>, h: Seq<PartView>)
    requires
        ds.len() > 0,
    ensures
        forall|i: int| 0 <= i < ds.len() ==> common_all(ds).is_prefix_of(#[trigger] ds[i]),
        (forall|i: int| 0 <= i < ds.len() ==> h.is_prefix_of(#[trigger] ds[i])) ==> h.is_prefix_of(
            common_all(ds),
        ),
    decreases ds.len(),
{
    if ds.len() == 1 {
        assert(ds[0] =~= ds[0].take(ds[0].len() as int));
    } else {
        let init = ds.drop_last();
        let a = common_all(init);
        lemma_common_all(init, h);
        crate::path::law_common_head_is_the_longest(a, ds.last(), h);
        let c = common_all(ds);
        assert forall|i: int| 0 <= i < ds.len() implies c.is_prefix_of(#[trigger] ds[i]) by {
            if i < init.len() {
                assert(a.is_prefix_of(init[i]));
                lemma_prefix_of_prefix(c, a, init[i]);
            }
        }
        if forall|i: int| 0 <= i < ds.len() ==> h.is_prefix_of(#[trigger] ds[i]) {
            assert forall|i: int| 0 <= i < init.len() implies h.is_prefix_of(#[trigger] init[i]) by {
                assert(init[i] == ds[i]);
            }
            assert(h.is_prefix_of(ds[ds.len() - 1]));
        }
    }
}

proof fn lemma_prefix_of_prefix(a: Seq<PartView>, b: Seq<PartView>, c: Seq<PartView>)
    requires
        a.is_prefix_of(b),
        b.is_prefix_of(c),
    ensures
        a.is_prefix_of(c),
{
    assert(a =~= c.take(a.len() as int)) by {
        assert(b =~= c.take(b.len() as int));
        assert(a =~= b.take(a.len() as int));
    }
}

proof fn lemma_parent_dirs(cs: Seq<Seq<PartView>>)
    requires
        forall|i: int| 0 <= i < cs.len() ==> has_parent(#[trigger] cs[i]),
    ensures
        parent_dirs(cs).len() == cs.len(),
        forall|i: int| 0 <= i < cs.len() ==> #[trigger] parent_dirs(cs)[i] == cs[i].drop_last(),
    decreases cs.len(),
{
    if cs.len() > 0 {
        let init = cs.drop_last();
        assert forall|i: int| 0 <= i < init.len() implies has_parent(#[trigger] init[i]) by {
            assert(init[i] == cs[i]);
        }
        lemma_parent_dirs(init);
        assert(has_parent(cs[cs.len() - 1]));
    }
}

/// Files stand for a tree where they lie in one directory and not all of them directly in it:
/// in the deepest directory, that is, in which all of them lie, with a name in UTF-8.
pub proof fn law_which_files_stand_for_a_tree(
    cs: Seq<Seq<PartView>>,
    kinds: Seq<PathKind>,
    root: Seq<PartView>,
    longer: Seq<PartView>,
    deep: int,
)
    requires
        cs.len() > 0,
        forall|i: int| 0 <= i < kinds.len() ==> #[trigger] kinds[i] == PathKind::File,
        forall|i: int| 0 <= i < cs.len() ==> has_parent(#[trigger] cs[i]) && root.is_prefix_of(
            cs[i].drop_last(),
        ),
    ensures
        match tree_root(cs, kinds) {
            Some(r) => root.is_prefix_of(r) && last_name_text(r) is Some && (forall|i: int|
                0 <= i < cs.len() ==> r.is_prefix_of((#[trigger] cs[i]).drop_last())) && exists|i: int|
                0 <= i < cs.len() && #[trigger] cs[i].len() > r.len() + 1,
            None => (forall|h: Seq<PartView>|
                (forall|i: int| 0 <= i < cs.len() ==> h.is_prefix_of((#[trigger] cs[i]).drop_last()))
                    ==> #[trigger] h.len() <= root.len()) && last_name_text(root) is Some ==> forall|
                i: int,
            |
                0 <= i < cs.len() ==> #[trigger] cs[i].len() <= root.len() + 1,
        },
{
    let ds = parent_dirs(cs);
    lemma_parent_dirs(cs);
    let r = common_all(ds);
    assert forall|i: int| 0 <= i < ds.len() implies root.is_prefix_of(#[trigger] ds[i]) by {
        assert(has_parent(cs[i]));
    }
    lemma_common_all(ds, root);
    assert forall|i: int| 0 <= i < cs.len() implies r.is_prefix_of((#[trigger] cs[i]).drop_last()) by {
        assert(r.is_prefix_of(ds[i]));
    }
    assert forall|i: int| 0 <= i < cs.len() implies under(r, #[trigger] cs[i]) by {
        assert(has_parent(cs[i]));
        let d = cs[i].drop_last();
        assert(r.is_prefix_of(d));
        assert(d =~= cs[i].take(d.len() as int));
        lemma_prefix_of_prefix(r, d, cs[i]);
    }
    if tree_root(cs, kinds) is None {
        if r.len() > root.len() {
            assert(!(forall|h: Seq<PartView>|
                (forall|i: int| 0 <= i < cs.len() ==> h.is_prefix_of((#[trigger] cs[i]).drop_last()))
                    ==> #[trigger] h.len() <= root.len())) by {
                assert(r.len() > root.len());
            }
        } else {
            assert(root =~= r);
            assert(!nested(r, cs) || last_name_text(root) is None);
            assert forall|i: int| 0 <= i < cs.len() && last_name_text(root) is Some implies #[trigger] cs[i].len()
                <= root.len() + 1 by {
                assert(under(r, cs[i]));
            }
        }
    }
}

/// A bundle of one path is named after it, and one of several paths that lie in one directory
/// after that directory; every name ends in `.tar`.
pub proof fn law_name_of_a_bundle(paths: Seq<Seq<u8>>, now: u64, dir: Seq<PartView>, name: Seq<char>)
    ensures
        ".tar"@.is_suffix_of(bundle_name(paths, now)),
        paths.len() == 1 && parts(paths[0]).len() > 0 && parts(paths[0]).last() == PartView::Name(
            encode_utf8(name),
        ) ==> bundle_name(paths, now) == name + ".tar"@,
        paths.len() > 1 && dir.len() > 0 && dir.last() == PartView::Name(encode_utf8(name)) && (
        forall|i: int|
            0 <= i < paths.len() ==> has_parent(#[trigger] parts(paths[i])) && parts(
                paths[i],
            ).drop_last() == dir) ==> bundle_name(paths, now) == name + ".tar"@,
{
    let cs = all_parts(paths);
    let b = bundle_name(paths, now);
    let t = ".tar"@;
    assert(t =~= b.subrange(b.len() - t.len(), b.len() as int));
    vstd::utf8::encode_utf8_valid_utf8(name);
    vstd::utf8::encode_utf8_decode_utf8(name);
    if paths.len() > 1 && forall|i: int|
        0 <= i < paths.len() ==> has_parent(#[trigger] parts(paths[i])) && parts(paths[i]).drop_last()
            == dir {
        assert forall|i: int| 0 <= i < cs.len() implies has_parent(#[trigger] cs[i])
            && cs[i].drop_last() == cs[0].drop_last() by {
            assert(cs[i] == parts(paths[i]));
            assert(cs[0] == parts(paths[0]));
        }
        assert(cs[0] == parts(paths[0]));
        assert(shared_parent(cs) == Some(dir));
    }
}

/// Every directory on the way to a file of a tree goes into the archive, at its place there.
pub proof fn law_directories_on_the_way_are_packed(
    paths: Seq<Seq<u8>>,
    kinds: Seq<PathKind>,
    dirs: Seq<Seq<PartView>>,
    plan: Seq<EntryView>,
    i: int,
    root: Seq<PartView>,
    way: Seq<PartView>,
    k: int,
)
    requires
        is_plan(paths, kinds, dirs, plan),
        tree_root(all_parts(paths), kinds) == Some(root),
        0 <= i < paths.len(),
        parts(paths[i]) == root + way,
        0 <= k < way.len(),
    ensures
        exists|j: int|
            0 <= j < plan.len() && (#[trigger] plan[j]).kind == EntryKind::Dir && plan[j].fs
                == rendered(root + way.take(k)) && plan[j].archive == rendered(
                seq![root.last()] + way.take(k),
            ),
{
    let cs = all_parts(paths);
    let d = seq![root.last()] + way.take(k);
    let c = parts(paths[i]);
    assert(cs[i] == c);
    assert(root =~= c.take(root.len() as int));
    if k == 0 {
        assert(d =~= seq![root.last()]);
    } else {
        assert(c.subrange(root.len() as int, root.len() + k) =~= way.take(k));
        assert(d == seq![root.last()] + cs[i].subrange(root.len() as int, root.len() + k));
    }
    assert(is_tree_dir(root, cs, d));
    assert(dirs.contains(d));
    let j = choose|j: int| 0 <= j < dirs.len() && dirs[j] == d;
    assert(plan[j] == tree_dir_entry(root, d));
    assert(d.skip(1) =~= way.take(k));
}

/// Paths that do not all lie in one directory give a bundle no name of theirs: it is named after
/// the time.
pub proof fn law_name_of_a_scattered_bundle(paths: Seq<Seq<u8>>, now: u64, i: int, j: int)
    requires
        paths.len() != 1,
        0 <= i < paths.len(),
        0 <= j < paths.len(),
        parts(paths[i]).drop_last() != parts(paths[j]).drop_last(),
    ensures
        bundle_name(paths, now) == "multicliprelay-bundle-"@ + decimal(now as nat) + ".tar"@,
{
    let cs = all_parts(paths);
    assert(cs[i] == parts(paths[i]));
    assert(cs[j] == parts(paths[j]));
    assert(shared_parent(cs) is None);
}

} // verus!
