//! File paths as bytes, and their components. Two paths are equal where their
//! components are; repeated slashes, a slash at the end and inner dots do not
//! count. Components are parted by slashes: a path of Windows is first brought to that form
//! by `from_windows`.

use crate::order::{lex, strict_total};
use vstd::prelude::*;

verus! {

/// One component of a path.
#[verifier::ext_equal]
pub enum PartView {
    Root,
    Cur,
    Up,
    Name(Seq<u8>),
}

/// One component of a path: the root, a leading dot, two dots, or a name.
#[derive(Debug)]
pub enum Part {
    Root,
    Cur,
    Up,
    Name(Vec<u8>),
}

impl View for Part {
    type V = PartView;

    open spec fn view(&self) -> PartView {
        match self {
            Part::Root => PartView::Root,
            Part::Cur => PartView::Cur,
            Part::Up => PartView::Up,
            Part::Name(n) => PartView::Name(n@),
        }
    }
}

impl DeepView for Part {
    type V = PartView;

    open spec fn deep_view(&self) -> PartView {
        self@
    }
}

/// The first slash in `p`, or its length.
pub open spec fn slash(p: Seq<u8>) -> nat
    decreases p.len(),
{
    if p.len() == 0 || p[0] == 47u8 {
        0
    } else {
        1 + slash(p.drop_first())
    }
}

/// What the text between two slashes contributes. A dot counts only at the start
/// of a relative path.
pub open spec fn piece(q: Seq<u8>, leading: bool) -> Seq<PartView> {
    if q.len() == 0 {
        Seq::empty()
    } else if q == seq![46u8] {
        if leading {
            seq![PartView::Cur]
        } else {
            Seq::empty()
        }
    } else if q == seq![46u8, 46u8] {
        seq![PartView::Up]
    } else {
        seq![PartView::Name(q)]
    }
}

proof fn lemma_slash(p: Seq<u8>)
    ensures
        slash(p) <= p.len(),
        forall|j: int| 0 <= j < slash(p) ==> p[j] != 47u8,
        slash(p) < p.len() ==> p[slash(p) as int] == 47u8,
    decreases p.len(),
{
    if p.len() > 0 && p[0] != 47u8 {
        let t = p.drop_first();
        lemma_slash(t);
        assert forall|j: int| 0 <= j < slash(p) implies p[j] != 47u8 by {
            if j > 0 {
                assert(t[j - 1] == p[j]);
            }
        }
    }
}

/// The components of a path without its root.
pub open spec fn body_parts(p: Seq<u8>, leading: bool) -> Seq<PartView>
    decreases p.len(),
{
    let i = slash(p) as int;
    if i >= p.len() {
        piece(p, leading)
    } else {
        piece(p.take(i), leading) + body_parts(p.skip(i + 1), false)
    }
}

/// The components of a path.
pub open spec fn parts(p: Seq<u8>) -> Seq<PartView> {
    if p.len() > 0 && p[0] == 47u8 {
        seq![PartView::Root] + body_parts(p.skip(1), false)
    } else {
        body_parts(p, true)
    }
}

/// A path with slashes in place of backslashes.
pub open spec fn with_slashes(p: Seq<u8>) -> Seq<u8> {
    p.map_values(|b: u8| if b == 92u8 { 47u8 } else { b })
}

/// A path of Windows in the form that has slashes between its components.
pub fn from_windows(p: &[u8]) -> (res: Vec<u8>)
    ensures
        res@ == with_slashes(p@),
{
    let mut out: Vec<u8> = Vec::new();
    let mut i: usize = 0;
    while i < p.len()
        invariant
            i <= p@.len(),
            out@ == with_slashes(p@.take(i as int)),
        decreases p@.len() - i,
    {
        assert(p@.take(i + 1) =~= p@.take(i as int).push(p@[i as int]));
        out.push(if p[i] == 92u8 { 47u8 } else { p[i] });
        assert(out@ =~= with_slashes(p@.take(i + 1)));
        i += 1;
    }
    assert(p@.take(i as int) =~= p@);
    out
}

fn copy_range(p: &[u8], from: usize, to: usize) -> (res: Vec<u8>)
    requires
        from <= to <= p@.len(),
    ensures
        res@ == p@.subrange(from as int, to as int),
{
    let mut out: Vec<u8> = Vec::new();
    out.extend_from_slice(vstd::slice::slice_subrange(p, from, to));
    assert(out@ =~= p@.subrange(from as int, to as int));
    out
}

/// Appends what the text `p[from..to]` between two slashes contributes.
fn push_piece(p: &[u8], from: usize, to: usize, leading: bool, out: &mut Vec<Part>)
    requires
        from <= to <= p@.len(),
    ensures
        final(out).deep_view() == old(out).deep_view() + piece(
            p@.subrange(from as int, to as int),
            leading,
        ),
{
    let ghost before = out.deep_view();
    let ghost q = p@.subrange(from as int, to as int);
    if from == to {
        assert(out.deep_view() =~= before + piece(q, leading));
        return;
    }
    if to - from == 1 && p[from] == 46u8 {
        assert(q =~= seq![46u8]);
        if leading {
            out.push(Part::Cur);
        }
        assert(out.deep_view() =~= before + piece(q, leading));
        return;
    }
    assert(to - from == 1 ==> q[0] == p@[from as int]);
    if to - from == 2 && p[from] == 46u8 && p[from + 1] == 46u8 {
        assert(q =~= seq![46u8, 46u8]);
        out.push(Part::Up);
        assert(out.deep_view() =~= before + piece(q, leading));
        return;
    }
    assert(to - from == 2 ==> q[0] == p@[from as int] && q[1] == p@[from + 1]);
    out.push(Part::Name(copy_range(p, from, to)));
    assert(out.deep_view() =~= before + piece(q, leading));
}

/// The components of a path.
pub fn parts_of(p: &[u8]) -> (res: Vec<Part>)
    ensures
        res.deep_view() == parts(p@),
{
    let mut out: Vec<Part> = Vec::new();
    let mut start: usize = 0;
    let mut leading: bool = true;
    if p.len() > 0 && p[0] == 47u8 {
        out.push(Part::Root);
        start = 1;
        leading = false;
        assert(out.deep_view() =~= seq![PartView::Root]);
    } else {
        assert(p@.skip(0) =~= p@);
        assert(out.deep_view() + body_parts(p@, true) =~= body_parts(p@, true));
    }
    loop
        invariant
            start <= p@.len(),
            parts(p@) == out.deep_view() + body_parts(p@.skip(start as int), leading),
        decreases p@.len() - start,
    {
        let ghost rest = p@.skip(start as int);
        let mut end: usize = start;
        while end < p.len() && p[end] != 47u8
            invariant
                start <= end <= p@.len(),
                rest == p@.skip(start as int),
                slash(rest) == (end - start) + slash(p@.skip(end as int)),
            decreases p@.len() - end,
        {
            assert(p@.skip(end as int).drop_first() =~= p@.skip(end + 1));
            end += 1;
        }
        let ghost before = out.deep_view();
        let ghost was_leading = leading;
        push_piece(p, start, end, leading, &mut out);
        assert(p@.subrange(start as int, end as int) =~= rest.take(end - start));
        if end == p.len() {
            assert(rest.take(end - start) =~= rest);
            return out;
        }
        assert(rest.skip(end - start + 1) =~= p@.skip(end + 1));
        assert(before + (piece(rest.take(end - start), was_leading) + body_parts(
            p@.skip(end + 1),
            false,
        )) =~= out.deep_view() + body_parts(p@.skip(end + 1), false));
        start = end + 1;
        leading = false;
    }
}

/// A component as it is written.
pub open spec fn part_bytes(c: PartView) -> Seq<u8> {
    match c {
        PartView::Root => seq![47u8],
        PartView::Cur => seq![46u8],
        PartView::Up => seq![46u8, 46u8],
        PartView::Name(n) => n,
    }
}

/// `a` followed by `b` as the rest of the path: a slash goes between them unless
/// `a` is empty or ends with one.
pub open spec fn glued(a: Seq<u8>, b: Seq<u8>) -> Seq<u8> {
    if a.len() == 0 || a.last() == 47u8 {
        a + b
    } else {
        a.push(47u8) + b
    }
}

/// Components as a path.
pub open spec fn rendered(cs: Seq<PartView>) -> Seq<u8>
    decreases cs.len(),
{
    if cs.len() == 0 {
        Seq::empty()
    } else {
        glued(rendered(cs.drop_last()), part_bytes(cs.last()))
    }
}

/// `b` inside the directory `a`; an absolute `b` stands alone.
pub open spec fn joined(a: Seq<u8>, b: Seq<u8>) -> Seq<u8> {
    if b.len() > 0 && b[0] == 47u8 {
        b
    } else {
        glued(a, b)
    }
}

fn glue(a: &mut Vec<u8>, b: &[u8])
    ensures
        final(a)@ == glued(old(a)@, b@),
{
    let ghost before = a@;
    let n = a.len();
    if n > 0 && a[n - 1] != 47u8 {
        a.push(47u8);
    }
    a.extend_from_slice(b);
    assert(a@ =~= glued(before, b@));
}

/// `b` inside the directory `a`; an absolute `b` stands alone.
pub fn join(a: &[u8], b: &[u8]) -> (res: Vec<u8>)
    ensures
        res@ == joined(a@, b@),
{
    if b.len() > 0 && b[0] == 47u8 {
        return crate::bytes::to_vec(b);
    }
    let mut out = crate::bytes::to_vec(a);
    glue(&mut out, b);
    out
}

/// The file or directory named `name` inside the directory `a`.
pub fn join_text(a: &[u8], name: &str) -> (res: Vec<u8>)
    ensures
        res@ == joined(a@, vstd::utf8::encode_utf8(name@)),
{
    join(a, name.as_bytes())
}

/// Components as a path.
pub fn render(cs: &Vec<Part>) -> (res: Vec<u8>)
    ensures
        res@ == rendered(cs.deep_view()),
{
    let mut out: Vec<u8> = Vec::new();
    let mut i: usize = 0;
    let ghost all = cs.deep_view();
    assert(all.take(0) =~= Seq::<PartView>::empty());
    while i < cs.len()
        invariant
            i <= cs@.len(),
            all == cs.deep_view(),
            all.len() == cs@.len(),
            out@ == rendered(all.take(i as int)),
        decreases cs@.len() - i,
    {
        let ghost next = all.take(i + 1);
        assert(next.drop_last() =~= all.take(i as int));
        assert(next.last() == cs@[i as int]@);
        match &cs[i] {
            Part::Root => {
                let b: Vec<u8> = vec![47u8];
                assert(b@ =~= seq![47u8]);
                glue(&mut out, b.as_slice());
            },
            Part::Cur => {
                let b: Vec<u8> = vec![46u8];
                assert(b@ =~= seq![46u8]);
                glue(&mut out, b.as_slice());
            },
            Part::Up => {
                let b: Vec<u8> = vec![46u8, 46u8];
                assert(b@ =~= seq![46u8, 46u8]);
                glue(&mut out, b.as_slice());
            },
            Part::Name(n) => {
                glue(&mut out, n.as_slice());
            },
        }
        i += 1;
    }
    assert(all.take(i as int) =~= all);
    out
}

/// A copy of a component.
pub fn copy_part(c: &Part) -> (res: Part)
    ensures
        res@ == c@,
{
    match c {
        Part::Root => Part::Root,
        Part::Cur => Part::Cur,
        Part::Up => Part::Up,
        Part::Name(n) => Part::Name(crate::bytes::to_vec(n.as_slice())),
    }
}

/// A copy of `cs[from..to]`.
pub fn copy_parts(cs: &Vec<Part>, from: usize, to: usize) -> (res: Vec<Part>)
    requires
        from <= to <= cs@.len(),
    ensures
        res.deep_view() == cs.deep_view().subrange(from as int, to as int),
{
    let mut out: Vec<Part> = Vec::new();
    let mut i: usize = from;
    let ghost all = cs.deep_view();
    while i < to
        invariant
            from <= i <= to <= cs@.len(),
            all == cs.deep_view(),
            out.deep_view() == all.subrange(from as int, i as int),
        decreases to - i,
    {
        let c = copy_part(&cs[i]);
        assert(c@ == all[i as int]);
        let ghost before = out.deep_view();
        out.push(c);
        assert(out.deep_view() =~= before.push(c@));
        assert(all.subrange(from as int, i + 1) =~= before.push(c@));
        i += 1;
    }
    out
}

/// Whether two components are equal.
pub fn same_part(a: &Part, b: &Part) -> (res: bool)
    ensures
        res == (a@ == b@),
{
    match (a, b) {
        (Part::Root, Part::Root) => true,
        (Part::Cur, Part::Cur) => true,
        (Part::Up, Part::Up) => true,
        (Part::Name(x), Part::Name(y)) => crate::bytes::same(x.as_slice(), y.as_slice()),
        _ => false,
    }
}

/// The longest common head of two component lists.
pub open spec fn common(a: Seq<PartView>, b: Seq<PartView>) -> Seq<PartView>
    decreases a.len(),
{
    if a.len() == 0 || b.len() == 0 || a[0] != b[0] {
        Seq::empty()
    } else {
        seq![a[0]] + common(a.drop_first(), b.drop_first())
    }
}

/// The length of the longest common head.
pub fn common_len(a: &Vec<Part>, b: &Vec<Part>) -> (res: usize)
    ensures
        res <= a@.len(),
        res <= b@.len(),
        common(a.deep_view(), b.deep_view()) == a.deep_view().take(res as int),
        a.deep_view().take(res as int) == b.deep_view().take(res as int),
        res < a@.len() && res < b@.len() ==> a.deep_view()[res as int] != b.deep_view()[res as int],
{
    let ghost x = a.deep_view();
    let ghost y = b.deep_view();
    let mut i: usize = 0;
    assert(x.skip(0) =~= x);
    assert(y.skip(0) =~= y);
    assert(x.take(0) + common(x, y) =~= common(x, y));
    while i < a.len() && i < b.len() && same_part(&a[i], &b[i])
        invariant
            x == a.deep_view(),
            y == b.deep_view(),
            x.len() == a@.len(),
            y.len() == b@.len(),
            i <= x.len(),
            i <= y.len(),
            x.take(i as int) == y.take(i as int),
            common(x, y) == x.take(i as int) + common(x.skip(i as int), y.skip(i as int)),
        decreases a@.len() - i,
    {
        assert(x[i as int] == y[i as int]);
        assert(x.skip(i as int).drop_first() =~= x.skip(i + 1));
        assert(y.skip(i as int).drop_first() =~= y.skip(i + 1));
        assert(x.take(i + 1) =~= x.take(i as int).push(x[i as int]));
        assert(y.take(i + 1) =~= y.take(i as int).push(y[i as int]));
        assert(x.take(i as int) + (seq![x[i as int]] + common(x.skip(i + 1), y.skip(i + 1)))
            =~= x.take(i + 1) + common(x.skip(i + 1), y.skip(i + 1)));
        i += 1;
    }
    assert(common(x, y) =~= x.take(i as int));
    i
}

/// Whether the components `p` begin with the components `root`.
pub fn has_prefix(p: &Vec<Part>, root: &Vec<Part>) -> (res: bool)
    ensures
        res == root.deep_view().is_prefix_of(p.deep_view()),
{
    let k = common_len(root, p);
    let ghost r = root.deep_view();
    let ghost q = p.deep_view();
    assert(r.take(r.len() as int) =~= r);
    if k < root.len() && k < p.len() {
        assert(r[k as int] != q[k as int]);
        assert(r.is_prefix_of(q) ==> r[k as int] == q.subrange(0, r.len() as int)[k as int]);
    }
    assert(k == r.len() ==> q.subrange(0, r.len() as int) =~= r);
    k == root.len()
}

/// Whether two component lists are equal.
pub fn same_parts(a: &Vec<Part>, b: &Vec<Part>) -> (res: bool)
    ensures
        res == (a.deep_view() == b.deep_view()),
{
    let k = common_len(a, b);
    assert(a.deep_view().take(a@.len() as int) =~= a.deep_view());
    assert(b.deep_view().take(b@.len() as int) =~= b.deep_view());
    k == a.len() && k == b.len()
}

/// The last component, where it is a name.
pub open spec fn last_name(cs: Seq<PartView>) -> Option<Seq<u8>> {
    if cs.len() == 0 {
        None
    } else {
        match cs.last() {
            PartView::Name(n) => Some(n),
            _ => None,
        }
    }
}

/// The last component, where it is a name.
pub fn last_name_of(cs: &Vec<Part>) -> (res: Option<Vec<u8>>)
    ensures
        match res {
            Some(n) => last_name(cs.deep_view()) == Some(n@),
            None => last_name(cs.deep_view()) is None,
        },
{
    let n = cs.len();
    if n == 0 {
        return None;
    }
    assert(cs.deep_view().last() == cs@[n - 1]@);
    match &cs[n - 1] {
        Part::Name(b) => Some(crate::bytes::to_vec(b.as_slice())),
        _ => None,
    }
}

/// The text of the last component, where it is a name in UTF-8.
pub open spec fn last_name_text(cs: Seq<PartView>) -> Option<Seq<char>> {
    match last_name(cs) {
        Some(n) => if vstd::utf8::valid_utf8(n) {
            Some(vstd::utf8::decode_utf8(n))
        } else {
            None
        },
        None => None,
    }
}

/// The text of the last component, where it is a name in UTF-8.
pub fn last_name_text_of(cs: &Vec<Part>) -> (res: Option<String>)
    ensures
        crate::wire::opt_text(res) == last_name_text(cs.deep_view()),
{
    match last_name_of(cs) {
        Some(n) => match crate::bytes::utf8_text(n.as_slice()) {
            Some(s) => Some(s.to_string()),
            None => None,
        },
        None => None,
    }
}

/// There is a directory that holds the path: it is neither empty nor the root.
pub open spec fn has_parent(cs: Seq<PartView>) -> bool {
    cs.len() > 0 && cs.last() != PartView::Root
}

/// Whether there is a directory that holds the path.
pub fn has_parent_exec(cs: &Vec<Part>) -> (res: bool)
    ensures
        res == has_parent(cs.deep_view()),
{
    let n = cs.len();
    if n == 0 {
        return false;
    }
    assert(cs.deep_view().last() == cs@[n - 1]@);
    !matches!(&cs[n - 1], Part::Root)
}

/// The extension of a file name: what follows its last dot, unless that dot is its
/// first character.
pub open spec fn extension(name: Seq<u8>) -> Option<Seq<u8>>
    decreases name.len(),
{
    let i = last_dot(name);
    if i <= 0 {
        None
    } else {
        Some(name.skip(i + 1))
    }
}

/// The position of the last dot, or -1.
pub open spec fn last_dot(name: Seq<u8>) -> int
    decreases name.len(),
{
    if name.len() == 0 {
        -1
    } else if name.last() == 46u8 {
        name.len() - 1
    } else {
        last_dot(name.drop_last())
    }
}

/// The extension of a file name.
pub fn extension_of(name: &[u8]) -> (res: Option<Vec<u8>>)
    ensures
        match res {
            Some(e) => extension(name@) == Some(e@),
            None => extension(name@) is None,
        },
{
    let mut i: usize = name.len();
    assert(name@.take(i as int) =~= name@);
    while i > 0 && name[i - 1] != 46u8
        invariant
            i <= name@.len(),
            last_dot(name@) == last_dot(name@.take(i as int)),
        decreases i,
    {
        assert(name@.take(i as int).drop_last() =~= name@.take(i - 1));
        i -= 1;
    }
    if i <= 1 {
        None
    } else {
        let e = copy_range(name, i, name.len());
        assert(e@ =~= name@.skip(i as int));
        Some(e)
    }
}

/// The place of a kind of component in the order.
pub open spec fn rank(c: PartView) -> int {
    match c {
        PartView::Root => 0,
        PartView::Cur => 1,
        PartView::Up => 2,
        PartView::Name(_) => 3,
    }
}

/// `a` comes before `b`: the root, a dot, two dots, then names by their bytes.
pub open spec fn part_less(a: PartView, b: PartView) -> bool {
    match (a, b) {
        (PartView::Name(x), PartView::Name(y)) => lex(x, y, |p: u8, q: u8| p < q),
        _ => rank(a) < rank(b),
    }
}

/// `a` comes before `b`, component by component.
pub open spec fn path_less(a: Seq<PartView>, b: Seq<PartView>) -> bool {
    lex(a, b, |p: PartView, q: PartView| part_less(p, q))
}

/// The order of components is total, and so is that of paths.
pub proof fn lemma_path_order()
    ensures
        strict_total(|a: PartView, b: PartView| part_less(a, b)),
        strict_total(|a: Seq<PartView>, b: Seq<PartView>| path_less(a, b)),
{
    let lt = |p: u8, q: u8| p < q;
    assert(strict_total(lt));
    crate::order::lemma_lex(lt);
    let names = |a: Seq<u8>, b: Seq<u8>| lex(a, b, lt);
    assert(strict_total(names));
    let pl = |a: PartView, b: PartView| part_less(a, b);
    assert forall|x: PartView| !#[trigger] part_less(x, x) by {
        if let PartView::Name(n) = x {
            assert(!names(n, n));
        }
    }
    assert forall|x: PartView, y: PartView, z: PartView| #[trigger]
        part_less(x, y) && #[trigger] part_less(y, z) implies part_less(x, z) by {
        match (x, y, z) {
            (PartView::Name(a), PartView::Name(b), PartView::Name(c)) => {
                assert(names(a, b) && names(b, c));
            },
            _ => {},
        }
    }
    assert forall|x: PartView, y: PartView| #[trigger]
        part_less(x, y) || part_less(y, x) || x == y by {
        match (x, y) {
            (PartView::Name(a), PartView::Name(b)) => {
                assert(names(a, b) || names(b, a) || a == b);
            },
            _ => {},
        }
    }
    assert(strict_total(pl));
    crate::order::lemma_lex(pl);
    let paths = |a: Seq<PartView>, b: Seq<PartView>| lex(a, b, pl);
    assert(strict_total(paths));
    assert(paths =~= (|a: Seq<PartView>, b: Seq<PartView>| path_less(a, b)));
}

fn bytes_less(a: &[u8], b: &[u8]) -> (res: bool)
    ensures
        res == lex(a@, b@, |p: u8, q: u8| p < q),
{
    let mut i: usize = 0;
    let ghost lt = |p: u8, q: u8| p < q;
    assert(a@.skip(0) =~= a@);
    assert(b@.skip(0) =~= b@);
    while i < a.len() && i < b.len() && a[i] == b[i]
        invariant
            i <= a@.len(),
            i <= b@.len(),
            lex(a@, b@, lt) == lex(a@.skip(i as int), b@.skip(i as int), lt),
        decreases a@.len() - i,
    {
        assert(a@.skip(i as int).drop_first() =~= a@.skip(i + 1));
        assert(b@.skip(i as int).drop_first() =~= b@.skip(i + 1));
        i += 1;
    }
    if i == b.len() {
        false
    } else if i == a.len() {
        true
    } else {
        a[i] < b[i]
    }
}

fn rank_of(c: &Part) -> (res: u8)
    ensures
        res == rank(c@),
{
    match c {
        Part::Root => 0,
        Part::Cur => 1,
        Part::Up => 2,
        Part::Name(_) => 3,
    }
}

/// Whether `a` comes before `b`, component by component.
pub fn comes_before(a: &Vec<Part>, b: &Vec<Part>) -> (res: bool)
    ensures
        res == path_less(a.deep_view(), b.deep_view()),
{
    let ghost x = a.deep_view();
    let ghost y = b.deep_view();
    let ghost lt = |p: PartView, q: PartView| part_less(p, q);
    let mut i: usize = 0;
    assert(x.skip(0) =~= x);
    assert(y.skip(0) =~= y);
    while i < a.len() && i < b.len() && same_part(&a[i], &b[i])
        invariant
            x == a.deep_view(),
            y == b.deep_view(),
            x.len() == a@.len(),
            y.len() == b@.len(),
            i <= x.len(),
            i <= y.len(),
            lex(x, y, lt) == lex(x.skip(i as int), y.skip(i as int), lt),
        decreases a@.len() - i,
    {
        assert(x[i as int] == y[i as int]);
        assert(x.skip(i as int).drop_first() =~= x.skip(i + 1));
        assert(y.skip(i as int).drop_first() =~= y.skip(i + 1));
        i += 1;
    }
    if i == b.len() {
        false
    } else if i == a.len() {
        true
    } else {
        assert(x[i as int] == a@[i as int]@);
        assert(y[i as int] == b@[i as int]@);
        match (&a[i], &b[i]) {
            (Part::Name(m), Part::Name(n)) => bytes_less(m.as_slice(), n.as_slice()),
            _ => rank_of(&a[i]) < rank_of(&b[i]),
        }
    }
}

/// A name that can stand between two slashes.
pub open spec fn is_name(n: Seq<u8>) -> bool {
    &&& n.len() > 0
    &&& !n.contains(47u8)
    &&& n != seq![46u8]
    &&& n != seq![46u8, 46u8]
}

/// Components as a path has them: the root and a dot only at the start, and names that can
/// stand between two slashes.
pub open spec fn are_parts(cs: Seq<PartView>) -> bool {
    forall|i: int|
        0 <= i < cs.len() ==> match #[trigger] cs[i] {
            PartView::Root => i == 0,
            PartView::Cur => i == 0,
            PartView::Up => true,
            PartView::Name(n) => is_name(n),
        }
}

/// What follows a slash is read by itself.
proof fn lemma_body_parts(a: Seq<u8>, b: Seq<u8>, leading: bool)
    ensures
        body_parts(a.push(47u8) + b, leading) == body_parts(a, leading) + body_parts(b, false),
    decreases a.len(),
{
    let all = a.push(47u8) + b;
    let i = slash(a) as int;
    lemma_slash(a);
    lemma_slash(all);
    assert(all[a.len() as int] == 47u8);
    if i >= a.len() {
        let j = slash(all) as int;
        if j < a.len() {
            assert(a[j] == 47u8);
        }
        assert(all.take(j) =~= a);
        assert(all.skip(j + 1) =~= b);
    } else {
        let j = slash(all) as int;
        assert(all[i] == 47u8);
        if j < i {
            assert(a[j] == 47u8);
        }
        assert(j == i);
        assert(all.take(i) =~= a.take(i));
        assert(all.skip(i + 1) =~= a.skip(i + 1).push(47u8) + b);
        lemma_body_parts(a.skip(i + 1), b, false);
        assert(piece(a.take(i), leading) + (body_parts(a.skip(i + 1), false) + body_parts(b, false))
            =~= body_parts(a, leading) + body_parts(b, false));
    }
}

/// One component is read as itself.
proof fn lemma_one_part(c: PartView, leading: bool)
    requires
        c != PartView::Root,
        c is Cur ==> leading,
        c is Name ==> is_name(c->0),
    ensures
        body_parts(part_bytes(c), leading) == seq![c],
        part_bytes(c).len() > 0,
        part_bytes(c)[0] != 47u8,
        part_bytes(c).last() != 47u8,
{
    let b = part_bytes(c);
    lemma_slash(b);
    assert(!b.contains(47u8));
    let i = slash(b) as int;
    if i < b.len() {
        assert(b[i] == 47u8);
    }
    if b[0] == 47u8 || b.last() == 47u8 {
        assert(b.contains(47u8));
    }
    assert(seq![46u8, 46u8].len() != seq![46u8].len());
}

/// A path that is made of components has those components.
pub proof fn law_rendered_parts_are_read_back(cs: Seq<PartView>)
    requires
        are_parts(cs),
    ensures
        parts(rendered(cs)) == cs,
        cs.len() > 0 ==> rendered(cs).len() > 0 && (rendered(cs)[0] == 47u8 <==> cs[0]
            == PartView::Root) && (rendered(cs).last() == 47u8 <==> cs == seq![PartView::Root]),
    decreases cs.len(),
{
    if cs.len() == 0 {
        assert(parts(rendered(cs)) =~= cs);
    } else {
        let init = cs.drop_last();
        let c = cs.last();
        assert(are_parts(init)) by {
            assert forall|i: int| 0 <= i < init.len() implies match #[trigger] init[i] {
                PartView::Root => i == 0,
                PartView::Cur => i == 0,
                PartView::Up => true,
                PartView::Name(n) => is_name(n),
            } by {
                assert(init[i] == cs[i]);
            }
        }
        law_rendered_parts_are_read_back(init);
        let r = rendered(init);
        let b = part_bytes(c);
        let all = rendered(cs);
        assert(cs[cs.len() - 1] == c);
        if c == PartView::Root {
            assert(cs.len() == 1);
            assert(init =~= Seq::<PartView>::empty());
            assert(all =~= seq![47u8]);
            assert(all.skip(1) =~= Seq::<u8>::empty());
            assert(parts(all) =~= seq![PartView::Root]);
            assert(cs =~= seq![PartView::Root]);
        } else if init.len() == 0 {
            lemma_one_part(c, true);
            assert(init =~= Seq::<PartView>::empty());
            assert(all =~= b);
            assert(cs =~= seq![c]);
        } else {
            lemma_one_part(c, false);
            assert(cs =~= init.push(c));
            assert(init[0] == cs[0]);
            if init == seq![PartView::Root] {
                lemma_root_alone(init);
                assert(r =~= seq![47u8]);
                assert(all =~= seq![47u8] + b);
                assert(all.skip(1) =~= b);
                assert(parts(all) =~= cs);
            } else {
                assert(all =~= r.push(47u8) + b);
                if r[0] == 47u8 {
                    assert(all.skip(1) =~= r.skip(1).push(47u8) + b);
                    lemma_body_parts(r.skip(1), b, false);
                    assert(parts(all) =~= parts(r) + seq![c]);
                } else {
                    lemma_body_parts(r, b, true);
                    assert(parts(all) =~= parts(r) + seq![c]);
                }
            }
        }
    }
}

/// What is named inside a directory lies directly in it: its components are those of the
/// directory and its name.
pub proof fn law_name_lies_in_its_directory(dir: Seq<u8>, name: Seq<u8>)
    requires
        is_name(name),
    ensures
        parts(joined(dir, name)) == parts(dir).push(PartView::Name(name)),
{
    let c = PartView::Name(name);
    let all = joined(dir, name);
    lemma_one_part(c, true);
    lemma_one_part(c, false);
    assert(all == glued(dir, name));
    if dir.len() == 0 {
        assert(all =~= name);
        assert(parts(dir) =~= Seq::<PartView>::empty());
        assert(parts(all) =~= parts(dir).push(c));
    } else if dir.len() == 1 && dir[0] == 47u8 {
        assert(all.skip(1) =~= name);
        assert(dir.skip(1) =~= Seq::<u8>::empty());
        assert(parts(all) =~= parts(dir).push(c));
    } else {
        let d = if dir.last() == 47u8 {
            dir.drop_last()
        } else {
            dir
        };
        assert(all =~= d.push(47u8) + name);
        if dir[0] == 47u8 {
            let e = d.skip(1);
            assert(all.skip(1) =~= e.push(47u8) + name);
            lemma_body_parts(e, name, false);
            if dir.last() == 47u8 {
                assert(dir.skip(1) =~= e.push(47u8) + Seq::<u8>::empty());
                lemma_body_parts(e, Seq::empty(), false);
                assert(body_parts(dir.skip(1), false) =~= body_parts(e, false));
            }
            assert(parts(all) =~= parts(dir).push(c));
        } else {
            lemma_body_parts(d, name, true);
            if dir.last() == 47u8 {
                assert(dir =~= d.push(47u8) + Seq::<u8>::empty());
                lemma_body_parts(d, Seq::empty(), true);
                assert(body_parts(dir, true) =~= body_parts(d, true));
            }
            assert(parts(all) =~= parts(dir).push(c));
        }
    }
}

/// The root alone is one slash.
proof fn lemma_root_alone(cs: Seq<PartView>)
    requires
        cs == seq![PartView::Root],
    ensures
        rendered(cs) == seq![47u8],
{
    assert(cs.drop_last() =~= Seq::<PartView>::empty());
    assert(cs.last() == PartView::Root);
    assert(rendered(cs.drop_last()) =~= Seq::<u8>::empty());
    assert(rendered(cs) =~= seq![47u8]);
}

/// The components of a path are such as a path has.
pub proof fn law_parts_are_parts(p: Seq<u8>)
    ensures
        are_parts(parts(p)),
{
    if p.len() > 0 && p[0] == 47u8 {
        lemma_body_is_parts(p.skip(1), false);
    } else {
        lemma_body_is_parts(p, true);
    }
}

proof fn lemma_body_is_parts(p: Seq<u8>, leading: bool)
    ensures
        forall|i: int|
            0 <= i < body_parts(p, leading).len() ==> match #[trigger] body_parts(p, leading)[i] {
                PartView::Root => false,
                PartView::Cur => leading && i == 0,
                PartView::Up => true,
                PartView::Name(n) => is_name(n),
            },
    decreases p.len(),
{
    lemma_slash(p);
    let i = slash(p) as int;
    if i < p.len() {
        lemma_body_is_parts(p.skip(i + 1), false);
        assert forall|j: int| 0 <= j < p.take(i).len() implies p.take(i)[j] != 47u8 by {}
    }
}

/// The extension of a name follows its last dot, where something stands before that dot.
pub proof fn law_extension(stem: Seq<u8>, e: Seq<u8>)
    requires
        !e.contains(46u8),
    ensures
        extension(stem.push(46u8) + e) == if stem.len() > 0 {
            Some(e)
        } else {
            None::<Seq<u8>>
        },
        extension(e) is None,
    decreases e.len(),
{
    let name = stem.push(46u8) + e;
    lemma_last_dot(stem, e);
    assert(name.skip(stem.len() as int + 1) =~= e);
}

proof fn lemma_last_dot(stem: Seq<u8>, e: Seq<u8>)
    requires
        !e.contains(46u8),
    ensures
        last_dot(stem.push(46u8) + e) == stem.len(),
        last_dot(e) == -1,
    decreases e.len(),
{
    let name = stem.push(46u8) + e;
    if e.len() > 0 {
        let f = e.drop_last();
        assert(e[e.len() - 1] != 46u8);
        assert(!f.contains(46u8)) by {
            if f.contains(46u8) {
                let k = choose|k: int| 0 <= k < f.len() && f[k] == 46u8;
                assert(e[k] == 46u8);
            }
        }
        lemma_last_dot(stem, f);
        assert(name.drop_last() =~= stem.push(46u8) + f);
    } else {
        assert(name =~= stem.push(46u8));
    }
}

/// The common head of two paths heads both of them, and no longer one does.
pub proof fn law_common_head_is_the_longest(a: Seq<PartView>, b: Seq<PartView>, h: Seq<PartView>)
    ensures
        common(a, b).is_prefix_of(a),
        common(a, b).is_prefix_of(b),
        h.is_prefix_of(a) && h.is_prefix_of(b) ==> h.is_prefix_of(common(a, b)),
    decreases a.len(),
{
    if !(a.len() == 0 || b.len() == 0 || a[0] != b[0]) {
        let c = common(a.drop_first(), b.drop_first());
        law_common_head_is_the_longest(
            a.drop_first(),
            b.drop_first(),
            if h.len() > 0 {
                h.drop_first()
            } else {
                h
            },
        );
        assert(seq![a[0]] + c =~= a.take(c.len() as int + 1));
        assert(seq![a[0]] + c =~= b.take(c.len() as int + 1));
        if h.len() > 0 && h.is_prefix_of(a) && h.is_prefix_of(b) {
            let t = h.drop_first();
            assert(t =~= a.drop_first().take(t.len() as int));
            assert(t =~= b.drop_first().take(t.len() as int));
            assert(h[0] == a.take(h.len() as int)[0]);
            assert(h =~= (seq![a[0]] + c).take(h.len() as int)) by {
                assert(t =~= c.take(t.len() as int));
                assert(h =~= seq![h[0]] + t);
            }
        }
    } else if h.len() > 0 && h.is_prefix_of(a) && h.is_prefix_of(b) {
        assert(h[0] == a.take(h.len() as int)[0]);
        assert(h[0] == b.take(h.len() as int)[0]);
    }
}

/// A path that starts at the root is not put inside a directory; any other follows the
/// directory's own bytes.
pub proof fn law_what_is_joined(dir: Seq<u8>, p: Seq<u8>)
    ensures
        p.len() > 0 && p[0] == 47u8 ==> joined(dir, p) == p,
        !(p.len() > 0 && p[0] == 47u8) ==> dir.is_prefix_of(joined(dir, p)) && p.is_suffix_of(
            joined(dir, p),
        ) && joined(dir, p).len() <= dir.len() + p.len() + 1,
{
    let j = joined(dir, p);
    if !(p.len() > 0 && p[0] == 47u8) {
        assert(dir =~= j.take(dir.len() as int));
        assert(p =~= j.subrange(j.len() - p.len(), j.len() as int));
    }
}

/// Slashes stand for backslashes, and everything else stays.
pub proof fn law_slashes_for_backslashes(p: Seq<u8>, i: int)
    requires
        0 <= i < p.len(),
    ensures
        with_slashes(p).len() == p.len(),
        p[i] == 92u8 ==> with_slashes(p)[i] == 47u8,
        p[i] != 92u8 ==> with_slashes(p)[i] == p[i],
{
}

} // verus!
