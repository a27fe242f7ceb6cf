//! Owning the X11 clipboard: the answers to requests for its content.

use crate::order::increasing;
use vstd::prelude::*;

verus! {

/// The atom that stands for none.
pub const NONE: u32 = 0;

/// How much of a large payload goes into one piece.
pub const CHUNK_BYTES: usize = 65536;

/// How long a transfer in pieces may take, in milliseconds.
pub const TRANSFER_TIMEOUT_MS: u64 = 5000;

/// The content for each type, by the type's atom, in increasing order of the atoms.
pub struct Payloads {
    list: Vec<(u32, Vec<u8>)>,
}

spec fn at<A>(l: Seq<(u32, A)>, i: int, a: u32) -> bool {
    0 <= i < l.len() && l[i].0 == a
}

spec fn present<A>(l: Seq<(u32, A)>, a: u32) -> bool {
    exists|i: int| at(l, i, a)
}

impl View for Payloads {
    type V = Map<u32, Seq<u8>>;

    closed spec fn view(&self) -> Map<u32, Seq<u8>> {
        Map::new(
            |a: u32| present(self.list@, a),
            |a: u32| self.list@[choose|i: int| at(self.list@, i, a)].1@,
        )
    }
}

impl Payloads {
    /// The atoms stand in increasing order.
    pub closed spec fn wf(&self) -> bool {
        forall|i: int, j: int|
            0 <= i < j < self.list@.len() ==> (#[trigger] self.list@[i]).0 < (
            #[trigger] self.list@[j]).0
    }

    /// No content.
    pub fn new() -> (res: Payloads)
        ensures
            res.wf(),
            res@ == Map::<u32, Seq<u8>>::empty(),
    {
        let res = Payloads { list: Vec::new() };
        assert forall|a: u32| !present(res.list@, a) by {}
        assert(res@ =~= Map::<u32, Seq<u8>>::empty());
        res
    }

    proof fn lemma_at(&self, i: int)
        requires
            self.wf(),
            0 <= i < self.list@.len(),
        ensures
            self@.contains_key(self.list@[i].0),
            self@[self.list@[i].0] == self.list@[i].1@,
    {
        let a = self.list@[i].0;
        assert(at(self.list@, i, a));
        let c = choose|c: int| at(self.list@, c, a);
        assert(at(self.list@, c, a));
        if c < i {
            assert(self.list@[c].0 < self.list@[i].0);
        } else if i < c {
            assert(self.list@[i].0 < self.list@[c].0);
        }
    }

    /// Where `atom` stands, or where it would.
    fn find(&self, atom: u32) -> (res: usize)
        requires
            self.wf(),
        ensures
            res <= self.list@.len(),
            forall|i: int| 0 <= i < res ==> (#[trigger] self.list@[i]).0 < atom,
            res < self.list@.len() ==> self.list@[res as int].0 >= atom,
            self@.contains_key(atom) <==> res < self.list@.len() && self.list@[res as int].0
                == atom,
            self@.contains_key(atom) ==> self@[atom] == self.list@[res as int].1@,
    {
        let mut i: usize = 0;
        while i < self.list.len() && self.list[i].0 < atom
            invariant
                i <= self.list@.len(),
                forall|j: int| 0 <= j < i ==> (#[trigger] self.list@[j]).0 < atom,
            decreases self.list@.len() - i,
        {
            i += 1;
        }
        proof {
            if i < self.list@.len() && self.list@[i as int].0 == atom {
                self.lemma_at(i as int);
            }
            if self@.contains_key(atom) {
                let c = choose|c: int| at(self.list@, c, atom);
                assert(at(self.list@, c, atom));
                if c > i {
                    assert(self.list@[i as int].0 < self.list@[c].0);
                }
            }
        }
        i
    }

    /// The content for `atom`.
    pub fn get(&self, atom: u32) -> (res: Option<&Vec<u8>>)
        requires
            self.wf(),
        ensures
            match res {
                Some(b) => self@.contains_key(atom) && self@[atom] == b@,
                None => !self@.contains_key(atom),
            },
    {
        let i = self.find(atom);
        if i < self.list.len() && self.list[i].0 == atom {
            Some(&self.list[i].1)
        } else {
            None
        }
    }

    /// Puts content at `atom`, in place of what was there.
    pub fn insert(&mut self, atom: u32, bytes: Vec<u8>)
        requires
            old(self).wf(),
        ensures
            final(self).wf(),
            final(self)@ == old(self)@.insert(atom, bytes@),
    {
        let ghost before = *self;
        let i = self.find(atom);
        if i < self.list.len() && self.list[i].0 == atom {
            self.list.set(i, (atom, bytes));
            proof {
                let after = *self;
                assert(after.wf()) by {
                    assert forall|x: int, y: int| 0 <= x < y < after.list@.len() implies (
                    #[trigger] after.list@[x]).0 < (#[trigger] after.list@[y]).0 by {
                        assert(before.list@[x].0 < before.list@[y].0);
                    }
                }
                assert forall|a: u32|
                    after@.contains_key(a) == before@.insert(atom, bytes@).contains_key(a) by {
                    if after@.contains_key(a) {
                        let c = choose|c: int| at(after.list@, c, a);
                        assert(at(before.list@, c, a));
                    }
                    if before@.contains_key(a) {
                        let c = choose|c: int| at(before.list@, c, a);
                        assert(at(after.list@, c, a));
                    }
                    assert(at(after.list@, i as int, atom));
                }
                assert forall|a: u32| after@.contains_key(a) implies after@[a] == before@.insert(
                    atom,
                    bytes@,
                )[a] by {
                    let c = choose|c: int| at(after.list@, c, a);
                    after.lemma_at(c);
                    before.lemma_at(c);
                }
                assert(after@ =~= before@.insert(atom, bytes@));
            }
        } else {
            self.list.insert(i, (atom, bytes));
            proof {
                let after = *self;
                assert(after.list@ =~= before.list@.insert(i as int, (atom, bytes)));
                assert(after.wf()) by {
                    assert forall|x: int, y: int| 0 <= x < y < after.list@.len() implies (
                    #[trigger] after.list@[x]).0 < (#[trigger] after.list@[y]).0 by {
                        let p = if x < i {
                            x
                        } else {
                            x - 1
                        };
                        let q = if y < i {
                            y
                        } else {
                            y - 1
                        };
                        if x != i && y != i {
                            assert(before.list@[p].0 < before.list@[q].0);
                        } else if x == i {
                            if q > i {
                                assert(before.list@[i as int].0 < before.list@[q].0);
                            }
                        } else {
                            assert(before.list@[p].0 < atom);
                        }
                    }
                }
                assert forall|a: u32|
                    after@.contains_key(a) == before@.insert(atom, bytes@).contains_key(a) by {
                    if after@.contains_key(a) {
                        let c = choose|c: int| at(after.list@, c, a);
                        if c < i {
                            assert(at(before.list@, c, a));
                        } else if c > i {
                            assert(at(before.list@, c - 1, a));
                        }
                    }
                    if before@.contains_key(a) {
                        let c = choose|c: int| at(before.list@, c, a);
                        if c < i {
                            assert(at(after.list@, c, a));
                        } else {
                            assert(at(after.list@, c + 1, a));
                        }
                    }
                    assert(at(after.list@, i as int, atom));
                }
                assert forall|a: u32| after@.contains_key(a) implies after@[a] == before@.insert(
                    atom,
                    bytes@,
                )[a] by {
                    let c = choose|c: int| at(after.list@, c, a);
                    after.lemma_at(c);
                    if c < i {
                        before.lemma_at(c);
                    } else if c > i {
                        before.lemma_at(c - 1);
                    }
                }
                assert(after@ =~= before@.insert(atom, bytes@));
            }
        }
    }

    /// The atoms that have content, in increasing order.
    fn atoms(&self) -> (res: Vec<u32>)
        requires
            self.wf(),
        ensures
            increasing(res@, |a: u32, b: u32| a < b),
            forall|a: u32| res@.contains(a) <==> self@.contains_key(a),
    {
        let mut out: Vec<u32> = Vec::new();
        let mut i: usize = 0;
        while i < self.list.len()
            invariant
                i <= self.list@.len(),
                out@.len() == i,
                forall|j: int| 0 <= j < i ==> #[trigger] out@[j] == self.list@[j].0,
            decreases self.list@.len() - i,
        {
            out.push(self.list[i].0);
            i += 1;
        }
        proof {
            assert forall|a: u32| out@.contains(a) <==> self@.contains_key(a) by {
                if out@.contains(a) {
                    let j = choose|j: int| 0 <= j < out@.len() && out@[j] == a;
                    self.lemma_at(j);
                }
                if self@.contains_key(a) {
                    let c = choose|c: int| at(self.list@, c, a);
                    assert(at(self.list@, c, a));
                    assert(out@[c] == a);
                }
            }
        }
        out
    }
}

/// The content of items that were given one after the other; a later one takes the
/// place of an earlier one.
pub open spec fn collected(items: Seq<(u32, Seq<u8>)>) -> Map<u32, Seq<u8>>
    decreases items.len(),
{
    if items.len() == 0 {
        Map::empty()
    } else {
        collected(items.drop_last()).insert(items.last().0, items.last().1)
    }
}

/// The content of items, with an entry for the list of targets in any case.
pub open spec fn with_targets(m: Map<u32, Seq<u8>>, targets: u32) -> Map<u32, Seq<u8>> {
    if m.contains_key(targets) {
        m
    } else {
        m.insert(targets, Seq::empty())
    }
}

/// Items as atoms and bytes.
pub open spec fn item_pairs(items: Seq<(u32, Vec<u8>)>) -> Seq<(u32, Seq<u8>)> {
    Seq::new(items.len(), |i: int| (items[i].0, items[i].1@))
}

/// The content of items, given by the atoms of their types.
pub fn collect(items: Vec<(u32, Vec<u8>)>, targets: u32) -> (res: Payloads)
    ensures
        res.wf(),
        res@ == with_targets(collected(item_pairs(items@)), targets),
{
    let ghost all = item_pairs(items@);
    let mut out = Payloads::new();
    let mut i: usize = 0;
    assert(all.take(0) =~= Seq::<(u32, Seq<u8>)>::empty());
    while i < items.len()
        invariant
            i <= items@.len(),
            all == item_pairs(items@),
            out.wf(),
            out@ == collected(all.take(i as int)),
        decreases items@.len() - i,
    {
        assert(all.take(i + 1).drop_last() =~= all.take(i as int));
        out.insert(items[i].0, crate::bytes::to_vec(items[i].1.as_slice()));
        i += 1;
    }
    assert(all.take(i as int) =~= all);
    if out.get(targets).is_none() {
        let empty: Vec<u8> = Vec::new();
        assert(empty@ =~= Seq::<u8>::empty());
        out.insert(targets, empty);
    }
    out
}

/// The atoms of the requests that are answered in a way of their own.
#[derive(Clone, Copy, Debug, PartialEq, Eq, Structural)]
pub struct Atoms {
    pub targets: u32,
    pub multiple: u32,
    pub timestamp: u32,
    pub incr: u32,
}

/// The type of a property.
#[derive(Clone, Copy, Debug, PartialEq, Eq, Structural)]
pub enum PropertyType {
    Atom,
    Integer,
    Other(u32),
}

/// The value of a property.
#[verifier::ext_equal]
pub enum ValueView {
    Words(Seq<u32>),
    Bytes(Seq<u8>),
}

/// The value of a property: numbers of 32 bits, or bytes.
#[derive(Debug)]
pub enum Value {
    Words(Vec<u32>),
    Bytes(Vec<u8>),
}

impl View for Value {
    type V = ValueView;

    open spec fn view(&self) -> ValueView {
        match self {
            Value::Words(w) => ValueView::Words(w@),
            Value::Bytes(b) => ValueView::Bytes(b@),
        }
    }
}

/// A value to be put into a property.
#[verifier::ext_equal]
pub struct WriteView {
    pub property: u32,
    pub ptype: PropertyType,
    pub value: ValueView,
}

/// A value to be put into a property.
#[derive(Debug)]
pub struct Write {
    pub property: u32,
    pub ptype: PropertyType,
    pub value: Value,
}

impl View for Write {
    type V = WriteView;

    open spec fn view(&self) -> WriteView {
        WriteView { property: self.property, ptype: self.ptype, value: self.value@ }
    }
}

/// `list` is what can be asked for, in increasing order and each once: what has
/// content, the list itself, and the time.
pub open spec fn is_target_list(m: Map<u32, Seq<u8>>, atoms: Atoms, list: Seq<u32>) -> bool {
    &&& increasing(list, |a: u32, b: u32| a < b)
    &&& forall|a: u32|
        list.contains(a) <==> m.contains_key(a) || a == atoms.targets || a == atoms.timestamp
}

/// Adds `x` to an increasing list, unless it is there.
fn insert_sorted(list: &mut Vec<u32>, x: u32)
    requires
        increasing(old(list)@, |a: u32, b: u32| a < b),
    ensures
        increasing(final(list)@, |a: u32, b: u32| a < b),
        forall|a: u32| final(list)@.contains(a) <==> old(list)@.contains(a) || a == x,
{
    let ghost before = list@;
    let mut i: usize = 0;
    while i < list.len() && list[i] < x
        invariant
            i <= list@.len(),
            before == list@,
            forall|j: int| 0 <= j < i ==> before[j] < x,
        decreases list@.len() - i,
    {
        i += 1;
    }
    if i < list.len() && list[i] == x {
        assert(before.contains(x));
        return;
    }
    list.insert(i, x);
    proof {
        let after = list@;
        let lt = |a: u32, b: u32| a < b;
        assert(after =~= before.insert(i as int, x));
        assert forall|p: int, q: int| 0 <= p < q < after.len() implies lt(
            #[trigger] after[p],
            #[trigger] after[q],
        ) by {
            let u = if p < i {
                p
            } else {
                p - 1
            };
            let v = if q < i {
                q
            } else {
                q - 1
            };
            if p != i && q != i {
                assert(lt(before[u], before[v]));
            } else if p == i && v > i {
                assert(lt(before[i as int], before[v]));
            }
        }
        assert forall|a: u32| after.contains(a) <==> before.contains(a) || a == x by {
            if before.contains(a) {
                let k = choose|k: int| 0 <= k < before.len() && before[k] == a;
                if k < i {
                    assert(after[k] == a);
                } else {
                    assert(after[k + 1] == a);
                }
            }
            assert(after[i as int] == x);
            if after.contains(a) && a != x {
                let k = choose|k: int| 0 <= k < after.len() && after[k] == a;
                if k < i {
                    assert(before[k] == a);
                } else {
                    assert(before[k - 1] == a);
                }
            }
        }
    }
}

/// What can be asked for.
pub fn target_list(payloads: &Payloads, atoms: Atoms) -> (res: Vec<u32>)
    requires
        payloads.wf(),
    ensures
        is_target_list(payloads@, atoms, res@),
{
    let mut list = payloads.atoms();
    insert_sorted(&mut list, atoms.targets);
    insert_sorted(&mut list, atoms.timestamp);
    list
}

/// The list of targets is the same whoever makes it.
pub proof fn law_target_list_is_unique(
    m: Map<u32, Seq<u8>>,
    atoms: Atoms,
    a: Seq<u32>,
    b: Seq<u32>,
)
    requires
        is_target_list(m, atoms, a),
        is_target_list(m, atoms, b),
    ensures
        a == b,
{
    let lt = |x: u32, y: u32| x < y;
    assert(crate::order::strict_total(lt));
    crate::order::law_increasing_is_unique(a, b, lt);
}

/// The property that an answer goes to: where none is named, the one that is called
/// like the target.
pub open spec fn answer_property(target: u32, property: u32) -> u32 {
    if property == NONE {
        target
    } else {
        property
    }
}

/// The answer to a request.
#[derive(Debug)]
pub enum Answer {
    /// The property holds a list of further requests.
    Multiple(u32),
    /// The value is put into the property, and that is told.
    Direct(Write),
    /// The value announces a transfer in pieces; that is told, and the transfer starts.
    InPieces(Write),
    /// The target is not known. That is told, and the clipboard is claimed again.
    Refuse,
}

/// `w` answers a request for `target` at once.
pub open spec fn is_direct(
    m: Map<u32, Seq<u8>>,
    atoms: Atoms,
    target: u32,
    property: u32,
    max_direct: nat,
    w: WriteView,
) -> bool {
    &&& w.property == property
    &&& if target == atoms.targets {
        &&& w.ptype == PropertyType::Atom
        &&& w.value is Words
        &&& is_target_list(m, atoms, w.value->Words_0)
    } else if target == atoms.timestamp {
        &&& w.ptype == PropertyType::Integer
        &&& w.value == ValueView::Words(seq![0u32])
    } else {
        &&& m.contains_key(target)
        &&& m[target].len() <= max_direct
        &&& w.ptype == PropertyType::Other(target)
        &&& w.value == ValueView::Bytes(m[target])
    }
}

/// The length of a payload as it is announced: in 32 bits, or the most they hold.
pub open spec fn announced(len: nat) -> u32 {
    if len > u32::MAX {
        u32::MAX
    } else {
        len as u32
    }
}

/// `a` is the answer to a request for `target` into `property`.
pub open spec fn is_answer(
    m: Map<u32, Seq<u8>>,
    atoms: Atoms,
    target: u32,
    property: u32,
    max_direct: nat,
    a: Answer,
) -> bool {
    let p = answer_property(target, property);
    if target == atoms.multiple {
        a == Answer::Multiple(p)
    } else if target == atoms.targets || target == atoms.timestamp || m.contains_key(target)
        && m[target].len() <= max_direct {
        a is Direct && is_direct(m, atoms, target, p, max_direct, a->Direct_0@)
    } else if m.contains_key(target) {
        a is InPieces && a->InPieces_0@ == (WriteView {
            property: p,
            ptype: PropertyType::Other(atoms.incr),
            value: ValueView::Words(seq![announced(m[target].len())]),
        })
    } else {
        a is Refuse
    }
}

fn one_word(n: u32) -> (res: Value)
    ensures
        res@ == ValueView::Words(seq![n]),
{
    let w: Vec<u32> = vec![n];
    assert(w@ =~= seq![n]);
    Value::Words(w)
}

/// The answer to a request for `target`, into `property`.
pub fn answer(payloads: &Payloads, atoms: Atoms, target: u32, property: u32, max_direct: usize) -> (res:
    Answer)
    requires
        payloads.wf(),
    ensures
        is_answer(payloads@, atoms, target, property, max_direct as nat, res),
{
    let p = if property == NONE {
        target
    } else {
        property
    };
    if target == atoms.multiple {
        return Answer::Multiple(p);
    }
    match direct(payloads, atoms, target, p, max_direct) {
        Some(w) => Answer::Direct(w),
        None => match payloads.get(target) {
            Some(b) => {
                let n: u32 = if b.len() as u64 > 0xFFFF_FFFF {
                    0xFFFF_FFFF
                } else {
                    b.len() as u32
                };
                Answer::InPieces(
                    Write {
                        property: p,
                        ptype: PropertyType::Other(atoms.incr),
                        value: one_word(n),
                    },
                )
            },
            None => Answer::Refuse,
        },
    }
}

/// What answers a request at once, where that can be done.
fn direct(payloads: &Payloads, atoms: Atoms, target: u32, property: u32, max_direct: usize) -> (res:
    Option<Write>)
    requires
        payloads.wf(),
    ensures
        match res {
            Some(w) => is_direct(payloads@, atoms, target, property, max_direct as nat, w@),
            None => target != atoms.targets && target != atoms.timestamp && !(
            payloads@.contains_key(target) && payloads@[target].len() <= max_direct),
        },
{
    if target == atoms.targets {
        let list = target_list(payloads, atoms);
        return Some(Write { property, ptype: PropertyType::Atom, value: Value::Words(list) });
    }
    if target == atoms.timestamp {
        return Some(Write { property, ptype: PropertyType::Integer, value: one_word(0) });
    }
    match payloads.get(target) {
        Some(b) => if b.len() <= max_direct {
            Some(
                Write {
                    property,
                    ptype: PropertyType::Other(target),
                    value: Value::Bytes(crate::bytes::to_vec(b.as_slice())),
                },
            )
        } else {
            None
        },
        None => None,
    }
}

/// The requests in a property: pairs of a target and a property. There are none where
/// the property does not hold numbers of 32 bits, or an odd number of them.
pub open spec fn pairs(format: u8, words: Seq<u32>) -> Option<Seq<(u32, u32)>> {
    if format != 32 || words.len() % 2 != 0 {
        None
    } else {
        Some(Seq::new(words.len() / 2, |i: int| (words[2 * i], words[2 * i + 1])))
    }
}

/// The requests in a property.
pub fn pairs_of(format: u8, words: &Vec<u32>) -> (res: Option<Vec<(u32, u32)>>)
    ensures
        match res {
            Some(p) => pairs(format, words@) == Some(p@),
            None => pairs(format, words@) is None,
        },
{
    if format != 32 || words.len() % 2 != 0 {
        return None;
    }
    let mut out: Vec<(u32, u32)> = Vec::new();
    let mut i: usize = 0;
    while i < words.len()
        invariant
            i <= words@.len(),
            i % 2 == 0,
            words@.len() % 2 == 0,
            out@.len() * 2 == i,
            forall|j: int| 0 <= j < out@.len() ==> #[trigger] out@[j] == (words@[2 * j], words@[2 * j + 1]),
        decreases words@.len() - i,
    {
        out.push((words[i], words[i + 1]));
        i += 2;
    }
    assert(out@ =~= pairs(format, words@)->0);
    Some(out)
}

/// What is done for one of several requests: nothing where it names no property, and
/// nothing for what cannot be answered at once.
#[derive(Debug)]
pub enum Part {
    /// The pair stays as it is.
    Keep,
    /// The pair's property becomes none.
    Fail,
    /// The value is put into the property; where that fails, the pair's property
    /// becomes none.
    Write(Write),
}

/// `part` is what is done for the request `(target, property)`.
pub open spec fn is_part(
    m: Map<u32, Seq<u8>>,
    atoms: Atoms,
    target: u32,
    property: u32,
    max_direct: nat,
    part: Part,
) -> bool {
    if property == NONE {
        part is Keep
    } else if target == atoms.targets || target == atoms.timestamp || m.contains_key(target)
        && m[target].len() <= max_direct {
        part is Write && is_direct(m, atoms, target, property, max_direct, part->Write_0@)
    } else {
        part is Fail
    }
}

/// What is done for each of several requests.
pub fn parts_of(
    payloads: &Payloads,
    atoms: Atoms,
    requests: &Vec<(u32, u32)>,
    max_direct: usize,
) -> (res: Vec<Part>)
    requires
        payloads.wf(),
    ensures
        res@.len() == requests@.len(),
        forall|i: int|
            0 <= i < res@.len() ==> is_part(
                payloads@,
                atoms,
                requests@[i].0,
                requests@[i].1,
                max_direct as nat,
                #[trigger] res@[i],
            ),
{
    let mut out: Vec<Part> = Vec::new();
    let mut i: usize = 0;
    while i < requests.len()
        invariant
            payloads.wf(),
            i <= requests@.len(),
            out@.len() == i,
            forall|j: int|
                0 <= j < i ==> is_part(
                    payloads@,
                    atoms,
                    requests@[j].0,
                    requests@[j].1,
                    max_direct as nat,
                    #[trigger] out@[j],
                ),
        decreases requests@.len() - i,
    {
        let (t, p) = requests[i];
        if p == NONE {
            out.push(Part::Keep);
        } else {
            match direct(payloads, atoms, t, p, max_direct) {
                Some(w) => {
                    out.push(Part::Write(w));
                },
                None => {
                    out.push(Part::Fail);
                },
            }
        }
        i += 1;
    }
    out
}

/// The answer to several requests: their pairs, with none as the property of those that
/// failed. `written` tells for each whether its value was put into its property.
pub open spec fn outcome(requests: Seq<(u32, u32)>, parts: Seq<Part>, written: Seq<bool>) -> Seq<u32> {
    Seq::new(
        requests.len() * 2,
        |i: int|
            if i % 2 == 0 {
                requests[i / 2].0
            } else if parts[i / 2] is Keep || parts[i / 2] is Write && written[i / 2] {
                requests[i / 2].1
            } else {
                NONE
            },
    )
}

/// The answer to several requests.
pub fn outcome_of(requests: &Vec<(u32, u32)>, parts: &Vec<Part>, written: &Vec<bool>) -> (res: Vec<
    u32,
>)
    requires
        parts@.len() == requests@.len(),
        written@.len() == requests@.len(),
    ensures
        res@ == outcome(requests@, parts@, written@),
{
    let ghost want = outcome(requests@, parts@, written@);
    let mut out: Vec<u32> = Vec::new();
    let mut i: usize = 0;
    while i < requests.len()
        invariant
            i <= requests@.len(),
            parts@.len() == requests@.len(),
            written@.len() == requests@.len(),
            want == outcome(requests@, parts@, written@),
            out@ == want.take(2 * i),
        decreases requests@.len() - i,
    {
        let (t, p) = requests[i];
        let kept = match &parts[i] {
            Part::Keep => true,
            Part::Fail => false,
            Part::Write(_) => written[i],
        };
        assert((2 * i) / 2 == i && (2 * i) % 2 == 0);
        assert((2 * i + 1) / 2 == i && (2 * i + 1) % 2 == 1);
        assert(want[2 * i] == t);
        out.push(t);
        if kept {
            out.push(p);
            assert(want[2 * i + 1] == p);
        } else {
            out.push(NONE);
            assert(want[2 * i + 1] == NONE);
        }
        assert(out@ =~= want.take(2 * (i + 1)));
        i += 1;
    }
    assert(want.take(2 * i) =~= want);
    out
}

/// The most bytes that are put into a property at once, given the longest request in
/// units of four bytes: some room is left, and at least 8 KiB are allowed.
pub open spec fn max_direct(units: nat) -> nat {
    let bytes = units * 4;
    if bytes < 1024 + 8192 {
        8192
    } else {
        (bytes - 1024) as nat
    }
}

/// The most bytes that are put into a property at once. The server gives the longest
/// request in 16 bits.
pub fn max_direct_bytes(units: u16) -> (res: usize)
    ensures
        res == max_direct(units as nat),
{
    let bytes: usize = units as usize * 4;
    if bytes < 1024 + 8192 {
        8192
    } else {
        bytes - 1024
    }
}

/// A payload that is transferred in pieces.
pub struct Transfer {
    offset: usize,
    len: usize,
}

/// What a transfer does next.
#[derive(Clone, Copy, Debug, PartialEq, Eq, Structural)]
pub enum Piece {
    /// Hand over the bytes from the first position up to the second.
    Data(usize, usize),
    /// Hand over no bytes, which ends the transfer.
    End,
}

impl Transfer {
    /// How much has been handed over.
    pub closed spec fn offset(&self) -> nat {
        self.offset as nat
    }

    /// The length of the payload.
    pub closed spec fn len(&self) -> nat {
        self.len as nat
    }

    /// No more has been handed over than there is.
    pub closed spec fn wf(&self) -> bool {
        self.offset <= self.len
    }

    /// A transfer of which nothing has been handed over.
    pub fn new(len: usize) -> (res: Transfer)
        ensures
            res.wf(),
            res.offset() == 0,
            res.len() == len,
    {
        Transfer { offset: 0, len }
    }

    /// The next piece, once the last one has been taken.
    pub fn next(&mut self) -> (res: Piece)
        requires
            old(self).wf(),
        ensures
            final(self).wf(),
            final(self).len() == old(self).len(),
            final(self).offset() == piece_end(old(self).offset(), old(self).len()),
            res == next_piece(old(self).offset(), old(self).len()),
    {
        if self.offset == self.len {
            return Piece::End;
        }
        let start = self.offset;
        let end: usize = if self.len - start > CHUNK_BYTES {
            start + CHUNK_BYTES
        } else {
            self.len
        };
        self.offset = end;
        Piece::Data(start, end)
    }
}

/// What happens while a payload is transferred.
#[derive(Clone, Copy, Debug, PartialEq, Eq, Structural)]
pub enum TransferEvent {
    /// Another program owns the clipboard now.
    Cleared,
    /// A property of a window changed; `deleted` tells that it is gone.
    Property { window: u32, atom: u32, deleted: bool },
    /// Something else, or nothing.
    Other,
}

/// What is done while a payload is transferred.
#[derive(Clone, Copy, Debug, PartialEq, Eq, Structural)]
pub enum TransferStep {
    /// It takes too long: the transfer is given up, and the clipboard is claimed again.
    GiveUp,
    /// The clipboard is lost, and with it the transfer.
    Lost,
    /// Nothing yet.
    Wait,
    /// The piece is handed over.
    Hand(Piece),
}

/// What is done when something happens, `elapsed_ms` after the start. The reader is ready
/// for the next piece when it has deleted the property.
pub open spec fn transfer_step(
    elapsed_ms: u64,
    requestor: u32,
    property: u32,
    event: TransferEvent,
    next: Piece,
) -> TransferStep {
    if elapsed_ms > TRANSFER_TIMEOUT_MS {
        TransferStep::GiveUp
    } else {
        match event {
            TransferEvent::Cleared => TransferStep::Lost,
            TransferEvent::Property { window, atom, deleted } => if window == requestor && atom
                == property && deleted {
                TransferStep::Hand(next)
            } else {
                TransferStep::Wait
            },
            TransferEvent::Other => TransferStep::Wait,
        }
    }
}

/// The piece that follows after `offset` of `len` bytes.
pub open spec fn next_piece(offset: nat, len: nat) -> Piece {
    if offset == len {
        Piece::End
    } else {
        Piece::Data(offset as usize, piece_end(offset, len) as usize)
    }
}

impl Transfer {
    /// Takes what happens, `elapsed_ms` after the start of the transfer into `property`
    /// of the window `requestor`.
    pub fn on_event(&mut self, elapsed_ms: u64, requestor: u32, property: u32, event: TransferEvent) -> (res:
        TransferStep)
        requires
            old(self).wf(),
        ensures
            final(self).wf(),
            final(self).len() == old(self).len(),
            res == transfer_step(
                elapsed_ms,
                requestor,
                property,
                event,
                next_piece(old(self).offset(), old(self).len()),
            ),
            final(self).offset() == if res is Hand {
                piece_end(old(self).offset(), old(self).len())
            } else {
                old(self).offset()
            },
    {
        if elapsed_ms > TRANSFER_TIMEOUT_MS {
            return TransferStep::GiveUp;
        }
        match event {
            TransferEvent::Cleared => TransferStep::Lost,
            TransferEvent::Property { window, atom, deleted } => if window == requestor && atom
                == property && deleted {
                TransferStep::Hand(self.next())
            } else {
                TransferStep::Wait
            },
            TransferEvent::Other => TransferStep::Wait,
        }
    }
}

/// Where the piece that starts at `from` ends.
pub open spec fn piece_end(from: nat, len: nat) -> nat {
    if len - from > CHUNK_BYTES {
        from + CHUNK_BYTES as nat
    } else {
        len
    }
}

/// The pieces that are handed over from `from` on.
pub open spec fn pieces_from(b: Seq<u8>, from: nat) -> Seq<Seq<u8>>
    decreases b.len() - from,
{
    if from >= b.len() {
        Seq::empty()
    } else {
        let end = piece_end(from, b.len());
        seq![b.subrange(from as int, end as int)] + pieces_from(b, end)
    }
}

/// Pieces one after the other.
pub open spec fn glued(ps: Seq<Seq<u8>>) -> Seq<u8>
    decreases ps.len(),
{
    if ps.len() == 0 {
        Seq::empty()
    } else {
        ps[0] + glued(ps.drop_first())
    }
}

/// The pieces of a transfer put together are the payload, and none of them is empty: the
/// empty one ends the transfer.
pub proof fn law_pieces_make_the_payload(b: Seq<u8>, from: nat)
    requires
        from <= b.len(),
    ensures
        glued(pieces_from(b, from)) == b.skip(from as int),
        forall|i: int|
            0 <= i < pieces_from(b, from).len() ==> 0 < (#[trigger] pieces_from(b, from)[i]).len()
                <= CHUNK_BYTES,
    decreases b.len() - from,
{
    let ps = pieces_from(b, from);
    if from < b.len() {
        let end = piece_end(from, b.len());
        law_pieces_make_the_payload(b, end);
        let rest = pieces_from(b, end);
        assert(ps.drop_first() =~= rest);
        assert(b.subrange(from as int, end as int) + b.skip(end as int) =~= b.skip(from as int));
        assert forall|i: int| 0 <= i < ps.len() implies 0 < (#[trigger] ps[i]).len()
            <= CHUNK_BYTES by {
            if i > 0 {
                assert(ps[i] == rest[i - 1]);
            }
        }
    } else {
        assert(b.skip(from as int) =~= Seq::<u8>::empty());
    }
}

/// A request for content is answered with that content, as it is, in the type that was asked
/// for: at once where it is not too long, else in pieces, of whose total length the answer
/// tells. It goes to the property that the request names, or to the one called like the type.
pub proof fn law_content_is_handed_over(
    m: Map<u32, Seq<u8>>,
    atoms: Atoms,
    target: u32,
    property: u32,
    max: nat,
    a: Answer,
)
    requires
        is_answer(m, atoms, target, property, max, a),
        m.contains_key(target),
        target != atoms.multiple,
        target != atoms.targets,
        target != atoms.timestamp,
    ensures
        ({
            let p = if property == 0 {
                target
            } else {
                property
            };
            if m[target].len() <= max {
                a matches Answer::Direct(w) && w@.property == p && w@.ptype == PropertyType::Other(
                    target,
                ) && w@.value == ValueView::Bytes(m[target])
            } else {
                a matches Answer::InPieces(w) && w@.property == p && w@.ptype
                    == PropertyType::Other(atoms.incr) && w@.value is Words
                    && w@.value->Words_0.len() == 1 && (m[target].len() <= 4294967295
                    ==> w@.value->Words_0[0] == m[target].len())
            }
        }),
{
}

/// A request for the list of types is answered with every type that has content, and a
/// request for what is not known is refused.
pub proof fn law_types_are_listed(
    m: Map<u32, Seq<u8>>,
    atoms: Atoms,
    target: u32,
    property: u32,
    max: nat,
    a: Answer,
    t: u32,
)
    requires
        is_answer(m, atoms, target, property, max, a),
        target != atoms.multiple,
    ensures
        target == atoms.targets ==> (a matches Answer::Direct(w) && w@.ptype == PropertyType::Atom
            && (w@.value matches ValueView::Words(list) && (m.contains_key(t) ==> list.contains(t))
            && list.contains(atoms.targets))),
        target != atoms.targets && target != atoms.timestamp && !m.contains_key(target)
            ==> a is Refuse,
{
}

/// Of the items that are given, each has its bytes under its own type, unless a later one has
/// the same type; and no type has content that was not given.
pub proof fn law_items_are_kept(items: Seq<(u32, Seq<u8>)>, targets: u32, i: int, atom: u32)
    requires
        0 <= i < items.len(),
        forall|j: int| i < j < items.len() ==> (#[trigger] items[j]).0 != items[i].0,
    ensures
        with_targets(collected(items), targets).contains_key(items[i].0),
        with_targets(collected(items), targets)[items[i].0] == items[i].1,
        with_targets(collected(items), targets).contains_key(targets),
        with_targets(collected(items), targets).contains_key(atom) ==> atom == targets || exists|
            j: int,
        |
            0 <= j < items.len() && (#[trigger] items[j]).0 == atom,
    decreases items.len(),
{
    lemma_collected(items, i, atom);
}

proof fn lemma_collected(items: Seq<(u32, Seq<u8>)>, i: int, atom: u32)
    requires
        0 <= i < items.len() ==> forall|j: int|
            i < j < items.len() ==> (#[trigger] items[j]).0 != items[i].0,
    ensures
        0 <= i < items.len() ==> collected(items).contains_key(items[i].0) && collected(
            items,
        )[items[i].0] == items[i].1,
        collected(items).contains_key(atom) ==> exists|j: int|
            0 <= j < items.len() && (#[trigger] items[j]).0 == atom,
    decreases items.len(),
{
    if items.len() > 0 {
        let init = items.drop_last();
        assert(0 <= i < init.len() ==> forall|j: int|
            i < j < init.len() ==> (#[trigger] init[j]).0 != init[i].0) by {
            if 0 <= i < init.len() {
                assert forall|j: int| i < j < init.len() implies (#[trigger] init[j]).0
                    != init[i].0 by {
                    assert(init[j] == items[j]);
                }
            }
        }
        lemma_collected(init, i, atom);
        let n = items.len() - 1;
        assert(items[n] == items.last());
        if 0 <= i < n {
            assert(items[n].0 != items[i].0);
        }
        if collected(items).contains_key(atom) && atom != items.last().0 {
            let j = choose|j: int| 0 <= j < init.len() && (#[trigger] init[j]).0 == atom;
            assert(items[j].0 == atom);
        }
    }
}

/// The requests in a property are the pairs that it holds, in order; what is no list of pairs
/// holds none.
pub proof fn law_requests_come_in_pairs(words: Seq<u32>, i: int)
    requires
        words.len() % 2 == 0,
        0 <= i < words.len() / 2,
    ensures
        pairs(32, words) matches Some(p) && p.len() * 2 == words.len() && p[i] == (
            words[2 * i],
            words[2 * i + 1],
        ),
        pairs(32, words.push(0)) is None,
        pairs(8, words) is None && pairs(16, words) is None,
{
}

/// The answer to several requests keeps each of them in its place, with its property where the
/// content was put there and none where it was not.
pub proof fn law_each_request_gets_its_answer(
    requests: Seq<(u32, u32)>,
    parts: Seq<Part>,
    written: Seq<bool>,
    i: int,
)
    requires
        0 <= i < requests.len(),
    ensures
        outcome(requests, parts, written).len() == 2 * requests.len(),
        outcome(requests, parts, written)[2 * i] == requests[i].0,
        parts[i] is Write ==> outcome(requests, parts, written)[2 * i + 1] == if written[i] {
            requests[i].1
        } else {
            0
        },
        parts[i] is Fail ==> outcome(requests, parts, written)[2 * i + 1] == 0,
        parts[i] is Keep ==> outcome(requests, parts, written)[2 * i + 1] == requests[i].1,
{
    let o = outcome(requests, parts, written);
    assert((2 * i) / 2 == i && (2 * i) % 2 == 0);
    assert((2 * i + 1) / 2 == i && (2 * i + 1) % 2 == 1);
    assert(o[2 * i] == requests[i].0);
}

/// Of several requests, one for content that is not too long is written, as it is; one for
/// what is not known or is too long fails.
pub proof fn law_parts_of_several_requests(
    m: Map<u32, Seq<u8>>,
    atoms: Atoms,
    target: u32,
    property: u32,
    max: nat,
    part: Part,
)
    requires
        is_part(m, atoms, target, property, max, part),
        property != 0,
        target != atoms.targets,
        target != atoms.timestamp,
    ensures
        m.contains_key(target) && m[target].len() <= max ==> (part matches Part::Write(w)
            && w@.property == property && w@.ptype == PropertyType::Other(target) && w@.value
            == ValueView::Bytes(m[target])),
        !m.contains_key(target) || m[target].len() > max ==> part is Fail,
{
}

/// What is put into a property at once leaves 1024 bytes of the longest request, and is 8192
/// bytes where the server takes less.
pub proof fn law_room_in_a_request(units: nat)
    ensures
        units * 4 >= 9216 ==> max_direct(units) + 1024 == units * 4,
        units * 4 < 9216 ==> max_direct(units) == 8192,
{
}

/// A transfer goes on when the last piece was taken from the property, for five seconds; it
/// ends when another owns the clipboard.
pub proof fn law_transfer_goes_on(
    elapsed: u64,
    requestor: u32,
    property: u32,
    event: TransferEvent,
    next: Piece,
)
    ensures
        ({
            let s = transfer_step(elapsed, requestor, property, event, next);
            let taken = event matches TransferEvent::Property { window, atom, deleted } && window
                == requestor && atom == property && deleted;
            &&& elapsed > 5000 <==> s is GiveUp
            &&& elapsed <= 5000 && taken ==> s == TransferStep::Hand(next)
            &&& elapsed <= 5000 && event is Cleared ==> s is Lost
            &&& elapsed <= 5000 && !taken && event !is Cleared ==> s is Wait
        }),
{
}

/// A piece starts where the last one ended, and has 65536 bytes or what is left; the end comes
/// when all has been handed over and not before.
pub proof fn law_next_piece(offset: nat, len: nat)
    requires
        offset <= len <= usize::MAX,
    ensures
        match next_piece(offset, len) {
            Piece::End => offset == len,
            Piece::Data(a, b) => offset < len && a == offset && b == piece_end(offset, len) && (b - a
                == 65536 && b <= len || b - a < 65536 && b == len),
        },
{
}

/// Items keep their types, their bytes and their order.
pub proof fn law_pairs_of_items(items: Seq<(u32, Vec<u8>)>, i: int)
    requires
        0 <= i < items.len(),
    ensures
        item_pairs(items).len() == items.len(),
        item_pairs(items)[i] == (items[i].0, items[i].1@),
{
}

/// A request for the time is answered with zero, as one number.
pub proof fn law_time_is_answered(
    m: Map<u32, Seq<u8>>,
    atoms: Atoms,
    property: u32,
    max: nat,
    a: Answer,
)
    requires
        is_answer(m, atoms, atoms.timestamp, property, max, a),
        atoms.timestamp != atoms.multiple,
        atoms.timestamp != atoms.targets,
    ensures
        a matches Answer::Direct(w) && w@.ptype == PropertyType::Integer && w@.value
            == ValueView::Words(seq![0u32]),
{
}

/// A request for several things at once is taken from the property that it names.
pub proof fn law_several_requests_are_read(
    m: Map<u32, Seq<u8>>,
    atoms: Atoms,
    property: u32,
    max: nat,
    a: Answer,
)
    requires
        is_answer(m, atoms, atoms.multiple, property, max, a),
    ensures
        property != 0 ==> a == Answer::Multiple(property),
        property == 0 ==> a == Answer::Multiple(atoms.multiple),
{
}

} // verus!
