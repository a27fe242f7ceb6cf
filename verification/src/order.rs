//! Lexicographic order, and lists kept in strictly increasing order.

use vstd::prelude::*;

verus! {

/// `lt` is the strict part of a total order.
pub open spec fn strict_total<A>(lt: spec_fn(A, A) -> bool) -> bool {
    &&& forall|x: A| !#[trigger] lt(x, x)
    &&& forall|x: A, y: A, z: A| #[trigger] lt(x, y) && #[trigger] lt(y, z) ==> lt(x, z)
    &&& forall|x: A, y: A| #[trigger] lt(x, y) || lt(y, x) || x == y
}

/// `a` comes before `b` in lexicographic order over `lt`.
pub open spec fn lex<A>(a: Seq<A>, b: Seq<A>, lt: spec_fn(A, A) -> bool) -> bool
    decreases a.len(),
{
    if b.len() == 0 {
        false
    } else if a.len() == 0 {
        true
    } else if a[0] == b[0] {
        lex(a.drop_first(), b.drop_first(), lt)
    } else {
        lt(a[0], b[0])
    }
}

proof fn lemma_lex_irreflexive<A>(a: Seq<A>, lt: spec_fn(A, A) -> bool)
    ensures
        !lex(a, a, lt),
    decreases a.len(),
{
    if a.len() > 0 {
        lemma_lex_irreflexive(a.drop_first(), lt);
    }
}

proof fn lemma_lex_transitive<A>(a: Seq<A>, b: Seq<A>, c: Seq<A>, lt: spec_fn(A, A) -> bool)
    requires
        strict_total(lt),
        lex(a, b, lt),
        lex(b, c, lt),
    ensures
        lex(a, c, lt),
    decreases a.len(),
{
    if a.len() > 0 {
        if a[0] == b[0] && b[0] == c[0] {
            lemma_lex_transitive(a.drop_first(), b.drop_first(), c.drop_first(), lt);
        } else if a[0] == b[0] || b[0] == c[0] {
        } else {
            assert(lt(a[0], b[0]) && lt(b[0], c[0]));
            if a[0] == c[0] {
                assert(lt(a[0], a[0]));
            }
        }
    }
}

proof fn lemma_lex_total<A>(a: Seq<A>, b: Seq<A>, lt: spec_fn(A, A) -> bool)
    requires
        strict_total(lt),
    ensures
        lex(a, b, lt) || lex(b, a, lt) || a == b,
    decreases a.len(),
{
    if a.len() > 0 && b.len() > 0 {
        if a[0] == b[0] {
            lemma_lex_total(a.drop_first(), b.drop_first(), lt);
            if a.drop_first() == b.drop_first() {
                assert(a =~= seq![a[0]] + a.drop_first());
                assert(b =~= seq![b[0]] + b.drop_first());
            }
        } else {
            assert(lt(a[0], b[0]) || lt(b[0], a[0]));
        }
    } else if a.len() == 0 && b.len() == 0 {
        assert(a =~= b);
    }
}

/// Lexicographic order over a total order is total.
pub proof fn lemma_lex<A>(lt: spec_fn(A, A) -> bool)
    requires
        strict_total(lt),
    ensures
        strict_total(|a: Seq<A>, b: Seq<A>| lex(a, b, lt)),
{
    assert forall|a: Seq<A>| !lex(a, a, lt) by {
        lemma_lex_irreflexive(a, lt);
    }
    assert forall|a: Seq<A>, b: Seq<A>, c: Seq<A>| lex(a, b, lt) && lex(b, c, lt) implies lex(
        a,
        c,
        lt,
    ) by {
        lemma_lex_transitive(a, b, c, lt);
    }
    assert forall|a: Seq<A>, b: Seq<A>| lex(a, b, lt) || lex(b, a, lt) || a == b by {
        lemma_lex_total(a, b, lt);
    }
}

/// Each element comes before every later one.
pub open spec fn increasing<A>(s: Seq<A>, lt: spec_fn(A, A) -> bool) -> bool {
    forall|i: int, j: int| 0 <= i < j < s.len() ==> lt(#[trigger] s[i], #[trigger] s[j])
}

/// An increasing list is determined by its elements.
pub proof fn law_increasing_is_unique<A>(s: Seq<A>, t: Seq<A>, lt: spec_fn(A, A) -> bool)
    requires
        strict_total(lt),
        increasing(s, lt),
        increasing(t, lt),
        forall|x: A| s.contains(x) <==> t.contains(x),
    ensures
        s == t,
    decreases s.len(),
{
    if s.len() == 0 {
        if t.len() > 0 {
            assert(t.contains(t[0]));
            assert(s.contains(t[0]));
        }
        assert(s =~= t);
    } else {
        assert(s.contains(s[0]));
        assert(t.contains(s[0]));
        let i = choose|i: int| 0 <= i < t.len() && t[i] == s[0];
        assert(t.contains(t[0]));
        assert(s.contains(t[0]));
        let j = choose|j: int| 0 <= j < s.len() && s[j] == t[0];
        if i > 0 {
            assert(lt(t[0], t[i]));
            if j > 0 {
                assert(lt(s[0], s[j]));
                assert(lt(t[0], t[0]));
            }
        }
        assert(s[0] == t[0]);
        let a = s.drop_first();
        let b = t.drop_first();
        assert forall|x: A| a.contains(x) <==> b.contains(x) by {
            if a.contains(x) {
                let k = choose|k: int| 0 <= k < a.len() && a[k] == x;
                assert(s[k + 1] == x);
                assert(s.contains(x));
                assert(lt(s[0], s[k + 1]));
                let m = choose|m: int| 0 <= m < t.len() && t[m] == x;
                assert(m != 0);
                assert(b[m - 1] == x);
            }
            if b.contains(x) {
                let k = choose|k: int| 0 <= k < b.len() && b[k] == x;
                assert(t[k + 1] == x);
                assert(t.contains(x));
                assert(lt(t[0], t[k + 1]));
                let m = choose|m: int| 0 <= m < s.len() && s[m] == x;
                assert(m != 0);
                assert(a[m - 1] == x);
            }
        }
        law_increasing_is_unique(a, b, lt);
        assert(s =~= seq![s[0]] + a);
        assert(t =~= seq![t[0]] + b);
    }
}

/// In lexicographic order the first difference decides, and what ends first comes first.
pub proof fn law_first_difference_decides<A>(
    head: Seq<A>,
    x: A,
    s: Seq<A>,
    y: A,
    t: Seq<A>,
    lt: spec_fn(A, A) -> bool,
)
    ensures
        x != y ==> lex(head + seq![x] + s, head + seq![y] + t, lt) == lt(x, y),
        lex(head, head + seq![x] + s, lt),
        !lex(head + seq![x] + s, head, lt),
    decreases head.len(),
{
    let a = head + seq![x] + s;
    let b = head + seq![y] + t;
    if head.len() == 0 {
        assert(a[0] == x && b[0] == y);
    } else {
        let h = head.drop_first();
        law_first_difference_decides(h, x, s, y, t, lt);
        assert(a.drop_first() =~= h + seq![x] + s);
        assert(b.drop_first() =~= h + seq![y] + t);
        assert(a[0] == head[0] && b[0] == head[0]);
    }
}

} // verus!
