//! Reachability along a step relation.
use vstd::prelude::*;

verus! {

/// Whether place `i` of a path leads to the next one.
pub open spec fn link<S>(step: spec_fn(S, S) -> bool, p: Seq<S>, i: int) -> bool {
    step(p[i], p[i + 1])
}

/// Whether each place of `p` leads to the next one.
pub open spec fn is_path<S>(step: spec_fn(S, S) -> bool, p: Seq<S>) -> bool {
    &&& p.len() > 0
    &&& forall|i: int| 0 <= i < p.len() - 1 ==> #[trigger] link(step, p, i)
}

/// Whether `p` leads from `a` to `b`.
pub open spec fn leads<S>(step: spec_fn(S, S) -> bool, p: Seq<S>, a: S, b: S) -> bool {
    is_path(step, p) && p[0] == a && p.last() == b
}

/// Whether some path leads from `a` to `b`.
pub open spec fn reaches<S>(step: spec_fn(S, S) -> bool, a: S, b: S) -> bool {
    exists|p: Seq<S>| #[trigger] leads(step, p, a, b)
}

pub proof fn lemma_reach_self<S>(step: spec_fn(S, S) -> bool, a: S)
    ensures
        reaches(step, a, a),
{
    assert(leads(step, seq![a], a, a));
}

pub proof fn lemma_reach_step<S>(step: spec_fn(S, S) -> bool, a: S, b: S, c: S)
    requires
        reaches(step, a, b),
        step(b, c),
    ensures
        reaches(step, a, c),
{
    let p = choose|p: Seq<S>| #[trigger] leads(step, p, a, b);
    let q = p.push(c);
    assert forall|i: int| 0 <= i < q.len() - 1 implies #[trigger] link(step, q, i) by {
        if i < p.len() - 1 {
            assert(link(step, p, i));
        }
    }
    assert(leads(step, q, a, c));
}

pub proof fn lemma_reach_join<S>(step: spec_fn(S, S) -> bool, a: S, b: S, c: S)
    requires
        reaches(step, a, b),
        reaches(step, b, c),
    ensures
        reaches(step, a, c),
{
    let p = choose|p: Seq<S>| #[trigger] leads(step, p, a, b);
    let q = choose|p: Seq<S>| #[trigger] leads(step, p, b, c);
    let r = p + q.skip(1);
    assert forall|i: int| 0 <= i < r.len() - 1 implies #[trigger] link(step, r, i) by {
        if i < p.len() - 1 {
            assert(link(step, p, i));
        } else {
            assert(link(step, q, i - p.len() + 1));
        }
    }
    assert(r.last() == c);
    assert(leads(step, r, a, c));
}

pub proof fn lemma_reach_back<S>(step: spec_fn(S, S) -> bool, a: S, b: S)
    requires
        reaches(step, a, b),
        forall|x: S, y: S| #[trigger] step(x, y) ==> step(y, x),
    ensures
        reaches(step, b, a),
{
    let p = choose|p: Seq<S>| #[trigger] leads(step, p, a, b);
    let q = p.reverse();
    assert forall|i: int| 0 <= i < q.len() - 1 implies #[trigger] link(step, q, i) by {
        assert(link(step, p, p.len() - 2 - i));
    }
    assert(leads(step, q, b, a));
}

/// What every step keeps holds wherever a path leads.
pub proof fn lemma_reach_keeps<S>(
    step: spec_fn(S, S) -> bool,
    keep: spec_fn(S) -> bool,
    a: S,
    b: S,
)
    requires
        reaches(step, a, b),
        keep(a),
        forall|x: S, y: S| #[trigger] step(x, y) && keep(x) ==> keep(y),
    ensures
        keep(b),
{
    let p = choose|p: Seq<S>| #[trigger] leads(step, p, a, b);
    lemma_path_keeps(step, keep, p, p.len() - 1);
}

proof fn lemma_path_keeps<S>(
    step: spec_fn(S, S) -> bool,
    keep: spec_fn(S) -> bool,
    p: Seq<S>,
    i: int,
)
    requires
        is_path(step, p),
        keep(p[0]),
        forall|x: S, y: S| #[trigger] step(x, y) && keep(x) ==> keep(y),
        0 <= i < p.len(),
    ensures
        keep(p[i]),
    decreases i,
{
    if i > 0 {
        lemma_path_keeps(step, keep, p, i - 1);
        assert(link(step, p, i - 1));
        assert(step(p[i - 1], p[i]));
    }
}

/// A relation that allows more steps reaches at least as far.
pub proof fn lemma_reach_more<S>(
    less: spec_fn(S, S) -> bool,
    more: spec_fn(S, S) -> bool,
    a: S,
    b: S,
)
    requires
        reaches(less, a, b),
        forall|x: S, y: S| #[trigger] less(x, y) ==> more(x, y),
    ensures
        reaches(more, a, b),
{
    let p = choose|p: Seq<S>| #[trigger] leads(less, p, a, b);
    assert forall|i: int| 0 <= i < p.len() - 1 implies #[trigger] link(more, p, i) by {
        assert(link(less, p, i));
        assert(less(p[i], p[i + 1]));
    }
    assert(leads(more, p, a, b));
}

} // verus!
