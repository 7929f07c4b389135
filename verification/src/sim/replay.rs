//! Equal results on all machines: what a run of the scheduler depends on, and what it
//! does not.
use vstd::prelude::*;

use crate::block::BlockId;
use crate::sim::reactions::{
    acting_on, asked, batch_actions, batch_len, evaluated, generation, generations,
    lemma_changes_ordered, lemma_inserted, lemma_pushed_wf, lemma_rank, lemma_sorted_unique,
    lemma_targets_gathered, lemma_waiting_after, matter, next_changes, next_targets,
    offered, outcomes_of, pos_lt, queue_ok, same_event, targets_of, ticked, Budget,
    CellStore, Cells, MaterialEvent, Mutation, Origins, Pending, Pos, SchedView, SimState,
    TargetView,
};

verus! {

/// The scheduler after events are handed in, one after the other.
pub open spec fn pushed_all(v: SchedView, events: Seq<MaterialEvent>) -> SchedView
    decreases events.len(),
{
    if events.len() == 0 {
        v
    } else {
        let u = pushed_all(v, events.drop_last());
        u.pushed(queued(u, events.last()))
    }
}

/// The queue entry of an event that is handed in.
pub open spec fn queued(v: SchedView, e: MaterialEvent) -> Pending {
    Pending { arrival: v.generations, at: e.at, kind: e.kind }
}

/// The state after `n` ticks. What they commit adds up.
pub open spec fn ticks<S: CellStore>(
    s: SimState<S::State>,
    budget: Budget,
    n: nat,
) -> SimState<S::State>
    decreases n,
{
    if n == 0 {
        s
    } else {
        let t = ticks::<S>(s, budget, (n - 1) as nat);
        let u = ticked::<S>(t.sched, t.store, budget);
        SimState { committed: t.committed + u.committed, ..u }
    }
}

/// The cells after changes are written in order.
pub open spec fn with_writes(cells: Cells, ms: Seq<Mutation>) -> Cells
    decreases ms.len(),
{
    if ms.len() == 0 {
        cells
    } else {
        with_writes(cells, ms.drop_last()).insert(ms.last().pos, ms.last().to)
    }
}

/// While there is room, handing in events queues exactly those that were not waiting,
/// and drops none.
proof fn lemma_pushed_all(v: SchedView, events: Seq<MaterialEvent>)
    requires
        v.wf(),
        v.queue.len() + events.to_set().len() <= v.capacity,
    ensures
        ({
            let u = pushed_all(v, events);
            &&& u.wf()
            &&& u == SchedView { queue: u.queue, ..v }
            &&& u.queue.len() <= v.queue.len() + events.to_set().len()
            &&& forall|p: Pending| #[trigger]
                u.queue.contains(p) <==> v.queue.contains(p) || exists|e: MaterialEvent| #[trigger]
                    events.contains(e) && p == queued(v, e) && !v.waiting(p)
            &&& forall|p: Pending| #[trigger]
                u.waiting(p) <==> v.waiting(p) || exists|e: MaterialEvent| #[trigger]
                    events.contains(e) && same_event(queued(v, e), p)
        }),
    decreases events.len(),
{
    broadcast use vstd::seq_lib::group_seq_properties;

    if events.len() == 0 {
        assert(events.to_set() =~= Set::empty());
        assert forall|e: MaterialEvent| !(#[trigger] events.contains(e)) by {}
    } else {
        let rest = events.drop_last();
        let e = events.last();
        let set = rest.to_set();
        vstd::seq_lib::seq_to_set_is_finite(rest);
        assert(events.to_set() =~= set.insert(e)) by {
            assert forall|x: MaterialEvent| events.to_set().contains(x) == set.insert(e).contains(
                x,
            ) by {
                lemma_last_or_rest(events, x);
            }
        }
        lemma_pushed_all(v, rest);
        let t = pushed_all(v, rest);
        let u = pushed_all(v, events);
        let p = queued(v, e);
        lemma_pushed_wf(t, p);
        if rest.contains(e) {
            assert(same_event(queued(v, e), p));
            assert(t.waiting(p));
        } else {
            assert(!set.contains(e));
        }
        lemma_rank(t.queue, p);
        if !t.waiting(p) {
            lemma_inserted(t.queue, p);
        }
        assert forall|q: Pending| #[trigger]
            u.queue.contains(q) <==> v.queue.contains(q) || exists|x: MaterialEvent| #[trigger]
                events.contains(x) && q == queued(v, x) && !v.waiting(q) by {
            if u.queue.contains(q) && !v.queue.contains(q) {
                if t.queue.contains(q) {
                    let x = choose|x: MaterialEvent| #[trigger]
                        rest.contains(x) && q == queued(v, x) && !v.waiting(q);
                    lemma_last_or_rest(events, x);
                    assert(events.contains(x));
                } else {
                    assert(q == p && !t.waiting(p));
                    lemma_last_or_rest(events, e);
                    assert(events.contains(e));
                }
            }
            if v.queue.contains(q) {
                assert(t.queue.contains(q));
            }
            if exists|x: MaterialEvent| #[trigger]
                events.contains(x) && q == queued(v, x) && !v.waiting(q) {
                let x = choose|x: MaterialEvent| #[trigger]
                    events.contains(x) && q == queued(v, x) && !v.waiting(q);
                lemma_last_or_rest(events, x);
                if rest.contains(x) {
                    assert(t.queue.contains(q));
                } else {
                    assert(x == e && q == p);
                    if t.waiting(p) {
                        let y = choose|y: MaterialEvent| #[trigger]
                            rest.contains(y) && same_event(queued(v, y), p);
                        assert(y == e);
                    }
                }
            }
        }
        assert forall|q: Pending| #[trigger]
            u.waiting(q) <==> v.waiting(q) || exists|x: MaterialEvent| #[trigger]
                events.contains(x) && same_event(queued(v, x), q) by {
            if same_event(p, q) {
                lemma_last_or_rest(events, e);
                assert(events.contains(e) && same_event(queued(v, e), q));
                if t.waiting(p) {
                    let k = choose|k: int|
                        0 <= k < t.queue.len() && same_event(#[trigger] t.queue[k], p);
                    assert(same_event(u.queue[k], q));
                } else {
                    assert(u.queue.contains(p));
                    let k = choose|k: int| 0 <= k < u.queue.len() && u.queue[k] == p;
                    assert(same_event(u.queue[k], q));
                }
                assert(u.waiting(q));
            } else {
                lemma_waiting_after(t, p, q);
                if exists|x: MaterialEvent| #[trigger]
                    events.contains(x) && same_event(queued(v, x), q) {
                    let x = choose|x: MaterialEvent| #[trigger]
                        events.contains(x) && same_event(queued(v, x), q);
                    lemma_last_or_rest(events, x);
                    assert(rest.contains(x));
                }
                if exists|x: MaterialEvent| #[trigger]
                    rest.contains(x) && same_event(queued(v, x), q) {
                    let x = choose|x: MaterialEvent| #[trigger]
                        rest.contains(x) && same_event(queued(v, x), q);
                    lemma_last_or_rest(events, x);
                    assert(events.contains(x));
                }
            }
        }
    }
}

proof fn lemma_last_or_rest(events: Seq<MaterialEvent>, x: MaterialEvent)
    requires
        events.len() > 0,
    ensures
        events.contains(x) == (x == events.last() || events.drop_last().contains(x)),
{
    let rest = events.drop_last();
    if events.contains(x) && x != events.last() {
        let i = choose|i: int| 0 <= i < events.len() && events[i] == x;
        assert(rest[i] == x);
    }
    if rest.contains(x) {
        let i = choose|i: int| 0 <= i < rest.len() && rest[i] == x;
        assert(events[i] == x);
    }
    assert(events[events.len() - 1] == events.last());
}

proof fn lemma_queue_distinct(q: Seq<Pending>)
    requires
        queue_ok(q),
    ensures
        q.no_duplicates(),
{
    assert forall|i: int, j: int| 0 <= i < q.len() && 0 <= j < q.len() && i != j implies q[i]
        != q[j] by {
        if i < j {
            assert(!same_event(q[i], q[j]));
        } else {
            assert(!same_event(q[j], q[i]));
        }
    }
}

/// Queues in order that hold the same events are the same queue.
proof fn lemma_same_queue(a: Seq<Pending>, b: Seq<Pending>)
    requires
        queue_ok(a),
        queue_ok(b),
        forall|p: Pending| #[trigger] a.contains(p) <==> b.contains(p),
    ensures
        a == b,
{
    lemma_queue_distinct(a);
    lemma_queue_distinct(b);
    a.unique_seq_to_set();
    b.unique_seq_to_set();
    assert(a.to_set() =~= b.to_set()) by {
        assert forall|p: Pending| a.to_set().contains(p) == b.to_set().contains(p) by {
            assert(a.contains(p) == b.contains(p));
        }
    }
    lemma_sorted_unique(a, b);
}

/// The order in which events are handed in never matters: where there is room for them,
/// the same set of events, in whatever order and however often each, leaves the same
/// scheduler, and on stores in the same state every later tick commits the same changes
/// and leaves the same store and queue.
pub proof fn lemma_push_order_is_moot<S: CellStore>(
    v: SchedView,
    a: Seq<MaterialEvent>,
    b: Seq<MaterialEvent>,
    store: S::State,
    budget: Budget,
    n: nat,
)
    requires
        v.wf(),
        v.queue.len() + a.to_set().len() <= v.capacity,
        forall|e: MaterialEvent| a.contains(e) <==> b.contains(e),
    ensures
        pushed_all(v, a) == pushed_all(v, b),
        ticked::<S>(pushed_all(v, a), store, budget) == ticked::<S>(
            pushed_all(v, b),
            store,
            budget,
        ),
        ticks::<S>(
            (SimState { sched: pushed_all(v, a), store, committed: Seq::empty() }),
            budget,
            n,
        ) == ticks::<S>(
            (SimState { sched: pushed_all(v, b), store, committed: Seq::empty() }),
            budget,
            n,
        ),
{
    assert(a.to_set() =~= b.to_set()) by {
        assert forall|e: MaterialEvent| a.to_set().contains(e) == b.to_set().contains(e) by {
            assert(a.contains(e) == b.contains(e));
        }
    }
    lemma_pushed_all(v, a);
    lemma_pushed_all(v, b);
    let (x, y) = (pushed_all(v, a), pushed_all(v, b));
    assert forall|p: Pending| #[trigger] x.queue.contains(p) <==> y.queue.contains(p) by {
        if x.queue.contains(p) && !v.queue.contains(p) {
            let e = choose|e: MaterialEvent| #[trigger]
                a.contains(e) && p == queued(v, e) && !v.waiting(p);
            assert(b.contains(e));
        }
        if y.queue.contains(p) && !v.queue.contains(p) {
            let e = choose|e: MaterialEvent| #[trigger]
                b.contains(e) && p == queued(v, e) && !v.waiting(p);
            assert(a.contains(e));
        }
    }
    lemma_same_queue(x.queue, y.queue);
}

proof fn lemma_asked_cells<S: CellStore>(s: S::State, targets: Seq<TargetView>, n: int)
    ensures
        S::cells(asked::<S>(s, targets, n)) == S::cells(s),
    decreases n,
{
    if n > 0 {
        lemma_asked_cells::<S>(s, targets, n - 1);
        S::interacted_cells(
            asked::<S>(s, targets, n - 1),
            targets[n - 1].block,
            targets[n - 1].origins,
        );
    }
}

/// Whether `part` are some of `ms`, in their order.
pub open spec fn is_part(part: Seq<Mutation>, ms: Seq<Mutation>) -> bool
    decreases ms.len(),
{
    if ms.len() == 0 {
        part.len() == 0
    } else {
        ||| is_part(part, ms.drop_last())
        ||| part.len() > 0 && part.last() == ms.last() && is_part(part.drop_last(), ms.drop_last())
    }
}

proof fn lemma_part(part: Seq<Mutation>, ms: Seq<Mutation>)
    requires
        is_part(part, ms),
        forall|i: int, j: int|
            0 <= i < j < ms.len() ==> pos_lt((#[trigger] ms[i]).pos, (#[trigger] ms[j]).pos),
    ensures
        forall|i: int| 0 <= i < part.len() ==> ms.contains(#[trigger] part[i]),
        forall|i: int, j: int|
            0 <= i < j < part.len() ==> pos_lt((#[trigger] part[i]).pos, (#[trigger] part[j]).pos),
    decreases ms.len(),
{
    if ms.len() > 0 {
        let rest = ms.drop_last();
        assert forall|i: int, j: int| 0 <= i < j < rest.len() implies pos_lt(
            (#[trigger] rest[i]).pos,
            (#[trigger] rest[j]).pos,
        ) by {
            assert(pos_lt(ms[i].pos, ms[j].pos));
        }
        let whole = is_part(part, rest);
        let p = if whole {
            part
        } else {
            part.drop_last()
        };
        lemma_part(p, rest);
        assert forall|i: int| 0 <= i < part.len() implies ms.contains(#[trigger] part[i]) by {
            if i < p.len() {
                assert(rest.contains(p[i]));
                let k = choose|k: int| 0 <= k < rest.len() && rest[k] == p[i];
                assert(ms[k] == part[i]);
            } else {
                assert(ms[ms.len() - 1] == part[i]);
            }
        }
        assert forall|i: int, j: int| 0 <= i < j < part.len() implies pos_lt(
            (#[trigger] part[i]).pos,
            (#[trigger] part[j]).pos,
        ) by {
            if j < p.len() {
                assert(pos_lt(p[i].pos, p[j].pos));
            } else {
                assert(rest.contains(p[i]));
                let k = choose|k: int| 0 <= k < rest.len() && rest[k] == p[i];
                assert(pos_lt(ms[k].pos, ms[ms.len() - 1].pos));
            }
        }
    }
}

/// Of the changes that are offered, some are committed, and the cells end with exactly
/// those written.
proof fn lemma_offered_part<S: CellStore>(s: SimState<S::State>, ms: Seq<Mutation>)
    requires
        s.committed.len() == 0,
    ensures
        is_part(offered::<S>(s, ms).committed, ms),
        S::cells(offered::<S>(s, ms).store) == with_writes(
            S::cells(s.store),
            offered::<S>(s, ms).committed,
        ),
    decreases ms.len(),
{
    if ms.len() > 0 {
        let m = ms.last();
        lemma_offered_part::<S>(s, ms.drop_last());
        let t = offered::<S>(s, ms.drop_last());
        if S::takes(t.store, m.pos, m.to) {
            S::written_cells(t.store, m.pos, m.to);
            assert(t.committed.push(m).drop_last() =~= t.committed);
        }
    }
}

/// One generation: the commits come in strict position order; each starts from the
/// matter that its cell held when the generation began, and ends in what the store
/// answers for it and for all that acts on it; and the cells end with exactly the
/// commits written.
pub proof fn lemma_one_generation<S: CellStore>(v: SchedView, store: S::State, budget: Budget)
    requires
        budget.generations_per_tick == 1,
    ensures
        ({
            let cells = S::cells(store);
            let batch = v.queue.take(batch_len(v, budget));
            let targets = targets_of(cells, batch);
            let end = ticked::<S>(v, store, budget);
            &&& forall|i: int, j: int|
                0 <= i < j < end.committed.len() ==> pos_lt(
                    (#[trigger] end.committed[i]).pos,
                    (#[trigger] end.committed[j]).pos,
                )
            &&& forall|i: int|
                0 <= i < end.committed.len() ==> is_answer::<S>(
                    store,
                    batch,
                    #[trigger] end.committed[i],
                )
            &&& S::cells(end.store) == with_writes(cells, end.committed)
        }),
{
    let cells = S::cells(store);
    let s = SimState { sched: v, store, committed: Seq::<Mutation>::empty() };
    if v.queue.len() > 0 {
        let n = batch_len(v, budget);
        let batch = v.queue.take(n);
        let targets = next_targets::<S>(s, budget);
        let outcomes = outcomes_of::<S>(store, targets);
        let ms = next_changes::<S>(s, budget);
        let mid = evaluated::<S>(s, budget);
        let end = ticked::<S>(v, store, budget);
        assert(end == generation::<S>(s, budget)) by {
            reveal_with_fuel(generations, 2);
        }
        lemma_targets_gathered(cells, batch);
        lemma_changes_ordered(targets, outcomes, cells, batch_actions(cells, batch));
        lemma_asked_cells::<S>(store, targets, targets.len() as int);
        lemma_offered_part::<S>(mid, ms);
        lemma_part(end.committed, ms);
        assert forall|i: int| 0 <= i < end.committed.len() implies is_answer::<S>(
            store,
            batch,
            #[trigger] end.committed[i],
        ) by {
            let m = end.committed[i];
            assert(ms.contains(m));
            let k = choose|k: int| 0 <= k < ms.len() && ms[k] == m;
            assert(matter(cells, ms[k].pos));
            let t = choose|t: int|
                0 <= t < targets.len() && (#[trigger] targets[t]).pos == m.pos && outcomes[t]
                    == Some(m.to);
            assert(targets[t].origins == acting_on(batch_actions(cells, batch), m.pos));
            assert(answers::<S>(store, targets, t, m));
        }
    }
}

/// Whether a change turns the target at `t` into what the store answers for it, asked
/// after the targets before it.
pub open spec fn answers<S: CellStore>(
    store: S::State,
    targets: Seq<TargetView>,
    t: int,
    m: Mutation,
) -> bool {
    S::outcome(asked::<S>(store, targets, t), targets[t].block, targets[t].origins) == Some(m.to)
}

/// Whether a change starts from the matter of its cell and ends in what the store
/// answers for it and for all that a batch has act on it.
pub open spec fn is_answer<S: CellStore>(
    store: S::State,
    batch: Seq<Pending>,
    m: Mutation,
) -> bool {
    let cells = S::cells(store);
    let targets = targets_of(cells, batch);
    &&& matter(cells, m.pos)
    &&& m.from == cells[m.pos]
    &&& m.to != m.from
    &&& exists|t: int|
        {
            &&& 0 <= t < targets.len()
            &&& targets[t].pos == m.pos
            &&& targets[t].block == m.from
            &&& targets[t].origins == acting_on(batch_actions(cells, batch), m.pos)
            &&& #[trigger] answers::<S>(store, targets, t, m)
        }
}

proof fn lemma_offered_all<S: CellStore>(
    s: SimState<S::State>,
    ms: Seq<Mutation>,
    accepts: spec_fn(S::State) -> bool,
)
    requires
        accepts(s.store),
        forall|t: S::State, p: Pos, id: BlockId| accepts(t) ==> #[trigger] S::takes(t, p, id),
        forall|t: S::State, p: Pos, id: BlockId|
            accepts(t) ==> accepts(#[trigger] S::written(t, p, id)),
    ensures
        offered::<S>(s, ms).committed == s.committed + ms,
        accepts(offered::<S>(s, ms).store),
    decreases ms.len(),
{
    if ms.len() > 0 {
        lemma_offered_all::<S>(s, ms.drop_last(), accepts);
        assert(S::takes(
            offered::<S>(s, ms.drop_last()).store,
            ms.last().pos,
            ms.last().to,
        ));
        assert(s.committed + ms =~= (s.committed + ms.drop_last()).push(ms.last()));
    } else {
        assert(s.committed + ms =~= s.committed);
    }
}

/// A store that takes every write has every change of a generation committed. `accepts`
/// tells the states of such a store.
pub proof fn lemma_accepted_changes_all_commit<S: CellStore>(
    s: SimState<S::State>,
    budget: Budget,
    accepts: spec_fn(S::State) -> bool,
)
    requires
        accepts(s.store),
        forall|t: S::State, p: Pos, id: BlockId| accepts(t) ==> #[trigger] S::takes(t, p, id),
        forall|t: S::State, p: Pos, id: BlockId|
            accepts(t) ==> accepts(#[trigger] S::written(t, p, id)),
        forall|t: S::State, id: BlockId, o: Origins|
            accepts(t) ==> accepts(#[trigger] S::interacted(t, id, o)),
    ensures
        generation::<S>(s, budget).committed == s.committed + next_changes::<S>(s, budget),
{
    let targets = next_targets::<S>(s, budget);
    lemma_asked_stays::<S>(s.store, targets, targets.len() as int, accepts);
    lemma_offered_all::<S>(evaluated::<S>(s, budget), next_changes::<S>(s, budget), accepts);
}

proof fn lemma_offered_refused<S: CellStore>(
    s: SimState<S::State>,
    ms: Seq<Mutation>,
    refuses: spec_fn(S::State) -> bool,
)
    requires
        refuses(s.store),
        forall|t: S::State, p: Pos, id: BlockId| refuses(t) ==> !(#[trigger] S::takes(t, p, id)),
    ensures
        offered::<S>(s, ms) == s,
    decreases ms.len(),
{
    if ms.len() > 0 {
        lemma_offered_refused::<S>(s, ms.drop_last(), refuses);
        assert(!S::takes(s.store, ms.last().pos, ms.last().to));
    }
}

proof fn lemma_asked_stays<S: CellStore>(
    s: S::State,
    targets: Seq<TargetView>,
    n: int,
    holds: spec_fn(S::State) -> bool,
)
    requires
        holds(s),
        forall|t: S::State, id: BlockId, o: Origins|
            holds(t) ==> holds(#[trigger] S::interacted(t, id, o)),
    ensures
        holds(asked::<S>(s, targets, n)),
    decreases n,
{
    if n > 0 {
        lemma_asked_stays::<S>(s, targets, n - 1, holds);
    }
}

proof fn lemma_generations_refused<S: CellStore>(
    s: SimState<S::State>,
    budget: Budget,
    n: int,
    refuses: spec_fn(S::State) -> bool,
)
    requires
        refuses(s.store),
        forall|t: S::State, p: Pos, id: BlockId| refuses(t) ==> !(#[trigger] S::takes(t, p, id)),
        forall|t: S::State, id: BlockId, o: Origins|
            refuses(t) ==> refuses(#[trigger] S::interacted(t, id, o)),
    ensures
        ({
            let e = generations::<S>(s, budget, n);
            &&& e.committed == s.committed
            &&& e.sched.mutations == s.sched.mutations
            &&& e.sched.dropped == s.sched.dropped
            &&& S::cells(e.store) == S::cells(s.store)
            &&& forall|w: Pending| #[trigger] e.sched.queue.contains(w) ==> s.sched.queue.contains(w)
            &&& n > 0 && s.sched.queue.len() <= budget.events_per_generation ==> e.sched.queue.len()
                == 0
        }),
    decreases n,
{
    if n > 0 && s.sched.queue.len() > 0 {
        let targets = next_targets::<S>(s, budget);
        lemma_asked_cells::<S>(s.store, targets, targets.len() as int);
        lemma_asked_stays::<S>(s.store, targets, targets.len() as int, refuses);
        lemma_offered_refused::<S>(
            evaluated::<S>(s, budget),
            next_changes::<S>(s, budget),
            refuses,
        );
        let g = generation::<S>(s, budget);
        lemma_generations_refused::<S>(g, budget, n - 1, refuses);
        let e = generations::<S>(s, budget, n);
        assert(e == generations::<S>(g, budget, n - 1));
        let k = batch_len(s.sched, budget);
        assert forall|w: Pending| #[trigger] e.sched.queue.contains(w) implies s.sched.queue.contains(
            w,
        ) by {
            assert(g.sched.queue.contains(w));
            let i = choose|i: int| 0 <= i < g.sched.queue.len() && g.sched.queue[i] == w;
            assert(s.sched.queue[i + k] == w);
        }
    }
}

/// A store that refuses every write: a tick commits nothing, counts no mutation, changes
/// no cell and wakes nobody. What waits afterwards was waiting before, and nothing is
/// left where one generation takes all. `refuses` tells the states of such a store.
pub proof fn lemma_refused_leaves_no_trace<S: CellStore>(
    v: SchedView,
    store: S::State,
    budget: Budget,
    refuses: spec_fn(S::State) -> bool,
)
    requires
        refuses(store),
        forall|t: S::State, p: Pos, id: BlockId| refuses(t) ==> !(#[trigger] S::takes(t, p, id)),
        forall|t: S::State, id: BlockId, o: Origins|
            refuses(t) ==> refuses(#[trigger] S::interacted(t, id, o)),
    ensures
        ({
            let e = ticked::<S>(v, store, budget);
            &&& e.committed == Seq::<Mutation>::empty()
            &&& e.sched.mutations == v.mutations
            &&& e.sched.dropped == v.dropped
            &&& S::cells(e.store) == S::cells(store)
            &&& forall|w: Pending| #[trigger] e.sched.queue.contains(w) ==> v.queue.contains(w)
            &&& budget.generations_per_tick > 0 && v.queue.len() <= budget.events_per_generation
                ==> e.sched.queue.len() == 0
        }),
{
    lemma_generations_refused::<S>(
        SimState { sched: v, store, committed: Seq::empty() },
        budget,
        budget.generations_per_tick as int,
        refuses,
    );
}

} // verus!
