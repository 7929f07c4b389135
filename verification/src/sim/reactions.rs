//! The reaction scheduler: turns world events into local material interactions.
//!
//! Events are evaluated in generations. Every interaction of a generation reads
//! the same state; its results are written together, in position order; every
//! changed cell wakes its six neighbours for the next generation. Work beyond
//! the budget waits, oldest first.
use vstd::prelude::*;

use crate::block::BlockId;
use crate::coord::Face;

verus! {

/// A world position of one voxel.
pub type Pos = (i32, i32, i32);

/// What happened to a voxel.
#[derive(Clone, Copy, PartialEq, Eq, Debug, Structural)]
pub enum EventKind {
    Moved,
    NewContact,
    Collision,
    ExternallyChanged,
}

/// A gameplay event that may cause local reactions.
#[derive(Clone, Copy, PartialEq, Eq, Debug)]
pub struct MaterialEvent {
    /// The voxel the event happened to.
    pub at: Pos,
    /// What happened.
    pub kind: EventKind,
}

/// One committed change.
#[derive(Clone, Copy, PartialEq, Eq, Debug)]
pub struct Mutation {
    /// Where.
    pub pos: Pos,
    /// Before.
    pub from: BlockId,
    /// After.
    pub to: BlockId,
}

/// Work allowed per generation and per tick.
#[derive(Clone, Copy, PartialEq, Eq, Debug, Structural)]
pub struct Budget {
    /// Events evaluated per generation; the rest wait for the next generation.
    pub events_per_generation: usize,
    /// Generations run per tick.
    pub generations_per_tick: u32,
}

impl Default for Budget {
    /// The budget that every peer runs, so that results agree across machines.
    fn default() -> (b: Budget)
        ensures
            b == (Budget { events_per_generation: 256, generations_per_tick: 2 }),
    {
        Budget { events_per_generation: 256, generations_per_tick: 2 }
    }
}

/// Distinct pending events a scheduler holds before it refuses more.
pub const DEFAULT_CAPACITY: usize = 16_384;

/// A queued event with the generation it arrived for.
#[derive(Clone, Copy, PartialEq, Eq, Debug)]
pub struct Pending {
    pub arrival: u64,
    pub at: Pos,
    pub kind: EventKind,
}

/// The rank of an event kind in the queue order.
pub open spec fn kind_code(k: EventKind) -> int {
    match k {
        EventKind::Moved => 0,
        EventKind::NewContact => 1,
        EventKind::Collision => 2,
        EventKind::ExternallyChanged => 3,
    }
}

/// The rank of an event kind in the queue order.
pub fn kind_to_u8(k: EventKind) -> (c: u8)
    ensures
        c == kind_code(k),
{
    match k {
        EventKind::Moved => 0,
        EventKind::NewContact => 1,
        EventKind::Collision => 2,
        EventKind::ExternallyChanged => 3,
    }
}

/// The event kind with the given rank.
pub fn kind_from_u8(c: u8) -> (k: EventKind)
    requires
        c < 4,
    ensures
        kind_code(k) == c,
{
    if c == 0 {
        EventKind::Moved
    } else if c == 1 {
        EventKind::NewContact
    } else if c == 2 {
        EventKind::Collision
    } else {
        EventKind::ExternallyChanged
    }
}

/// Position order: by x, then y, then z.
pub open spec fn pos_lt(a: Pos, b: Pos) -> bool {
    a.0 < b.0 || (a.0 == b.0 && (a.1 < b.1 || (a.1 == b.1 && a.2 < b.2)))
}

/// Queue order: by arrival, then position, then kind.
pub open spec fn pending_lt(a: Pending, b: Pending) -> bool {
    a.arrival < b.arrival || (a.arrival == b.arrival && (pos_lt(a.at, b.at) || (a.at == b.at
        && kind_code(a.kind) < kind_code(b.kind))))
}

fn pos_before(a: Pos, b: Pos) -> (r: bool)
    ensures
        r == pos_lt(a, b),
{
    a.0 < b.0 || (a.0 == b.0 && (a.1 < b.1 || (a.1 == b.1 && a.2 < b.2)))
}

fn pos_same(a: Pos, b: Pos) -> (r: bool)
    ensures
        r == (a == b),
{
    a.0 == b.0 && a.1 == b.1 && a.2 == b.2
}

fn pending_before(a: Pending, b: Pending) -> (r: bool)
    ensures
        r == pending_lt(a, b),
{
    a.arrival < b.arrival || (a.arrival == b.arrival && (pos_before(a.at, b.at) || (pos_same(
        a.at,
        b.at,
    ) && kind_to_u8(a.kind) < kind_to_u8(b.kind))))
}

/// The offset of face `f`: +x, -x, +y, -y, +z, -z.
pub open spec fn face_offset(f: int) -> (i32, i32, i32) {
    if f == 0 {
        (1, 0, 0)
    } else if f == 1 {
        (-1i32, 0, 0)
    } else if f == 2 {
        (0, 1, 0)
    } else if f == 3 {
        (0, -1i32, 0)
    } else if f == 4 {
        (0, 0, 1)
    } else {
        (0, 0, -1i32)
    }
}

/// The neighbour of `p` across face `f`, with coordinates that wrap.
pub open spec fn neighbour(p: Pos, f: int) -> Pos {
    let d = face_offset(f);
    (p.0.wrapping_add(d.0), p.1.wrapping_add(d.1), p.2.wrapping_add(d.2))
}

fn neighbour_of(p: Pos, f: usize) -> (n: Pos)
    requires
        f < 6,
    ensures
        n == neighbour(p, f as int),
{
    let d: (i32, i32, i32) = if f == 0 {
        (1, 0, 0)
    } else if f == 1 {
        (-1, 0, 0)
    } else if f == 2 {
        (0, 1, 0)
    } else if f == 3 {
        (0, -1, 0)
    } else if f == 4 {
        (0, 0, 1)
    } else {
        (0, 0, -1)
    };
    (p.0.wrapping_add(d.0), p.1.wrapping_add(d.1), p.2.wrapping_add(d.2))
}

/// How far two positions are apart, summed over the axes.
pub open spec fn steps_apart(a: Pos, b: Pos) -> int {
    let d = |x: i32, y: i32|
        if x <= y {
            y - x
        } else {
            x - y
        };
    d(a.0, b.0) + d(a.1, b.1) + d(a.2, b.2)
}

/// The six neighbours of a cell are exactly the cells that share a face with it: the
/// one beyond each [`Face`], and nothing but cells one step away along one axis. No
/// two of them coincide.
pub proof fn lemma_neighbours_share_a_face(p: Pos, q: Pos, face: Face)
    requires
        i32::MIN < p.0 < i32::MAX,
        i32::MIN < p.1 < i32::MAX,
        i32::MIN < p.2 < i32::MAX,
    ensures
        (exists|f: int| 0 <= f < 6 && #[trigger] neighbour(p, f) == q) <==> steps_apart(p, q) == 1,
        exists|f: int|
            #![trigger neighbour(p, f)]
            0 <= f < 6 && neighbour(p, f).0 == p.0 + face.offset_spec().0 && neighbour(p, f).1
                == p.1 + face.offset_spec().1 && neighbour(p, f).2 == p.2 + face.offset_spec().2,
        forall|f: int, g: int|
            0 <= f < g < 6 ==> #[trigger] neighbour(p, f) != #[trigger] neighbour(p, g),
{
    let all = seq![
        neighbour(p, 0),
        neighbour(p, 1),
        neighbour(p, 2),
        neighbour(p, 3),
        neighbour(p, 4),
        neighbour(p, 5),
    ];
    assert(all[0] == (((p.0 + 1) as i32), p.1, p.2));
    assert(all[1] == (((p.0 - 1) as i32), p.1, p.2));
    assert(all[2] == (p.0, ((p.1 + 1) as i32), p.2));
    assert(all[3] == (p.0, ((p.1 - 1) as i32), p.2));
    assert(all[4] == (p.0, p.1, ((p.2 + 1) as i32)));
    assert(all[5] == (p.0, p.1, ((p.2 - 1) as i32)));
    if steps_apart(p, q) == 1 {
        assert(q == all[0] || q == all[1] || q == all[2] || q == all[3] || q == all[4] || q
            == all[5]);
    }
}

/// Neighbourhood goes both ways, at the ends of the world too, where it wraps: each
/// neighbour of a cell has the cell for a neighbour, across the other side.
pub proof fn lemma_neighbours_are_mutual(p: Pos, f: int)
    requires
        0 <= f < 6,
    ensures
        exists|g: int| 0 <= g < 6 && #[trigger] neighbour(neighbour(p, f), g) == p,
        neighbour(p, f) != p,
{
    let q = neighbour(p, f);
    if f % 2 == 0 {
        assert(neighbour(q, f + 1) == p);
    } else {
        assert(neighbour(q, f - 1) == p);
    }
}

/// What a scheduler holds.
#[verifier::ext_equal]
pub struct SchedView {
    pub queue: Seq<Pending>,
    pub capacity: nat,
    pub generations: u64,
    pub mutations: u64,
    pub dropped: u64,
}

/// Whether a queue is in order and holds each (position, kind) at most once.
pub open spec fn queue_ok(q: Seq<Pending>) -> bool {
    &&& forall|i: int, j: int| 0 <= i < j < q.len() ==> pending_lt(#[trigger] q[i], #[trigger] q[j])
    &&& forall|i: int, j: int|
        0 <= i < j < q.len() ==> !same_event(#[trigger] q[i], #[trigger] q[j])
}

/// Whether two queued events are the same event at possibly different times.
pub open spec fn same_event(a: Pending, b: Pending) -> bool {
    a.at == b.at && a.kind == b.kind
}

/// The number of queued events that come before `e`.
pub open spec fn rank(q: Seq<Pending>, e: Pending) -> int
    decreases q.len(),
{
    if q.len() == 0 {
        0
    } else {
        rank(q.drop_last(), e) + (if pending_lt(q.last(), e) {
            1int
        } else {
            0
        })
    }
}

impl SchedView {
    /// Whether the queue is in order, free of duplicates and within capacity.
    pub open spec fn wf(self) -> bool {
        &&& queue_ok(self.queue)
        &&& self.queue.len() <= self.capacity
    }

    /// Whether the event is already waiting.
    pub open spec fn waiting(self, e: Pending) -> bool {
        exists|i: int| 0 <= i < self.queue.len() && same_event(#[trigger] self.queue[i], e)
    }

    /// State after an event arrives: a waiting event collapses with its
    /// duplicate, a full queue refuses and counts it, else it takes its place.
    pub open spec fn pushed(self, e: Pending) -> SchedView {
        if self.waiting(e) {
            self
        } else if self.queue.len() >= self.capacity {
            SchedView { dropped: self.dropped.wrapping_add(1), ..self }
        } else {
            SchedView { queue: self.queue.insert(rank(self.queue, e), e), ..self }
        }
    }

    /// State after external-change events arrive at the first `n` neighbours of `p`.
    pub open spec fn woken(self, arrival: u64, p: Pos, n: int) -> SchedView
        decreases n,
    {
        if n <= 0 {
            self
        } else {
            self.woken(arrival, p, n - 1).pushed(
                Pending {
                    arrival,
                    at: neighbour(p, n - 1),
                    kind: EventKind::ExternallyChanged,
                },
            )
        }
    }
}

pub(crate) proof fn lemma_rank(q: Seq<Pending>, e: Pending)
    requires
        queue_ok(q),
    ensures
        0 <= rank(q, e) <= q.len(),
        forall|i: int| 0 <= i < rank(q, e) ==> pending_lt(#[trigger] q[i], e),
        forall|i: int| rank(q, e) <= i < q.len() ==> !pending_lt(#[trigger] q[i], e),
    decreases q.len(),
{
    if q.len() > 0 {
        let p = q.drop_last();
        assert(queue_ok(p)) by {
            assert forall|i: int, j: int| 0 <= i < j < p.len() implies pending_lt(
                #[trigger] p[i],
                #[trigger] p[j],
            ) && !same_event(p[i], p[j]) by {
                assert(pending_lt(q[i], q[j]) && !same_event(q[i], q[j]));
            }
        }
        lemma_rank(p, e);
        if pending_lt(q.last(), e) {
            assert forall|i: int| 0 <= i < p.len() implies pending_lt(#[trigger] p[i], e) by {
                assert(pending_lt(q[i], q[q.len() - 1]));
            }
            assert(rank(p, e) == p.len()) by {
                if rank(p, e) < p.len() {
                    assert(!pending_lt(p[rank(p, e)], e));
                }
            }
        }
        assert forall|i: int| 0 <= i < rank(q, e) implies pending_lt(#[trigger] q[i], e) by {
            if i < p.len() {
                assert(pending_lt(p[i], e));
            }
        }
        assert forall|i: int| rank(q, e) <= i < q.len() implies !pending_lt(#[trigger] q[i], e) by {
            if i < p.len() {
                assert(!pending_lt(p[i], e));
            }
        }
    }
}

/// Arrivals keep the queue in order, free of duplicates and within capacity.
pub proof fn lemma_pushed_wf(v: SchedView, e: Pending)
    requires
        v.wf(),
    ensures
        v.pushed(e).wf(),
        v.pushed(e).capacity == v.capacity,
        v.pushed(e).generations == v.generations,
        v.pushed(e).mutations == v.mutations,
{
    if !v.waiting(e) && v.queue.len() < v.capacity {
        let q = v.queue;
        lemma_rank(q, e);
        let r = rank(q, e);
        let n = q.insert(r, e);
        assert forall|i: int, j: int| 0 <= i < j < n.len() implies pending_lt(
            #[trigger] n[i],
            #[trigger] n[j],
        ) && !same_event(n[i], n[j]) by {
            let oi = if i < r {
                i
            } else {
                i - 1
            };
            let oj = if j < r {
                j
            } else {
                j - 1
            };
            if i != r && j != r {
                assert(pending_lt(q[oi], q[oj]) && !same_event(q[oi], q[oj]));
            } else if j == r {
                assert(pending_lt(q[i], e));
                assert(!same_event(q[i], e));
            } else {
                assert(!pending_lt(q[oj], e));
                assert(!same_event(q[oj], e));
            }
        }
    }
}

proof fn lemma_woken_wf(v: SchedView, arrival: u64, p: Pos, n: int)
    requires
        v.wf(),
    ensures
        v.woken(arrival, p, n).wf(),
        v.woken(arrival, p, n).capacity == v.capacity,
        v.woken(arrival, p, n).generations == v.generations,
        v.woken(arrival, p, n).mutations == v.mutations,
    decreases n,
{
    if n > 0 {
        lemma_woken_wf(v, arrival, p, n - 1);
        lemma_pushed_wf(
            v.woken(arrival, p, n - 1),
            Pending { arrival, at: neighbour(p, n - 1), kind: EventKind::ExternallyChanged },
        );
    }
}

/// The scheduler: pending events, deduplicated per position and kind, and counters.
pub struct ReactionScheduler {
    queue: Vec<Pending>,
    capacity: usize,
    /// Generations run so far.
    pub generations: u64,
    /// Mutations committed so far.
    pub mutations: u64,
    /// Events refused because the queue was full.
    pub dropped: u64,
}

impl View for ReactionScheduler {
    type V = SchedView;

    closed spec fn view(&self) -> SchedView {
        SchedView {
            queue: self.queue@,
            capacity: self.capacity as nat,
            generations: self.generations,
            mutations: self.mutations,
            dropped: self.dropped,
        }
    }
}

impl Default for ReactionScheduler {
    fn default() -> (s: Self)
        ensures
            s@ == (SchedView {
                queue: Seq::empty(),
                capacity: DEFAULT_CAPACITY as nat,
                generations: 0,
                mutations: 0,
                dropped: 0,
            }),
            s@.wf(),
    {
        Self::with_capacity(DEFAULT_CAPACITY)
    }
}

impl ReactionScheduler {
    /// An empty scheduler holding at most [`DEFAULT_CAPACITY`] distinct pending events.
    pub fn new() -> (s: Self)
        ensures
            s@ == (SchedView {
                queue: Seq::empty(),
                capacity: DEFAULT_CAPACITY as nat,
                generations: 0,
                mutations: 0,
                dropped: 0,
            }),
            s@.wf(),
    {
        Self::with_capacity(DEFAULT_CAPACITY)
    }

    /// An empty scheduler holding at most `capacity` distinct pending events.
    pub fn with_capacity(capacity: usize) -> (s: Self)
        ensures
            s@ == (SchedView {
                queue: Seq::empty(),
                capacity: capacity as nat,
                generations: 0,
                mutations: 0,
                dropped: 0,
            }),
            s@.wf(),
    {
        let s = ReactionScheduler {
            queue: Vec::new(),
            capacity,
            generations: 0,
            mutations: 0,
            dropped: 0,
        };
        assert(s@.queue =~= Seq::empty());
        s
    }

    /// Generations run so far.
    pub fn generations(&self) -> (n: u64)
        ensures
            n == self@.generations,
    {
        self.generations
    }

    /// Mutations committed so far.
    pub fn mutations(&self) -> (n: u64)
        ensures
            n == self@.mutations,
    {
        self.mutations
    }

    /// Events refused because the queue was full.
    pub fn dropped(&self) -> (n: u64)
        ensures
            n == self@.dropped,
    {
        self.dropped
    }

    /// Hands in a gameplay event. Duplicates collapse until they are evaluated.
    pub fn push(&mut self, ev: MaterialEvent)
        requires
            old(self)@.wf(),
        ensures
            final(self)@ == old(self)@.pushed(
                Pending { arrival: old(self)@.generations, at: ev.at, kind: ev.kind },
            ),
            final(self)@.wf(),
    {
        let arrival: u64 = self.generations;
        self.push_at(arrival, ev);
    }

    fn push_at(&mut self, arrival: u64, ev: MaterialEvent)
        requires
            old(self)@.wf(),
        ensures
            final(self)@ == old(self)@.pushed(Pending { arrival, at: ev.at, kind: ev.kind }),
            final(self)@.wf(),
    {
        let e = Pending { arrival, at: ev.at, kind: ev.kind };
        proof {
            lemma_pushed_wf(self@, e);
            lemma_rank(self@.queue, e);
        }
        let mut place: usize = 0;
        let mut i: usize = 0;
        while i < self.queue.len()
            invariant
                i <= self.queue@.len(),
                self@ == old(self)@,
                self@.wf(),
                self.queue@ == self@.queue,
                e == (Pending { arrival, at: ev.at, kind: ev.kind }),
                forall|j: int| 0 <= j < i ==> !same_event(#[trigger] self.queue@[j], e),
                place <= i,
                place == (if i < rank(self@.queue, e) {
                    i as int
                } else {
                    rank(self@.queue, e)
                }),
                0 <= rank(self@.queue, e) <= self.queue@.len(),
                forall|j: int|
                    0 <= j < rank(self@.queue, e) ==> pending_lt(#[trigger] self.queue@[j], e),
                forall|j: int|
                    rank(self@.queue, e) <= j < self.queue@.len() ==> !pending_lt(
                        #[trigger] self.queue@[j],
                        e,
                    ),
            decreases self.queue@.len() - i,
        {
            let q: Pending = self.queue[i];
            if pos_same(q.at, e.at) && q.kind == e.kind {
                assert(same_event(self@.queue[i as int], e));
                return ;
            }
            if pending_before(q, e) {
                place = place + 1;
            }
            i = i + 1;
        }
        if self.queue.len() >= self.capacity {
            self.dropped = self.dropped.wrapping_add(1);
            return ;
        }
        self.queue.insert(place, e);
    }

    /// Events waiting for evaluation.
    pub fn pending(&self) -> (n: usize)
        ensures
            n == self@.queue.len(),
    {
        self.queue.len()
    }
}

/// Place: a new contact at the placed cell.
pub fn on_placed(sched: &mut ReactionScheduler, at: Pos)
    requires
        old(sched)@.wf(),
    ensures
        final(sched)@ == old(sched)@.pushed(
            Pending { arrival: old(sched)@.generations, at, kind: EventKind::NewContact },
        ),
        final(sched)@.wf(),
{
    sched.push(MaterialEvent { at, kind: EventKind::NewContact });
}

/// Break: an external change on the six neighbours of the broken cell.
pub fn on_broken(sched: &mut ReactionScheduler, at: Pos)
    requires
        old(sched)@.wf(),
    ensures
        final(sched)@ == old(sched)@.woken(old(sched)@.generations, at, 6),
        final(sched)@.wf(),
{
    let arrival: u64 = sched.generations;
    sched.wake_neighbours(arrival, at);
}

impl ReactionScheduler {
    fn wake_neighbours(&mut self, arrival: u64, at: Pos)
        requires
            old(self)@.wf(),
        ensures
            final(self)@ == old(self)@.woken(arrival, at, 6),
            final(self)@.wf(),
    {
        let mut f: usize = 0;
        while f < 6
            invariant
                f <= 6,
                self@.wf(),
                self@ == old(self)@.woken(arrival, at, f as int),
            decreases 6 - f,
        {
            self.push_at(
                arrival,
                MaterialEvent { at: neighbour_of(at, f), kind: EventKind::ExternallyChanged },
            );
            f = f + 1;
        }
    }
}

/// Loaded cells.
pub type Cells = Map<Pos, BlockId>;

/// What acts on a cell: the acting blocks and their events, in order.
pub type Origins = Seq<(BlockId, EventKind)>;

/// What a store holds at a position: nothing where it is not loaded.
pub open spec fn read(cells: Cells, pos: Pos) -> Option<BlockId> {
    if cells.contains_key(pos) {
        Some(cells[pos])
    } else {
        None
    }
}

/// What the scheduler needs from the world: cells to read and write, and the
/// outcome of material interactions. Every answer follows from the store's state, so
/// stores in the same state answer alike on every machine.
pub trait CellStore: Sized {
    /// All that the answers of the store depend on.
    type State;

    /// The state of the store.
    spec fn state(&self) -> Self::State;

    /// The loaded cells of a state.
    spec fn cells(s: Self::State) -> Cells;

    /// What becomes of `target` when all `origins` act on it at once: the block for
    /// the result, or `None` where it does not change or has no block.
    spec fn outcome(s: Self::State, target: BlockId, origins: Origins) -> Option<BlockId>;

    /// The state after that interaction. It may have registered a new block.
    spec fn interacted(s: Self::State, target: BlockId, origins: Origins) -> Self::State;

    /// Whether a write is taken.
    spec fn takes(s: Self::State, pos: Pos, id: BlockId) -> bool;

    /// The state after a write that was taken.
    spec fn written(s: Self::State, pos: Pos, id: BlockId) -> Self::State;

    /// An interaction changes no cell.
    proof fn interacted_cells(s: Self::State, target: BlockId, origins: Origins)
        ensures
            Self::cells(Self::interacted(s, target, origins)) == Self::cells(s),
    ;

    /// A write that was taken changes its cell and no other.
    proof fn written_cells(s: Self::State, pos: Pos, id: BlockId)
        requires
            Self::takes(s, pos, id),
        ensures
            Self::cells(Self::written(s, pos, id)) == Self::cells(s).insert(pos, id),
    ;

    /// The material at a position. `None` for unloaded space, which never reacts.
    fn block_at(&self, pos: Pos) -> (r: Option<BlockId>)
        ensures
            r == read(Self::cells(self.state()), pos),
    ;

    /// Overwrites a cell. Returns the previous block, or `None` where the store
    /// refused the write and nothing changed.
    fn set_block(&mut self, pos: Pos, id: BlockId) -> (r: Option<BlockId>)
        ensures
            r is Some == Self::takes(old(self).state(), pos, id),
            final(self).state() == (if r is Some {
                Self::written(old(self).state(), pos, id)
            } else {
                old(self).state()
            }),
            r is Some && Self::cells(old(self).state()).contains_key(pos) ==> r == read(
                Self::cells(old(self).state()),
                pos,
            ),
    ;

    /// What becomes of `target` when all `origins` act on it at once: the block
    /// for the result, or `None` where it does not change or has no block. May
    /// register a new block; changes no cell.
    fn interact(&mut self, target: BlockId, origins: &Vec<(BlockId, EventKind)>) -> (r: Option<
        BlockId,
    >)
        ensures
            r == Self::outcome(old(self).state(), target, origins@),
            final(self).state() == Self::interacted(old(self).state(), target, origins@),
    ;
}

/// One action on a target: the acting block and its event.
#[verifier::ext_equal]
pub struct Action {
    pub target: Pos,
    pub origin: BlockId,
    pub kind: EventKind,
}

/// Whether there is matter at `p`.
pub open spec fn matter(cells: Cells, p: Pos) -> bool {
    cells.contains_key(p) && cells[p] != BlockId::air_spec()
}

/// The actions of event `e` across its first `n` faces.
pub open spec fn event_actions(cells: Cells, e: Pending, n: int) -> Seq<Action>
    decreases n,
{
    if n <= 0 {
        Seq::empty()
    } else {
        let rest = event_actions(cells, e, n - 1);
        let t = neighbour(e.at, n - 1);
        if matter(cells, e.at) && matter(cells, t) {
            rest.push(Action { target: t, origin: cells[e.at], kind: e.kind })
        } else {
            rest
        }
    }
}

/// All actions of a batch of events, in batch order.
pub open spec fn batch_actions(cells: Cells, batch: Seq<Pending>) -> Seq<Action>
    decreases batch.len(),
{
    if batch.len() == 0 {
        Seq::empty()
    } else {
        batch_actions(cells, batch.drop_last()) + event_actions(cells, batch.last(), 6)
    }
}

/// The (block, event) pairs of the actions on target `p`, in order.
pub open spec fn acting_on(actions: Seq<Action>, p: Pos) -> Origins
    decreases actions.len(),
{
    if actions.len() == 0 {
        Seq::empty()
    } else {
        let rest = acting_on(actions.drop_last(), p);
        if actions.last().target == p {
            rest.push((actions.last().origin, actions.last().kind))
        } else {
            rest
        }
    }
}

/// A cell to evaluate, with everything that acts on it.
pub struct Target {
    pub pos: Pos,
    pub block: BlockId,
    pub origins: Vec<(BlockId, EventKind)>,
}

/// A cell to evaluate, with everything that acts on it.
#[verifier::ext_equal]
pub struct TargetView {
    pub pos: Pos,
    pub block: BlockId,
    pub origins: Origins,
}

impl View for Target {
    type V = TargetView;

    open spec fn view(&self) -> TargetView {
        TargetView { pos: self.pos, block: self.block, origins: self.origins@ }
    }
}

/// The cells to evaluate.
pub open spec fn views(targets: Seq<Target>) -> Seq<TargetView> {
    Seq::new(targets.len(), |i: int| targets[i]@)
}

/// Whether `targets` lists every acted-on cell once, in position order, with its
/// block and all actions on it.
pub open spec fn gathered(
    targets: Seq<TargetView>,
    cells: Cells,
    actions: Seq<Action>,
) -> bool {
    &&& forall|i: int, j: int|
        0 <= i < j < targets.len() ==> pos_lt((#[trigger] targets[i]).pos, (
        #[trigger] targets[j]).pos)
    &&& forall|i: int|
        0 <= i < targets.len() ==> {
            let t = #[trigger] targets[i];
            &&& matter(cells, t.pos)
            &&& t.block == cells[t.pos]
            &&& t.origins == acting_on(actions, t.pos)
            &&& t.origins.len() > 0
        }
    &&& forall|k: int|
        0 <= k < actions.len() ==> exists|i: int|
            0 <= i < targets.len() && (#[trigger] targets[i]).pos == (#[trigger] actions[k]).target
}

/// The cells that a batch of events acts on, in position order, each with all that
/// acts on it.
pub open spec fn targets_of(cells: Cells, batch: Seq<Pending>) -> Seq<TargetView> {
    choose|t: Seq<TargetView>| #[trigger] gathered(t, cells, batch_actions(cells, batch))
}

proof fn lemma_acted(actions: Seq<Action>, p: Pos)
    requires
        acting_on(actions, p).len() > 0,
    ensures
        exists|k: int| 0 <= k < actions.len() && (#[trigger] actions[k]).target == p,
{
    if forall|k: int| 0 <= k < actions.len() ==> (#[trigger] actions[k]).target != p {
        lemma_not_acted(actions, p);
    }
}

/// The cells of `a` are among those of `b`.
proof fn lemma_gathered_among(
    a: Seq<TargetView>,
    b: Seq<TargetView>,
    cells: Cells,
    actions: Seq<Action>,
    i: int,
)
    requires
        gathered(a, cells, actions),
        gathered(b, cells, actions),
        0 <= i < a.len(),
    ensures
        b.contains(a[i]),
{
    lemma_acted(actions, a[i].pos);
    let k = choose|k: int| 0 <= k < actions.len() && (#[trigger] actions[k]).target == a[i].pos;
    let j = choose|j: int| 0 <= j < b.len() && (#[trigger] b[j]).pos == actions[k].target;
    assert(b[j] == a[i]);
}

proof fn lemma_gathered_same(
    a: Seq<TargetView>,
    b: Seq<TargetView>,
    cells: Cells,
    actions: Seq<Action>,
    n: int,
)
    requires
        gathered(a, cells, actions),
        gathered(b, cells, actions),
        0 <= n <= a.len(),
    ensures
        n <= b.len(),
        forall|i: int| 0 <= i < n ==> #[trigger] a[i] == b[i],
    decreases n,
{
    if n > 0 {
        let m = n - 1;
        lemma_gathered_same(a, b, cells, actions, m);
        lemma_gathered_among(a, b, cells, actions, m);
        let j = choose|j: int| 0 <= j < b.len() && b[j] == a[m];
        assert(j >= m) by {
            if j < m {
                assert(pos_lt(a[j].pos, a[m].pos));
                assert(a[j] == b[j]);
            }
        }
        lemma_gathered_among(b, a, cells, actions, m);
        let i = choose|i: int| 0 <= i < a.len() && a[i] == b[m];
        assert(i >= m) by {
            if i < m {
                assert(pos_lt(b[i].pos, b[m].pos));
                assert(a[i] == b[i]);
            }
        }
        if j > m {
            assert(pos_lt(b[m].pos, b[j].pos));
            if i > m {
                assert(pos_lt(a[m].pos, a[i].pos));
            }
        }
    }
}

/// Only one list gathers what a batch acts on.
proof fn lemma_gathered_unique(
    a: Seq<TargetView>,
    b: Seq<TargetView>,
    cells: Cells,
    actions: Seq<Action>,
)
    requires
        gathered(a, cells, actions),
        gathered(b, cells, actions),
    ensures
        a == b,
{
    lemma_gathered_same(a, b, cells, actions, a.len() as int);
    lemma_gathered_same(b, a, cells, actions, b.len() as int);
    assert(a =~= b);
}

proof fn lemma_acting_push(actions: Seq<Action>, a: Action, p: Pos)
    ensures
        acting_on(actions.push(a), p) == (if a.target == p {
            acting_on(actions, p).push((a.origin, a.kind))
        } else {
            acting_on(actions, p)
        }),
{
    assert(actions.push(a).drop_last() =~= actions);
}

proof fn lemma_not_acted(actions: Seq<Action>, p: Pos)
    requires
        forall|k: int| 0 <= k < actions.len() ==> (#[trigger] actions[k]).target != p,
    ensures
        acting_on(actions, p) == Origins::empty(),
    decreases actions.len(),
{
    if actions.len() > 0 {
        assert forall|k: int| 0 <= k < actions.drop_last().len() implies (
        #[trigger] actions.drop_last()[k]).target != p by {
            assert(actions[k].target != p);
        }
        lemma_not_acted(actions.drop_last(), p);
        assert(actions[actions.len() - 1].target != p);
    }
}

/// The targets with one more action: on the target at `i`, or on one that goes there.
pub open spec fn with_action(
    targets: Seq<TargetView>,
    i: int,
    a: Action,
    block: BlockId,
) -> Seq<TargetView> {
    if i < targets.len() && targets[i].pos == a.target {
        let t = targets[i];
        targets.update(i, TargetView { origins: t.origins.push((a.origin, a.kind)), ..t })
    } else {
        targets.insert(i, TargetView { pos: a.target, block, origins: seq![(a.origin, a.kind)] })
    }
}

/// One more action, put where its position belongs, keeps the targets gathered.
proof fn lemma_with_action(
    before: Seq<TargetView>,
    cells: Cells,
    actions: Seq<Action>,
    i: int,
    a: Action,
)
    requires
        gathered(before, cells, actions),
        matter(cells, a.target),
        0 <= i <= before.len(),
        forall|j: int| 0 <= j < i ==> pos_lt((#[trigger] before[j]).pos, a.target),
        i < before.len() ==> !pos_lt(before[i].pos, a.target),
    ensures
        gathered(with_action(before, i, a, cells[a.target]), cells, actions.push(a)),
{
    let pos = a.target;
    let grown = actions.push(a);
    let after = with_action(before, i, a, cells[pos]);
    if i < before.len() && before[i].pos == pos {
        assert forall|j: int| 0 <= j < after.len() implies after[j].pos == (#[trigger] before[j]).pos
            && after[j].block == before[j].block && (j != i ==> after[j].origins
            == before[j].origins) by {}
        assert forall|m: int, n: int| 0 <= m < n < after.len() implies pos_lt(
            (#[trigger] after[m]).pos,
            (#[trigger] after[n]).pos,
        ) by {
            assert(pos_lt(before[m].pos, before[n].pos));
        }
        assert forall|j: int| 0 <= j < after.len() implies {
            let t = #[trigger] after[j];
            &&& matter(cells, t.pos)
            &&& t.block == cells[t.pos]
            &&& t.origins == acting_on(grown, t.pos)
            &&& t.origins.len() > 0
        } by {
            let b = before[j];
            lemma_acting_push(actions, a, b.pos);
            if j != i {
                if j < i {
                    assert(pos_lt(before[j].pos, before[i].pos));
                } else {
                    assert(pos_lt(before[i].pos, before[j].pos));
                }
            }
        }
        assert forall|k: int| 0 <= k < grown.len() implies exists|j: int|
            0 <= j < after.len() && (#[trigger] after[j]).pos == (#[trigger] grown[k]).target by {
            if k < actions.len() {
                assert(grown[k] == actions[k]);
                let j = choose|j: int|
                    0 <= j < before.len() && (#[trigger] before[j]).pos == actions[k].target;
                assert(after[j].pos == before[j].pos);
            } else {
                assert(after[i].pos == pos);
            }
        }
    } else {
        assert forall|k: int| 0 <= k < actions.len() implies (#[trigger] actions[k]).target
            != pos by {
            let j = choose|j: int|
                0 <= j < before.len() && (#[trigger] before[j]).pos == actions[k].target;
            if i < before.len() && j > i {
                assert(pos_lt(before[i].pos, before[j].pos));
            }
        }
        lemma_not_acted(actions, pos);
        lemma_acting_push(actions, a, pos);
        assert(acting_on(grown, pos) =~= seq![(a.origin, a.kind)]);
        assert forall|j: int| 0 <= j < after.len() implies #[trigger] after[j] == (if j < i {
            before[j]
        } else if j == i {
            after[i]
        } else {
            before[j - 1]
        }) by {}
        assert forall|m: int, n: int| 0 <= m < n < after.len() implies pos_lt(
            (#[trigger] after[m]).pos,
            (#[trigger] after[n]).pos,
        ) by {
            let om = if m < i {
                m
            } else {
                m - 1
            };
            let on = if n < i {
                n
            } else {
                n - 1
            };
            if m != i && n != i {
                assert(pos_lt(before[om].pos, before[on].pos));
            } else if n == i {
                assert(pos_lt(before[m].pos, pos));
            } else {
                assert(!pos_lt(before[i].pos, pos) && before[i].pos != pos);
                if on > i {
                    assert(pos_lt(before[i].pos, before[on].pos));
                }
            }
        }
        assert forall|j: int| 0 <= j < after.len() implies {
            let t = #[trigger] after[j];
            &&& matter(cells, t.pos)
            &&& t.block == cells[t.pos]
            &&& t.origins == acting_on(grown, t.pos)
            &&& t.origins.len() > 0
        } by {
            if j != i {
                let oj = if j < i {
                    j
                } else {
                    j - 1
                };
                let b = before[oj];
                assert(b.pos != pos) by {
                    if j < i {
                        assert(pos_lt(after[j].pos, after[i].pos));
                    } else {
                        assert(pos_lt(after[i].pos, after[j].pos));
                    }
                }
                lemma_acting_push(actions, a, b.pos);
            }
        }
        assert forall|k: int| 0 <= k < grown.len() implies exists|j: int|
            0 <= j < after.len() && (#[trigger] after[j]).pos == (#[trigger] grown[k]).target by {
            if k < actions.len() {
                assert(grown[k] == actions[k]);
                let j = choose|j: int|
                    0 <= j < before.len() && (#[trigger] before[j]).pos == actions[k].target;
                if j < i {
                    assert(after[j] == before[j]);
                } else {
                    assert(after[j + 1] == before[j]);
                }
            } else {
                assert(after[i].pos == pos);
            }
        }
    }
}

/// Records one more action, keeping the targets gathered.
fn add_action(
    targets: &mut Vec<Target>,
    pos: Pos,
    block: BlockId,
    origin: BlockId,
    kind: EventKind,
    Ghost(cells): Ghost<Cells>,
    Ghost(actions): Ghost<Seq<Action>>,
)
    requires
        gathered(views(old(targets)@), cells, actions),
        matter(cells, pos),
        block == cells[pos],
    ensures
        gathered(views(final(targets)@), cells, actions.push(Action { target: pos, origin, kind })),
{
    let ghost rows = targets@;
    let ghost before = views(rows);
    let ghost a = Action { target: pos, origin, kind };
    let mut i: usize = 0;
    while i < targets.len() && pos_before(targets[i].pos, pos)
        invariant
            i <= targets@.len(),
            targets@ == rows,
            before == views(rows),
            forall|j: int| 0 <= j < i ==> pos_lt((#[trigger] before[j]).pos, pos),
        decreases targets@.len() - i,
    {
        i = i + 1;
    }
    proof {
        lemma_with_action(before, cells, actions, i as int, a);
    }
    if i < targets.len() && pos_same(targets[i].pos, pos) {
        targets[i].origins.push((origin, kind));
        assert(views(targets@) =~= with_action(before, i as int, a, block));
    } else {
        let mut origins: Vec<(BlockId, EventKind)> = Vec::new();
        origins.push((origin, kind));
        assert(origins@ =~= seq![(origin, kind)]);
        targets.insert(i, Target { pos, block, origins });
        assert(views(targets@) =~= with_action(before, i as int, a, block));
    }
}

/// The first place from `i` on whose target does not stand before `pos`.
proof fn lemma_place_for(targets: Seq<TargetView>, pos: Pos, i: int) -> (r: int)
    requires
        0 <= i <= targets.len(),
        forall|j: int| 0 <= j < i ==> pos_lt((#[trigger] targets[j]).pos, pos),
    ensures
        0 <= r <= targets.len(),
        forall|j: int| 0 <= j < r ==> pos_lt((#[trigger] targets[j]).pos, pos),
        r < targets.len() ==> !pos_lt(targets[r].pos, pos),
    decreases targets.len() - i,
{
    if i < targets.len() && pos_lt(targets[i].pos, pos) {
        lemma_place_for(targets, pos, i + 1)
    } else {
        i
    }
}

proof fn lemma_event_gathered(
    targets: Seq<TargetView>,
    cells: Cells,
    done: Seq<Action>,
    e: Pending,
    n: int,
) -> (after: Seq<TargetView>)
    requires
        gathered(targets, cells, done),
        0 <= n,
    ensures
        gathered(after, cells, done + event_actions(cells, e, n)),
    decreases n,
{
    if n == 0 {
        assert(done + event_actions(cells, e, n) =~= done);
        targets
    } else {
        let before = lemma_event_gathered(targets, cells, done, e, n - 1);
        let so_far = done + event_actions(cells, e, n - 1);
        let t = neighbour(e.at, n - 1);
        if matter(cells, e.at) && matter(cells, t) {
            let a = Action { target: t, origin: cells[e.at], kind: e.kind };
            let i = lemma_place_for(before, t, 0);
            lemma_with_action(before, cells, so_far, i, a);
            assert(done + event_actions(cells, e, n) =~= so_far.push(a));
            with_action(before, i, a, cells[t])
        } else {
            before
        }
    }
}

proof fn lemma_batch_gathered(cells: Cells, batch: Seq<Pending>) -> (targets: Seq<TargetView>)
    ensures
        gathered(targets, cells, batch_actions(cells, batch)),
    decreases batch.len(),
{
    if batch.len() == 0 {
        Seq::empty()
    } else {
        let before = lemma_batch_gathered(cells, batch.drop_last());
        lemma_event_gathered(
            before,
            cells,
            batch_actions(cells, batch.drop_last()),
            batch.last(),
            6,
        )
    }
}

/// The cells that a batch acts on are each listed once, in position order, with their
/// block and all that acts on them.
pub proof fn lemma_targets_gathered(cells: Cells, batch: Seq<Pending>)
    ensures
        gathered(targets_of(cells, batch), cells, batch_actions(cells, batch)),
{
    let t = lemma_batch_gathered(cells, batch);
    assert(gathered(t, cells, batch_actions(cells, batch)));
}

/// The cells that a batch of events acts on, all read from one state.
pub fn gather<S: CellStore>(store: &S, batch: &Vec<Pending>) -> (targets: Vec<Target>)
    ensures
        views(targets@) == targets_of(S::cells(store.state()), batch@),
        gathered(
            views(targets@),
            S::cells(store.state()),
            batch_actions(S::cells(store.state()), batch@),
        ),
{
    let ghost cells = S::cells(store.state());
    let mut targets: Vec<Target> = Vec::new();
    let mut b: usize = 0;
    assert(batch@.take(0) =~= Seq::empty());
    while b < batch.len()
        invariant
            b <= batch@.len(),
            cells == S::cells(store.state()),
            gathered(views(targets@), cells, batch_actions(cells, batch@.take(b as int))),
        decreases batch@.len() - b,
    {
        let e: Pending = batch[b];
        let ghost done = batch_actions(cells, batch@.take(b as int));
        proof {
            assert(batch@.take(b + 1).drop_last() =~= batch@.take(b as int));
            assert(batch@.take(b + 1).last() == e);
        }
        let origin: Option<BlockId> = store.block_at(e.at);
        let mut f: usize = 0;
        assert(done + event_actions(cells, e, 0) =~= done);
        while f < 6
            invariant
                f <= 6,
                cells == S::cells(store.state()),
                origin == read(cells, e.at),
                gathered(views(targets@), cells, done + event_actions(cells, e, f as int)),
            decreases 6 - f,
        {
            let ghost so_far = done + event_actions(cells, e, f as int);
            let tp: Pos = neighbour_of(e.at, f);
            let target: Option<BlockId> = store.block_at(tp);
            match (origin, target) {
                (Some(origin_id), Some(target_id)) => {
                    if origin_id != BlockId::air() && target_id != BlockId::air() {
                        add_action(
                            &mut targets,
                            tp,
                            target_id,
                            origin_id,
                            e.kind,
                            Ghost(cells),
                            Ghost(so_far),
                        );
                        assert(done + event_actions(cells, e, f + 1) =~= so_far.push(
                            Action { target: tp, origin: origin_id, kind: e.kind },
                        ));
                    }
                },
                _ => {},
            }
            f = f + 1;
        }
        b = b + 1;
    }
    assert(batch@.take(b as int) =~= batch@);
    proof {
        lemma_gathered_unique(
            views(targets@),
            targets_of(cells, batch@),
            cells,
            batch_actions(cells, batch@),
        );
    }
    targets
}

/// The changes that outcomes make to their targets: those with a result other
/// than the target itself, in target order.
pub open spec fn changes(targets: Seq<TargetView>, outcomes: Seq<Option<BlockId>>) -> Seq<Mutation>
    decreases targets.len(),
{
    if targets.len() == 0 {
        Seq::empty()
    } else {
        let rest = changes(targets.drop_last(), outcomes.drop_last());
        match outcomes.last() {
            Some(id) => if id != targets.last().block {
                rest.push(
                    Mutation { pos: targets.last().pos, from: targets.last().block, to: id },
                )
            } else {
                rest
            },
            None => rest,
        }
    }
}

/// The changes that outcomes make to their targets: those with a result other
/// than the target itself, in target order.
pub fn changes_of(targets: &Vec<Target>, outcomes: &Vec<Option<BlockId>>) -> (ms: Vec<Mutation>)
    requires
        outcomes@.len() == targets@.len(),
    ensures
        ms@ == changes(views(targets@), outcomes@),
{
    let mut ms: Vec<Mutation> = Vec::new();
    let mut i: usize = 0;
    while i < targets.len()
        invariant
            i <= targets@.len(),
            outcomes@.len() == targets@.len(),
            ms@ == changes(views(targets@).take(i as int), outcomes@.take(i as int)),
        decreases targets@.len() - i,
    {
        proof {
            assert(views(targets@).take(i + 1).drop_last() =~= views(targets@).take(i as int));
            assert(outcomes@.take(i + 1).drop_last() =~= outcomes@.take(i as int));
        }
        if let Some(id) = outcomes[i] {
            if id != targets[i].block {
                ms.push(Mutation { pos: targets[i].pos, from: targets[i].block, to: id });
            }
        }
        i = i + 1;
    }
    assert(views(targets@).take(i as int) =~= views(targets@));
    assert(outcomes@.take(i as int) =~= outcomes@);
    ms
}

/// The state of a store after it was asked about the first `n` targets, in order.
pub open spec fn asked<S: CellStore>(s: S::State, targets: Seq<TargetView>, n: int) -> S::State
    decreases n,
{
    if n <= 0 {
        s
    } else {
        S::interacted(
            asked::<S>(s, targets, n - 1),
            targets[n - 1].block,
            targets[n - 1].origins,
        )
    }
}

/// What becomes of each target: the store's answer for its block and all that acts on
/// it, asked for in order.
pub open spec fn outcomes_of<S: CellStore>(s: S::State, targets: Seq<TargetView>) -> Seq<
    Option<BlockId>,
> {
    Seq::new(
        targets.len(),
        |i: int| S::outcome(asked::<S>(s, targets, i), targets[i].block, targets[i].origins),
    )
}

/// A scheduler, the state of its world, and what a tick has committed so far.
#[verifier::ext_equal]
pub struct SimState<T> {
    pub sched: SchedView,
    pub store: T,
    pub committed: Seq<Mutation>,
}

/// Scheduler and commits after a change that the store took: it is committed, and the
/// six neighbours wake in the next generation.
pub open spec fn counted(v: SchedView, m: Mutation) -> SchedView {
    SchedView { mutations: v.mutations.wrapping_add(1), ..v }.woken(
        v.generations.wrapping_add(1),
        m.pos,
        6,
    )
}

/// The state after changes are offered to the store in order. One that the store takes
/// is written, committed, and wakes its neighbours; one that it refuses leaves no trace.
pub open spec fn offered<S: CellStore>(s: SimState<S::State>, ms: Seq<Mutation>) -> SimState<
    S::State,
>
    decreases ms.len(),
{
    if ms.len() == 0 {
        s
    } else {
        let t = offered::<S>(s, ms.drop_last());
        let m = ms.last();
        if S::takes(t.store, m.pos, m.to) {
            SimState {
                sched: counted(t.sched, m),
                store: S::written(t.store, m.pos, m.to),
                committed: t.committed.push(m),
            }
        } else {
            t
        }
    }
}

/// The number of events in the next batch.
pub open spec fn batch_len(v: SchedView, budget: Budget) -> int {
    if v.queue.len() < budget.events_per_generation {
        v.queue.len() as int
    } else {
        budget.events_per_generation as int
    }
}

/// The cells that the next generation evaluates.
pub open spec fn next_targets<S: CellStore>(s: SimState<S::State>, budget: Budget) -> Seq<
    TargetView,
> {
    targets_of(S::cells(s.store), s.sched.queue.take(batch_len(s.sched, budget)))
}

/// The changes that the next generation offers to the store.
pub open spec fn next_changes<S: CellStore>(s: SimState<S::State>, budget: Budget) -> Seq<
    Mutation,
> {
    let targets = next_targets::<S>(s, budget);
    changes(targets, outcomes_of::<S>(s.store, targets))
}

/// The state between evaluating a generation and offering its changes: the batch has
/// left the queue, and the store was asked about every target.
pub open spec fn evaluated<S: CellStore>(s: SimState<S::State>, budget: Budget) -> SimState<
    S::State,
> {
    let targets = next_targets::<S>(s, budget);
    SimState {
        sched: SchedView { queue: s.sched.queue.skip(batch_len(s.sched, budget)), ..s.sched },
        store: asked::<S>(s.store, targets, targets.len() as int),
        ..s
    }
}

/// The state after one generation: the oldest events leave the queue, all their
/// interactions are evaluated on the cells as they were, and the changes are offered in
/// position order.
pub open spec fn generation<S: CellStore>(s: SimState<S::State>, budget: Budget) -> SimState<
    S::State,
> {
    let end = offered::<S>(evaluated::<S>(s, budget), next_changes::<S>(s, budget));
    SimState {
        sched: SchedView { generations: end.sched.generations.wrapping_add(1), ..end.sched },
        ..end
    }
}

/// The state after up to `n` generations; they end early once no event is left.
pub open spec fn generations<S: CellStore>(
    s: SimState<S::State>,
    budget: Budget,
    n: int,
) -> SimState<S::State>
    decreases n,
{
    if n <= 0 || s.sched.queue.len() == 0 {
        s
    } else {
        generations::<S>(generation::<S>(s, budget), budget, n - 1)
    }
}

/// The state after a tick of a scheduler on a store.
pub open spec fn ticked<S: CellStore>(v: SchedView, store: S::State, budget: Budget) -> SimState<
    S::State,
> {
    generations::<S>(
        SimState { sched: v, store, committed: Seq::empty() },
        budget,
        budget.generations_per_tick as int,
    )
}

proof fn lemma_skip_ok(q: Seq<Pending>, n: int)
    requires
        queue_ok(q),
        0 <= n <= q.len(),
    ensures
        queue_ok(q.skip(n)),
{
    let p = q.skip(n);
    assert forall|i: int, j: int| 0 <= i < j < p.len() implies pending_lt(
        #[trigger] p[i],
        #[trigger] p[j],
    ) && !same_event(p[i], p[j]) by {
        assert(pending_lt(q[i + n], q[j + n]) && !same_event(q[i + n], q[j + n]));
    }
}

/// Asks the store what becomes of each target, in order.
pub fn evaluate<S: CellStore>(store: &mut S, targets: &Vec<Target>) -> (outcomes: Vec<
    Option<BlockId>,
>)
    ensures
        outcomes@ == outcomes_of::<S>(old(store).state(), views(targets@)),
        final(store).state() == asked::<S>(
            old(store).state(),
            views(targets@),
            targets@.len() as int,
        ),
{
    let ghost ts = views(targets@);
    let ghost s0 = store.state();
    let mut outcomes: Vec<Option<BlockId>> = Vec::new();
    let mut i: usize = 0;
    while i < targets.len()
        invariant
            i <= targets@.len(),
            ts == views(targets@),
            s0 == old(store).state(),
            outcomes@ == outcomes_of::<S>(s0, ts).take(i as int),
            store.state() == asked::<S>(s0, ts, i as int),
        decreases targets@.len() - i,
    {
        let out: Option<BlockId> = store.interact(targets[i].block, &targets[i].origins);
        proof {
            assert(ts[i as int] == targets@[i as int]@);
            assert(outcomes_of::<S>(s0, ts).take(i + 1) =~= outcomes_of::<S>(s0, ts).take(
                i as int,
            ).push(out));
        }
        outcomes.push(out);
        i = i + 1;
    }
    assert(outcomes_of::<S>(s0, ts).take(i as int) =~= outcomes_of::<S>(s0, ts));
    outcomes
}

impl ReactionScheduler {
    /// Takes the oldest events off the queue, at most `limit` of them.
    fn take_batch(&mut self, limit: usize) -> (batch: Vec<Pending>)
        requires
            old(self)@.wf(),
        ensures
            ({
                let n = if old(self)@.queue.len() < limit {
                    old(self)@.queue.len() as int
                } else {
                    limit as int
                };
                &&& batch@ == old(self)@.queue.take(n)
                &&& final(self)@ == (SchedView { queue: old(self)@.queue.skip(n), ..old(self)@ })
            }),
            final(self)@.wf(),
    {
        let n: usize = if self.queue.len() < limit {
            self.queue.len()
        } else {
            limit
        };
        let ghost q = self.queue@;
        let mut rest: Vec<Pending> = self.queue.split_off(n);
        core::mem::swap(&mut rest, &mut self.queue);
        proof {
            assert(rest@ =~= q.take(n as int));
            assert(self.queue@ =~= q.skip(n as int));
            lemma_skip_ok(q, n as int);
        }
        rest
    }

    /// Takes note of the store's reply to a change that was offered: one that it took
    /// is committed and wakes its neighbours, one that it refused leaves no trace.
    pub fn settle(
        &mut self,
        m: Mutation,
        reply: Option<BlockId>,
        committed: &mut Vec<Mutation>,
    )
        requires
            old(self)@.wf(),
        ensures
            final(self)@ == (if reply is Some {
                counted(old(self)@, m)
            } else {
                old(self)@
            }),
            final(committed)@ == (if reply is Some {
                old(committed)@.push(m)
            } else {
                old(committed)@
            }),
            final(self)@.wf(),
            final(self)@.generations == old(self)@.generations,
            final(self)@.capacity == old(self)@.capacity,
    {
        if reply.is_some() {
            let next: u64 = self.generations.wrapping_add(1);
            committed.push(m);
            self.mutations = self.mutations.wrapping_add(1);
            proof {
                assert(self@ == (SchedView {
                    mutations: old(self)@.mutations.wrapping_add(1),
                    ..old(self)@
                }));
                lemma_woken_wf(self@, next, m.pos, 6);
            }
            self.wake_neighbours(next, m.pos);
        }
    }

    /// Offers changes to the store in order and wakes the neighbours of each
    /// that was accepted.
    fn offer<S: CellStore>(&mut self, store: &mut S, ms: &Vec<Mutation>, committed: &mut Vec<
        Mutation,
    >)
        requires
            old(self)@.wf(),
        ensures
            (SimState {
                sched: final(self)@,
                store: final(store).state(),
                committed: final(committed)@,
            }) == offered::<S>(
                SimState {
                    sched: old(self)@,
                    store: old(store).state(),
                    committed: old(committed)@,
                },
                ms@,
            ),
            final(self)@.wf(),
            final(self)@.generations == old(self)@.generations,
            final(self)@.capacity == old(self)@.capacity,
    {
        let ghost pre = SimState {
            sched: self@,
            store: store.state(),
            committed: committed@,
        };
        let mut i: usize = 0;
        assert(ms@.take(0) =~= Seq::empty());
        while i < ms.len()
            invariant
                i <= ms@.len(),
                self@.wf(),
                self@.generations == pre.sched.generations,
                self@.capacity == pre.sched.capacity,
                (SimState { sched: self@, store: store.state(), committed: committed@ })
                    == offered::<S>(pre, ms@.take(i as int)),
            decreases ms@.len() - i,
        {
            let m: Mutation = ms[i];
            proof {
                assert(ms@.take(i + 1).drop_last() =~= ms@.take(i as int));
            }
            let reply: Option<BlockId> = store.set_block(m.pos, m.to);
            self.settle(m, reply, committed);
            i = i + 1;
        }
        assert(ms@.take(i as int) =~= ms@);
    }

    /// Runs generations until the tick's budget is spent or no event is left.
    /// Returns what was committed, in order.
    pub fn tick<S: CellStore>(&mut self, store: &mut S, budget: Budget) -> (committed: Vec<
        Mutation,
    >)
        requires
            old(self)@.wf(),
        ensures
            (SimState {
                sched: final(self)@,
                store: final(store).state(),
                committed: committed@,
            }) == ticked::<S>(old(self)@, old(store).state(), budget),
            final(self)@.wf(),
            final(self)@.capacity == old(self)@.capacity,
    {
        let mut committed: Vec<Mutation> = Vec::new();
        let ghost n = budget.generations_per_tick as int;
        let ghost first = SimState {
            sched: self@,
            store: store.state(),
            committed: committed@,
        };
        let mut g: u32 = 0;
        while g < budget.generations_per_tick && self.queue.len() > 0
            invariant
                g <= budget.generations_per_tick,
                n == budget.generations_per_tick,
                self@.wf(),
                self@.capacity == old(self)@.capacity,
                generations::<S>(first, budget, n) == generations::<S>(
                    (SimState { sched: self@, store: store.state(), committed: committed@ }),
                    budget,
                    n - g,
                ),
            decreases budget.generations_per_tick - g,
        {
            let ghost pre = SimState {
                sched: self@,
                store: store.state(),
                committed: committed@,
            };
            let batch: Vec<Pending> = self.take_batch(budget.events_per_generation);
            let targets: Vec<Target> = gather(store, &batch);
            let outcomes: Vec<Option<BlockId>> = evaluate(store, &targets);
            let ms: Vec<Mutation> = changes_of(&targets, &outcomes);
            proof {
                assert(views(targets@) == next_targets::<S>(pre, budget));
                assert((SimState { sched: self@, store: store.state(), committed: committed@ })
                    == evaluated::<S>(pre, budget));
            }
            self.offer(store, &ms, &mut committed);
            self.generations = self.generations.wrapping_add(1);
            proof {
                assert((SimState { sched: self@, store: store.state(), committed: committed@ })
                    == generation::<S>(pre, budget));
            }
            g = g + 1;
        }
        assert(first.committed =~= Seq::empty());
        committed
    }
}

/// Oldest first: every event of a batch comes before every event left waiting.
pub proof fn lemma_oldest_first(v: SchedView, budget: Budget, i: int, j: int)
    requires
        v.wf(),
        0 <= i < batch_len(v, budget),
        0 <= j < v.queue.len() - batch_len(v, budget),
    ensures
        pending_lt(
            v.queue.take(batch_len(v, budget))[i],
            v.queue.skip(batch_len(v, budget))[j],
        ),
{
    let n = batch_len(v, budget);
    assert(pending_lt(v.queue[i], v.queue[n + j]));
}

/// Every change of a generation is a real one, starts from the block that the
/// cell held when the generation began, and comes in position order.
pub proof fn lemma_changes_ordered(
    targets: Seq<TargetView>,
    outcomes: Seq<Option<BlockId>>,
    cells: Cells,
    actions: Seq<Action>,
)
    requires
        gathered(targets, cells, actions),
        outcomes.len() == targets.len(),
    ensures
        forall|i: int, j: int|
            0 <= i < j < changes(targets, outcomes).len() ==> pos_lt(
                (#[trigger] changes(targets, outcomes)[i]).pos,
                (#[trigger] changes(targets, outcomes)[j]).pos,
            ),
        forall|i: int|
            0 <= i < changes(targets, outcomes).len() ==> {
                let m = #[trigger] changes(targets, outcomes)[i];
                &&& matter(cells, m.pos)
                &&& m.from == cells[m.pos]
                &&& m.to != m.from
                &&& exists|t: int|
                    0 <= t < targets.len() && (#[trigger] targets[t]).pos == m.pos && outcomes[t]
                        == Some(m.to)
            },
{
    lemma_changes_prefix(targets, outcomes, targets.len() as int);
    assert(targets.take(targets.len() as int) =~= targets);
    assert(outcomes.take(targets.len() as int) =~= outcomes);
    let ms = changes(targets, outcomes);
    assert forall|i: int, j: int| 0 <= i < j < ms.len() implies pos_lt(
        (#[trigger] ms[i]).pos,
        (#[trigger] ms[j]).pos,
    ) by {}
}

proof fn lemma_changes_prefix(targets: Seq<TargetView>, outcomes: Seq<Option<BlockId>>, n: int)
    requires
        forall|i: int, j: int|
            0 <= i < j < targets.len() ==> pos_lt((#[trigger] targets[i]).pos, (
            #[trigger] targets[j]).pos),
        outcomes.len() == targets.len(),
        0 <= n <= targets.len(),
    ensures
        ({
            let ms = changes(targets.take(n), outcomes.take(n));
            &&& forall|i: int, j: int|
                0 <= i < j < ms.len() ==> pos_lt((#[trigger] ms[i]).pos, (#[trigger] ms[j]).pos)
            &&& forall|i: int|
                0 <= i < ms.len() ==> exists|t: int|
                    0 <= t < n && (#[trigger] targets[t]).pos == (#[trigger] ms[i]).pos
                        && targets[t].block == ms[i].from && ms[i].to != ms[i].from
                        && outcomes[t] == Some(ms[i].to)
        }),
    decreases n,
{
    if n > 0 {
        lemma_changes_prefix(targets, outcomes, n - 1);
        assert(targets.take(n).drop_last() =~= targets.take(n - 1));
        assert(outcomes.take(n).drop_last() =~= outcomes.take(n - 1));
        let prev = changes(targets.take(n - 1), outcomes.take(n - 1));
        let ms = changes(targets.take(n), outcomes.take(n));
        assert forall|i: int| 0 <= i < ms.len() implies exists|t: int|
            0 <= t < n && (#[trigger] targets[t]).pos == (#[trigger] ms[i]).pos && targets[t].block
                == ms[i].from && ms[i].to != ms[i].from && outcomes[t] == Some(ms[i].to) by {
            if i < prev.len() {
                assert(ms[i] == prev[i]);
                let t = choose|t: int|
                    0 <= t < n - 1 && (#[trigger] targets[t]).pos == prev[i].pos
                        && targets[t].block == prev[i].from && prev[i].to != prev[i].from
                        && outcomes[t] == Some(prev[i].to);
                assert(targets[t].pos == ms[i].pos);
            } else {
                assert(targets[n - 1].pos == ms[i].pos);
            }
        }
        assert forall|i: int, j: int| 0 <= i < j < ms.len() implies pos_lt(
            (#[trigger] ms[i]).pos,
            (#[trigger] ms[j]).pos,
        ) by {
            assert(ms[i] == prev[i]);
            if j < prev.len() {
                assert(ms[j] == prev[j]);
            } else {
                let t = choose|t: int|
                    0 <= t < n - 1 && (#[trigger] targets[t]).pos == prev[i].pos
                        && targets[t].block == prev[i].from && prev[i].to != prev[i].from;
                assert(pos_lt(targets[t].pos, targets[n - 1].pos));
            }
        }
    }
}

proof fn lemma_pushed_keeps(v: SchedView, e: Pending, w: Pending)
    requires
        v.wf(),
        v.queue.contains(w),
    ensures
        v.pushed(e).queue.contains(w),
{
    let i = choose|i: int| 0 <= i < v.queue.len() && v.queue[i] == w;
    if !v.waiting(e) && v.queue.len() < v.capacity {
        lemma_rank(v.queue, e);
        let r = rank(v.queue, e);
        let q = v.queue.insert(r, e);
        if i < r {
            assert(q[i] == w);
        } else {
            assert(q[i + 1] == w);
        }
    }
}

proof fn lemma_woken_keeps(v: SchedView, arrival: u64, p: Pos, n: int, w: Pending)
    requires
        v.wf(),
        v.queue.contains(w),
    ensures
        v.woken(arrival, p, n).queue.contains(w),
    decreases n,
{
    if n > 0 {
        lemma_woken_keeps(v, arrival, p, n - 1, w);
        lemma_woken_wf(v, arrival, p, n - 1);
        lemma_pushed_keeps(
            v.woken(arrival, p, n - 1),
            Pending { arrival, at: neighbour(p, n - 1), kind: EventKind::ExternallyChanged },
            w,
        );
    }
}

proof fn lemma_counted(v: SchedView, m: Mutation)
    requires
        v.wf(),
    ensures
        counted(v, m).wf(),
        counted(v, m).capacity == v.capacity,
        counted(v, m).generations == v.generations,
        counted(v, m).mutations == v.mutations.wrapping_add(1),
        forall|w: Pending| v.queue.contains(w) ==> #[trigger] counted(v, m).queue.contains(w),
{
    let u = SchedView { mutations: v.mutations.wrapping_add(1), ..v };
    let g = v.generations.wrapping_add(1);
    lemma_woken_wf(u, g, m.pos, 6);
    assert forall|w: Pending| v.queue.contains(w) implies #[trigger] counted(
        v,
        m,
    ).queue.contains(w) by {
        lemma_woken_keeps(u, g, m.pos, 6, w);
    }
}

proof fn lemma_offered_wf<S: CellStore>(s: SimState<S::State>, ms: Seq<Mutation>)
    requires
        s.sched.wf(),
    ensures
        offered::<S>(s, ms).sched.wf(),
        offered::<S>(s, ms).sched.capacity == s.sched.capacity,
        offered::<S>(s, ms).sched.generations == s.sched.generations,
        forall|w: Pending|
            s.sched.queue.contains(w) ==> #[trigger] offered::<S>(s, ms).sched.queue.contains(w),
    decreases ms.len(),
{
    if ms.len() > 0 {
        lemma_offered_wf::<S>(s, ms.drop_last());
        let t = offered::<S>(s, ms.drop_last());
        lemma_counted(t.sched, ms.last());
    }
}

proof fn lemma_evaluated_wf<S: CellStore>(s: SimState<S::State>, budget: Budget)
    requires
        s.sched.wf(),
    ensures
        evaluated::<S>(s, budget).sched.wf(),
{
    lemma_skip_ok(s.sched.queue, batch_len(s.sched, budget));
}

/// Events beyond the budget are deferred, never lost: each is still waiting
/// after the generation.
pub proof fn lemma_deferred_events_survive<S: CellStore>(
    s: SimState<S::State>,
    budget: Budget,
    w: Pending,
)
    requires
        s.sched.wf(),
        s.sched.queue.skip(batch_len(s.sched, budget)).contains(w),
    ensures
        generation::<S>(s, budget).sched.queue.contains(w),
{
    lemma_evaluated_wf::<S>(s, budget);
    lemma_offered_wf::<S>(evaluated::<S>(s, budget), next_changes::<S>(s, budget));
}

/// A tick with no pending event changes nothing and asks the store nothing.
pub proof fn lemma_quiet_tick<S: CellStore>(v: SchedView, store: S::State, budget: Budget)
    requires
        v.queue.len() == 0,
    ensures
        ticked::<S>(v, store, budget) == (SimState { sched: v, store, committed: Seq::empty() }),
{
}

pub(crate) proof fn lemma_sorted_unique(a: Seq<Pending>, b: Seq<Pending>)
    requires
        queue_ok(a),
        queue_ok(b),
        a.len() == b.len(),
        forall|e: Pending| a.contains(e) <==> b.contains(e),
    ensures
        a == b,
    decreases a.len(),
{
    if a.len() > 0 {
        let n = a.len() - 1;
        assert(a.contains(a[n]) && b.contains(b[n]));
        let i = choose|i: int| 0 <= i < b.len() && b[i] == a[n];
        let j = choose|j: int| 0 <= j < a.len() && a[j] == b[n];
        if i < n {
            assert(pending_lt(b[i], b[n]));
            if j < n {
                assert(pending_lt(a[j], a[n]));
            }
        }
        assert(a[n] == b[n]);
        let a1 = a.drop_last();
        let b1 = b.drop_last();
        assert forall|k: int, m: int| 0 <= k < m < a1.len() implies pending_lt(
            #[trigger] a1[k],
            #[trigger] a1[m],
        ) && !same_event(a1[k], a1[m]) by {
            assert(pending_lt(a[k], a[m]) && !same_event(a[k], a[m]));
        }
        assert forall|k: int, m: int| 0 <= k < m < b1.len() implies pending_lt(
            #[trigger] b1[k],
            #[trigger] b1[m],
        ) && !same_event(b1[k], b1[m]) by {
            assert(pending_lt(b[k], b[m]) && !same_event(b[k], b[m]));
        }
        assert forall|e: Pending| a1.contains(e) <==> b1.contains(e) by {
            if a1.contains(e) {
                let k = choose|k: int| 0 <= k < a1.len() && a1[k] == e;
                assert(pending_lt(a[k], a[n]));
                assert(a.contains(e));
                let m = choose|m: int| 0 <= m < b.len() && b[m] == e;
                assert(m < n);
                assert(b1[m] == e);
            }
            if b1.contains(e) {
                let k = choose|k: int| 0 <= k < b1.len() && b1[k] == e;
                assert(pending_lt(b[k], b[n]));
                assert(b.contains(e));
                let m = choose|m: int| 0 <= m < a.len() && a[m] == e;
                assert(m < n);
                assert(a1[m] == e);
            }
        }
        lemma_sorted_unique(a1, b1);
        assert(a =~= a1.push(a[n]));
        assert(b =~= b1.push(b[n]));
    } else {
        assert(a =~= b);
    }
}

pub(crate) proof fn lemma_inserted(q: Seq<Pending>, e: Pending)
    requires
        queue_ok(q),
    ensures
        forall|x: Pending| #[trigger]
            q.insert(rank(q, e), e).contains(x) <==> (q.contains(x) || x == e),
{
    lemma_rank(q, e);
    let r = rank(q, e);
    let n = q.insert(r, e);
    assert forall|x: Pending| #[trigger] n.contains(x) <==> (q.contains(x) || x == e) by {
        if n.contains(x) {
            let k = choose|k: int| 0 <= k < n.len() && n[k] == x;
            if k < r {
                assert(q[k] == x);
            } else if k > r {
                assert(q[k - 1] == x);
            }
        }
        if q.contains(x) {
            let k = choose|k: int| 0 <= k < q.len() && q[k] == x;
            if k < r {
                assert(n[k] == x);
            } else {
                assert(n[k + 1] == x);
            }
        }
        if x == e {
            assert(n[r] == x);
        }
    }
}

/// The order in which the events of one generation are handed in does not
/// matter, as long as there is room for them.
pub proof fn lemma_pushes_commute(v: SchedView, a: Pending, b: Pending)
    requires
        v.wf(),
        v.queue.len() + 2 <= v.capacity,
        a.arrival == b.arrival,
    ensures
        v.pushed(a).pushed(b) == v.pushed(b).pushed(a),
{
    lemma_pushed_wf(v, a);
    lemma_pushed_wf(v, b);
    lemma_pushed_wf(v.pushed(a), b);
    lemma_pushed_wf(v.pushed(b), a);
    if a != b {
        lemma_waiting_after(v, a, b);
        lemma_waiting_after(v, b, a);
        if !v.waiting(a) && !v.waiting(b) {
            lemma_inserted(v.queue, a);
            lemma_inserted(v.queue, b);
            lemma_inserted(v.pushed(a).queue, b);
            lemma_inserted(v.pushed(b).queue, a);
            lemma_rank(v.queue, a);
            lemma_rank(v.queue, b);
            lemma_rank(v.pushed(a).queue, b);
            lemma_rank(v.pushed(b).queue, a);
            lemma_sorted_unique(v.pushed(a).pushed(b).queue, v.pushed(b).pushed(a).queue);
        }
    }
}

pub(crate) proof fn lemma_waiting_after(v: SchedView, a: Pending, b: Pending)
    requires
        v.wf(),
        !same_event(a, b),
    ensures
        v.pushed(a).waiting(b) == v.waiting(b),
{
    let q = v.queue;
    let w = v.pushed(a).queue;
    lemma_rank(q, a);
    let r = rank(q, a);
    let grows = !v.waiting(a) && q.len() < v.capacity;
    if v.waiting(b) {
        let i = choose|i: int| 0 <= i < q.len() && same_event(#[trigger] q[i], b);
        let k = if grows && i >= r {
            i + 1
        } else {
            i
        };
        assert(same_event(w[k], b));
    }
    if v.pushed(a).waiting(b) {
        let i = choose|i: int|
            0 <= i < v.pushed(a).queue.len() && same_event(#[trigger] v.pushed(a).queue[i], b);
        let k = if grows && i > r {
            i - 1
        } else {
            i
        };
        assert(same_event(q[k], b));
    }
}

/// Events wait by age: what arrived for an earlier generation comes first; of one
/// generation the lower x, then y, then z; and of one cell moves come before contacts,
/// collisions and outside changes. Of two different events one comes first.
pub proof fn lemma_queue_order(a: Pending, b: Pending)
    ensures
        a.arrival < b.arrival ==> pending_lt(a, b),
        a.arrival == b.arrival && a.at.0 < b.at.0 ==> pending_lt(a, b),
        a.arrival == b.arrival && a.at.0 == b.at.0 && a.at.1 < b.at.1 ==> pending_lt(a, b),
        a.arrival == b.arrival && a.at.0 == b.at.0 && a.at.1 == b.at.1 && a.at.2 < b.at.2
            ==> pending_lt(a, b),
        a.arrival == b.arrival && a.at == b.at && a.kind == EventKind::Moved && b.kind
            != EventKind::Moved ==> pending_lt(a, b),
        a.arrival == b.arrival && a.at == b.at && a.kind == EventKind::NewContact && (b.kind
            == EventKind::Collision || b.kind == EventKind::ExternallyChanged) ==> pending_lt(a, b),
        a.arrival == b.arrival && a.at == b.at && a.kind == EventKind::Collision && b.kind
            == EventKind::ExternallyChanged ==> pending_lt(a, b),
        pending_lt(a, b) ==> !pending_lt(b, a),
        a != b ==> pending_lt(a, b) || pending_lt(b, a),
{
}

/// An event that arrives waits from then on, unless the queue is full, in which case one
/// more is counted as dropped; one that waits already changes nothing; and what waited
/// goes on waiting.
pub proof fn lemma_push_outcomes(v: SchedView, e: Pending, w: Pending)
    requires
        v.wf(),
    ensures
        v.waiting(e) ==> v.pushed(e) == v,
        !v.waiting(e) && v.queue.len() < v.capacity ==> v.pushed(e).queue.contains(e)
            && v.pushed(e).queue.len() == v.queue.len() + 1 && v.pushed(e).dropped == v.dropped,
        !v.waiting(e) && v.queue.len() == v.capacity ==> v.pushed(e).queue == v.queue,
        !v.waiting(e) && v.queue.len() == v.capacity && v.dropped < u64::MAX ==> v.pushed(
            e,
        ).dropped == v.dropped + 1,
        v.queue.contains(w) ==> v.pushed(e).queue.contains(w),
        v.pushed(e).queue.contains(w) ==> v.queue.contains(w) || w == e,
{
    lemma_rank(v.queue, e);
    lemma_inserted(v.queue, e);
    if v.queue.contains(w) {
        lemma_pushed_keeps(v, e, w);
    }
}

proof fn lemma_woken_waits(v: SchedView, arrival: u64, p: Pos, n: int, f: int)
    requires
        v.wf(),
        0 <= f < n <= 6,
        v.queue.len() + n <= v.capacity,
    ensures
        v.woken(arrival, p, n).queue.len() <= v.queue.len() + n,
        v.woken(arrival, p, n).dropped == v.dropped,
        v.woken(arrival, p, n).waiting(
            Pending { arrival, at: neighbour(p, f), kind: EventKind::ExternallyChanged },
        ),
    decreases n,
{
    let before = v.woken(arrival, p, n - 1);
    let e = Pending { arrival, at: neighbour(p, n - 1), kind: EventKind::ExternallyChanged };
    lemma_woken_wf(v, arrival, p, n - 1);
    lemma_woken_len(v, arrival, p, n - 1);
    lemma_push_outcomes(before, e, e);
    if f < n - 1 {
        lemma_woken_waits(v, arrival, p, n - 1, f);
        let g = Pending { arrival, at: neighbour(p, f), kind: EventKind::ExternallyChanged };
        let i = choose|i: int| 0 <= i < before.queue.len() && same_event(#[trigger] before.queue[i], g);
        let w = before.queue[i];
        assert(before.queue.contains(w));
        lemma_push_outcomes(before, e, w);
        let after = before.pushed(e).queue;
        let k = choose|k: int| 0 <= k < after.len() && after[k] == w;
        assert(same_event(after[k], g));
    } else if !before.waiting(e) {
        let after = before.pushed(e).queue;
        let k = choose|k: int| 0 <= k < after.len() && after[k] == e;
        assert(same_event(after[k], e));
    }
}

proof fn lemma_woken_len(v: SchedView, arrival: u64, p: Pos, n: int)
    requires
        v.wf(),
        0 <= n <= 6,
        v.queue.len() + n <= v.capacity,
    ensures
        v.woken(arrival, p, n).queue.len() <= v.queue.len() + n,
        v.woken(arrival, p, n).dropped == v.dropped,
    decreases n,
{
    if n > 0 {
        let before = v.woken(arrival, p, n - 1);
        let e = Pending { arrival, at: neighbour(p, n - 1), kind: EventKind::ExternallyChanged };
        lemma_woken_wf(v, arrival, p, n - 1);
        lemma_woken_len(v, arrival, p, n - 1);
        lemma_push_outcomes(before, e, e);
    }
}

proof fn lemma_woken_only(v: SchedView, arrival: u64, p: Pos, n: int, w: Pending)
    requires
        v.wf(),
        0 <= n <= 6,
        v.woken(arrival, p, n).queue.contains(w),
    ensures
        v.queue.contains(w) || w.arrival == arrival && w.kind == EventKind::ExternallyChanged
            && exists|f: int| 0 <= f < 6 && w.at == #[trigger] neighbour(p, f),
    decreases n,
{
    if n > 0 {
        let before = v.woken(arrival, p, n - 1);
        let e = Pending { arrival, at: neighbour(p, n - 1), kind: EventKind::ExternallyChanged };
        lemma_woken_wf(v, arrival, p, n - 1);
        lemma_push_outcomes(before, e, w);
        if before.queue.contains(w) {
            lemma_woken_only(v, arrival, p, n - 1, w);
        }
    }
}

/// A cell that changes wakes what it touches: as long as there is room, an outside-change
/// event waits at every cell that shares a face with it, and nothing else is new in the
/// queue.
pub proof fn lemma_change_wakes_what_it_touches(v: SchedView, arrival: u64, p: Pos, q: Pos, w: Pending)
    requires
        v.wf(),
        v.queue.len() + 6 <= v.capacity,
        i32::MIN < p.0 < i32::MAX,
        i32::MIN < p.1 < i32::MAX,
        i32::MIN < p.2 < i32::MAX,
    ensures
        steps_apart(p, q) == 1 ==> v.woken(arrival, p, 6).waiting(
            Pending { arrival, at: q, kind: EventKind::ExternallyChanged },
        ),
        v.woken(arrival, p, 6).queue.contains(w) && !v.queue.contains(w) ==> w.arrival == arrival
            && w.kind == EventKind::ExternallyChanged && steps_apart(p, w.at) == 1,
        v.queue.contains(w) ==> v.woken(arrival, p, 6).queue.contains(w),
        v.woken(arrival, p, 6).dropped == v.dropped,
{
    lemma_neighbours_share_a_face(p, q, Face::PosX);
    lemma_neighbours_share_a_face(p, w.at, Face::PosX);
    lemma_woken_len(v, arrival, p, 6);
    if steps_apart(p, q) == 1 {
        let f = choose|f: int| 0 <= f < 6 && #[trigger] neighbour(p, f) == q;
        lemma_woken_waits(v, arrival, p, 6, f);
    }
    if v.woken(arrival, p, 6).queue.contains(w) {
        lemma_woken_only(v, arrival, p, 6, w);
    }
    if v.queue.contains(w) {
        lemma_woken_keeps(v, arrival, p, 6, w);
    }
}

/// A committed change is counted once and wakes what it touches for the next generation.
pub proof fn lemma_committed_change_wakes(v: SchedView, m: Mutation, q: Pos)
    requires
        v.wf(),
        v.queue.len() + 6 <= v.capacity,
        v.generations < u64::MAX,
        v.mutations < u64::MAX,
        i32::MIN < m.pos.0 < i32::MAX,
        i32::MIN < m.pos.1 < i32::MAX,
        i32::MIN < m.pos.2 < i32::MAX,
        steps_apart(m.pos, q) == 1,
    ensures
        counted(v, m).mutations == v.mutations + 1,
        counted(v, m).waiting(
            Pending {
                arrival: (v.generations + 1) as u64,
                at: q,
                kind: EventKind::ExternallyChanged,
            },
        ),
{
    let u = SchedView { mutations: v.mutations.wrapping_add(1), ..v };
    let any = Pending { arrival: 0, at: q, kind: EventKind::Moved };
    assert(u.wf());
    lemma_woken_wf(u, v.generations.wrapping_add(1), m.pos, 6);
    lemma_change_wakes_what_it_touches(u, v.generations.wrapping_add(1), m.pos, q, any);
}

/// Whether an event acts on a cell: there is matter in both, and they share a face.
pub open spec fn event_acts_on(cells: Cells, e: Pending, p: Pos) -> bool {
    &&& cells.contains_key(e.at) && cells[e.at].0 != 0
    &&& cells.contains_key(p) && cells[p].0 != 0
    &&& steps_apart(e.at, p) == 1
}

proof fn lemma_event_actions(cells: Cells, e: Pending, n: int, a: Action)
    requires
        0 <= n <= 6,
    ensures
        event_actions(cells, e, n).contains(a) <==> matter(cells, e.at) && a.origin == cells[e.at]
            && a.kind == e.kind && matter(cells, a.target) && exists|f: int|
            0 <= f < n && #[trigger] neighbour(e.at, f) == a.target,
    decreases n,
{
    if n > 0 {
        lemma_event_actions(cells, e, n - 1, a);
        let rest = event_actions(cells, e, n - 1);
        let t = neighbour(e.at, n - 1);
        let x = Action { target: t, origin: cells[e.at], kind: e.kind };
        if matter(cells, e.at) && matter(cells, t) {
            assert(event_actions(cells, e, n) == rest.push(x));
            lemma_push_contains(rest, x, a);
        }
    }
}

proof fn lemma_push_contains(s: Seq<Action>, x: Action, a: Action)
    ensures
        s.push(x).contains(a) <==> s.contains(a) || a == x,
{
    if s.contains(a) {
        let k = choose|k: int| 0 <= k < s.len() && s[k] == a;
        assert(s.push(x)[k] == a);
    }
    if a == x {
        assert(s.push(x)[s.len() as int] == a);
    }
}

proof fn lemma_batch_actions(cells: Cells, batch: Seq<Pending>, a: Action)
    ensures
        batch_actions(cells, batch).contains(a) <==> exists|i: int|
            0 <= i < batch.len() && event_actions(cells, #[trigger] batch[i], 6).contains(a),
    decreases batch.len(),
{
    if batch.len() > 0 {
        let rest = batch.drop_last();
        lemma_batch_actions(cells, rest, a);
        let (s, t) = (batch_actions(cells, rest), event_actions(cells, batch.last(), 6));
        if s.contains(a) {
            let k = choose|k: int| 0 <= k < s.len() && s[k] == a;
            assert((s + t)[k] == a);
            let i = choose|i: int|
                0 <= i < rest.len() && event_actions(cells, #[trigger] rest[i], 6).contains(a);
            assert(batch[i] == rest[i]);
        }
        if t.contains(a) {
            let k = choose|k: int| 0 <= k < t.len() && t[k] == a;
            assert((s + t)[s.len() + k] == a);
            assert(batch[batch.len() - 1] == batch.last());
        }
        if (s + t).contains(a) && !s.contains(a) {
            let k = choose|k: int| 0 <= k < (s + t).len() && (s + t)[k] == a;
            if k < s.len() {
                assert(s[k] == a);
            } else {
                assert(t[k - s.len()] == a);
            }
        }
        if exists|i: int|
            0 <= i < batch.len() && event_actions(cells, #[trigger] batch[i], 6).contains(a) {
            let i = choose|i: int|
                0 <= i < batch.len() && event_actions(cells, #[trigger] batch[i], 6).contains(a);
            if i < rest.len() {
                assert(rest[i] == batch[i]);
            }
        }
    }
}

proof fn lemma_acting_contains(actions: Seq<Action>, p: Pos, origin: BlockId, kind: EventKind)
    ensures
        acting_on(actions, p).contains((origin, kind)) <==> actions.contains(
            Action { target: p, origin, kind },
        ),
    decreases actions.len(),
{
    let a = Action { target: p, origin, kind };
    if actions.len() > 0 {
        let rest = actions.drop_last();
        lemma_acting_contains(rest, p, origin, kind);
        assert(actions =~= rest.push(actions.last()));
        lemma_push_contains(rest, actions.last(), a);
        let s = acting_on(rest, p);
        if actions.last().target == p {
            let x = (actions.last().origin, actions.last().kind);
            if s.contains((origin, kind)) {
                let k = choose|k: int| 0 <= k < s.len() && s[k] == (origin, kind);
                assert(s.push(x)[k] == (origin, kind));
            }
            if x == (origin, kind) {
                assert(s.push(x)[s.len() as int] == (origin, kind));
            }
        }
    }
}

/// An event acts on the matter around it and on nothing else: what a batch brings to bear
/// on a cell is the block and kind of each of its events that stands in matter and shares a
/// face with the cell, where the cell is matter too.
pub proof fn lemma_events_act_on_what_they_touch(
    cells: Cells,
    batch: Seq<Pending>,
    p: Pos,
    origin: BlockId,
    kind: EventKind,
)
    requires
        forall|i: int|
            0 <= i < batch.len() ==> i32::MIN < (#[trigger] batch[i]).at.0 < i32::MAX && i32::MIN
                < batch[i].at.1 < i32::MAX && i32::MIN < batch[i].at.2 < i32::MAX,
    ensures
        acting_on(batch_actions(cells, batch), p).contains((origin, kind)) <==> exists|i: int|
            0 <= i < batch.len() && event_acts_on(cells, #[trigger] batch[i], p) && cells[batch[i].at]
                == origin && batch[i].kind == kind,
{
    let a = Action { target: p, origin, kind };
    lemma_acting_contains(batch_actions(cells, batch), p, origin, kind);
    lemma_batch_actions(cells, batch, a);
    assert forall|i: int| 0 <= i < batch.len() implies (event_actions(
        cells,
        #[trigger] batch[i],
        6,
    ).contains(a) <==> event_acts_on(cells, batch[i], p) && cells[batch[i].at] == origin
        && batch[i].kind == kind) by {
        lemma_event_actions(cells, batch[i], 6, a);
        lemma_neighbours_share_a_face(batch[i].at, p, Face::PosX);
    }
}

/// Every answer that changes something is a change: a target whose outcome is another
/// block than its own is in the list, with that block.
pub proof fn lemma_answers_become_changes(
    targets: Seq<TargetView>,
    outcomes: Seq<Option<BlockId>>,
    t: int,
)
    requires
        outcomes.len() == targets.len(),
        0 <= t < targets.len(),
        outcomes[t] is Some,
        outcomes[t]->0 != targets[t].block,
    ensures
        changes(targets, outcomes).contains(
            Mutation { pos: targets[t].pos, from: targets[t].block, to: outcomes[t]->0 },
        ),
    decreases targets.len(),
{
    let m = Mutation { pos: targets[t].pos, from: targets[t].block, to: outcomes[t]->0 };
    let rest = changes(targets.drop_last(), outcomes.drop_last());
    let all = changes(targets, outcomes);
    if t < targets.len() - 1 {
        lemma_answers_become_changes(targets.drop_last(), outcomes.drop_last(), t);
        let k = choose|k: int| 0 <= k < rest.len() && rest[k] == m;
        assert(all[k] == m);
    } else {
        assert(all[rest.len() as int] == m);
    }
}

/// No more events are taken than the budget allows, and none is left while it allows more.
pub proof fn lemma_batch_fits_budget(v: SchedView, budget: Budget)
    ensures
        0 <= batch_len(v, budget) <= budget.events_per_generation,
        batch_len(v, budget) <= v.queue.len(),
        batch_len(v, budget) == v.queue.len() || batch_len(v, budget)
            == budget.events_per_generation,
{
}

/// What was written is read back, there and nowhere else, and a place without a cell reads as
/// nothing.
pub proof fn lemma_reads_what_was_written(cells: Cells, pos: Pos, id: BlockId, other: Pos)
    ensures
        read(cells.insert(pos, id), pos) == Some(id),
        other != pos ==> read(cells.insert(pos, id), other) == read(cells, other),
        read(cells.remove(pos), pos) is None,
{
}

} // verus!
