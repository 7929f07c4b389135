//! The simulation driver.
//!
//! Systems advance in the order of their names, not of their installation, so two
//! clients that register the same systems in different sequences step alike.
use vstd::prelude::*;
use vstd::relations::sorted_by;
use vstd::seq_lib::{group_to_multiset_ensures, lemma_sorted_unique};

use crate::block::Rev;
use crate::sim::manifest::{self, Cadence, FootprintKey, Producer};
use crate::sim::order::{by_text, lemma_text_order, text_before, text_le};
use crate::sim::reactions::{
    ticked, Budget, CellStore, EventKind, MaterialEvent, Mutation, Pending, Pos,
    ReactionScheduler, SimState,
};

verus! {

/// The simulation steps twenty times a second, whatever the frame rate.
pub const TICKS_PER_SECOND: u32 = 20;

/// One step in milliseconds.
pub const TICK_MILLIS: u32 = 50;

/// The text of a name.
pub type NameText = Seq<char>;

/// One simulation system, free to read and change the world `W`.
pub trait Tick<W>: Sized {
    /// The name that orders the systems. It never changes.
    spec fn name_spec(&self) -> NameText;

    /// What the world must hold for a step.
    spec fn ready(world: W) -> bool;

    /// Whether one step of `dt_millis` may turn the system and the world from the first
    /// pair into the second.
    spec fn steps(before: Self, world: W, after: Self, changed: W, dt_millis: u32) -> bool;

    /// The name that orders the systems.
    fn name(&self) -> (s: &'static str)
        ensures
            s@ == self.name_spec(),
    ;

    /// Advances the system by a step of `dt_millis`.
    fn tick(&mut self, world: &mut W, dt_millis: u32)
        requires
            Self::ready(*old(world)),
        ensures
            Self::ready(*final(world)),
            Self::steps(*old(self), *old(world), *final(self), *final(world), dt_millis),
            final(self).name_spec() == old(self).name_spec(),
    ;
}

/// The names of systems.
pub open spec fn names_of<W, S: Tick<W>>(s: Seq<S>) -> Seq<Seq<char>> {
    Seq::new(s.len(), |i: int| s[i].name_spec())
}

/// Whether systems stand in the order of their names.
pub open spec fn in_order<W, S: Tick<W>>(s: Seq<S>) -> bool {
    sorted_by(names_of::<W, S>(s), by_text())
}

/// The place from `i` on of the first system whose name stands after `name`.
pub open spec fn slot<W, S: Tick<W>>(s: Seq<S>, name: Seq<char>, i: int) -> int
    decreases s.len() - i,
{
    if i < 0 || i >= s.len() || !text_le(s[i].name_spec(), name) {
        i
    } else {
        slot::<W, S>(s, name, i + 1)
    }
}

/// Systems with one more, behind those whose names do not stand after its own.
pub open spec fn with_system<W, S: Tick<W>>(s: Seq<S>, x: S) -> Seq<S> {
    s.insert(slot::<W, S>(s, x.name_spec(), 0), x)
}

/// Systems installed one after the other.
pub open spec fn installed<W, S: Tick<W>>(s: Seq<S>) -> Seq<S>
    decreases s.len(),
{
    if s.len() == 0 {
        Seq::empty()
    } else {
        with_system::<W, S>(installed::<W, S>(s.drop_last()), s.last())
    }
}

proof fn lemma_slot<W, S: Tick<W>>(s: Seq<S>, name: Seq<char>, i: int)
    requires
        0 <= i <= s.len(),
    ensures
        i <= slot::<W, S>(s, name, i) <= s.len(),
        forall|j: int|
            i <= j < slot::<W, S>(s, name, i) ==> text_le((#[trigger] s[j]).name_spec(), name),
        slot::<W, S>(s, name, i) < s.len() ==> !text_le(
            s[slot::<W, S>(s, name, i)].name_spec(),
            name,
        ),
    decreases s.len() - i,
{
    if i < s.len() && text_le(s[i].name_spec(), name) {
        lemma_slot::<W, S>(s, name, i + 1);
    }
}

/// One more system keeps the order, and adds its name to the names.
proof fn lemma_with_system<W, S: Tick<W>>(s: Seq<S>, x: S)
    requires
        in_order::<W, S>(s),
    ensures
        in_order::<W, S>(with_system::<W, S>(s, x)),
        names_of::<W, S>(with_system::<W, S>(s, x)).to_multiset() == names_of::<W, S>(
            s,
        ).to_multiset().insert(x.name_spec()),
{
    lemma_text_order();
    let r = by_text();
    let n = x.name_spec();
    lemma_slot::<W, S>(s, n, 0);
    let p = slot::<W, S>(s, n, 0);
    let t = with_system::<W, S>(s, x);
    let ns = names_of::<W, S>(s);
    let nt = names_of::<W, S>(t);
    assert forall|i: int, j: int| 0 <= i < j < nt.len() implies #[trigger] r(nt[i], nt[j]) by {
        if j < p {
            assert(r(ns[i], ns[j]));
        } else if j == p {
            assert(text_le(s[i].name_spec(), n));
        } else if i < p {
            assert(r(ns[i], ns[j - 1]));
        } else if i == p {
            assert(!r(ns[p], n));
            assert(r(n, ns[p]));
            if j - 1 > p {
                assert(r(ns[p], ns[j - 1]));
            }
        } else {
            assert(r(ns[i - 1], ns[j - 1]));
        }
    }
    broadcast use group_to_multiset_ensures;

    assert(nt.remove(p) =~= ns);
    assert(nt[p] == n);
    assert(nt.contains(n));
    assert(nt.to_multiset().count(n) > 0);
    assert(nt.remove(p).to_multiset() =~= nt.to_multiset().remove(n));
    assert(nt.to_multiset() =~= nt.to_multiset().remove(n).insert(n));
}

proof fn lemma_installed<W, S: Tick<W>>(s: Seq<S>)
    ensures
        in_order::<W, S>(installed::<W, S>(s)),
        names_of::<W, S>(installed::<W, S>(s)).to_multiset() == names_of::<W, S>(s).to_multiset(),
    decreases s.len(),
{
    if s.len() == 0 {
        assert(names_of::<W, S>(installed::<W, S>(s)) =~= names_of::<W, S>(s));
    } else {
        let d = s.drop_last();
        lemma_installed::<W, S>(d);
        lemma_with_system::<W, S>(installed::<W, S>(d), s.last());
        broadcast use group_to_multiset_ensures;

        assert(names_of::<W, S>(s) =~= names_of::<W, S>(d).push(s.last().name_spec()));
    }
}

/// The same systems, installed in any two sequences, advance in the same order of
/// names.
pub proof fn lemma_install_order_is_moot<W, S: Tick<W>>(a: Seq<S>, b: Seq<S>)
    requires
        names_of::<W, S>(a).to_multiset() == names_of::<W, S>(b).to_multiset(),
    ensures
        names_of::<W, S>(installed::<W, S>(a)) == names_of::<W, S>(installed::<W, S>(b)),
        in_order::<W, S>(installed::<W, S>(a)),
{
    lemma_text_order();
    lemma_installed::<W, S>(a);
    lemma_installed::<W, S>(b);
    lemma_sorted_unique(
        names_of::<W, S>(installed::<W, S>(a)),
        names_of::<W, S>(installed::<W, S>(b)),
        by_text(),
    );
}

/// Whether a run of steps took the systems and the world from before to after: each
/// system stepped once, in order, on the world that the one before it left.
pub open spec fn stepped<W, S: Tick<W>>(
    before: Seq<S>,
    after: Seq<S>,
    worlds: Seq<W>,
) -> bool {
    &&& after.len() == before.len()
    &&& worlds.len() == before.len() + 1
    &&& forall|i: int|
        0 <= i < before.len() ==> S::steps(
            #[trigger] before[i],
            worlds[i],
            after[i],
            worlds[i + 1],
            TICK_MILLIS,
        )
}

/// Drives every registered system on a fixed step.
#[verifier::reject_recursive_types(W)]
pub struct Simulation<W, S: Tick<W>> {
    systems: Vec<S>,
    ticks: u64,
    world: Ghost<Option<W>>,
}

impl<W, S: Tick<W>> Simulation<W, S> {
    /// The systems, in the order in which they advance.
    pub closed spec fn view(self) -> Seq<S> {
        self.systems@
    }

    /// Steps run so far.
    pub closed spec fn ticks_spec(self) -> u64 {
        self.ticks
    }

    /// Whether the systems stand in the order of their names.
    pub open spec fn wf(self) -> bool {
        in_order::<W, S>(self@)
    }

    /// A simulation without systems.
    pub fn new() -> (s: Self)
        ensures
            s.wf(),
            s@ == Seq::<S>::empty(),
            s.ticks_spec() == 0,
    {
        Simulation { systems: Vec::new(), ticks: 0, world: Ghost(None) }
    }

    /// A simulation with the given systems, in the order of their names; systems of
    /// one name stay in the order given.
    pub fn with_systems(systems: Vec<S>) -> (s: Self)
        ensures
            s.wf(),
            s@ == installed::<W, S>(systems@),
            s.ticks_spec() == 0,
    {
        let mut s = Self::new();
        let mut rest: Vec<S> = systems;
        let ghost all = rest@;
        let mut line: Vec<S> = Vec::new();
        while rest.len() > 0
            invariant
                all.len() == rest@.len() + line@.len(),
                forall|i: int| 0 <= i < rest@.len() ==> #[trigger] rest@[i] == all[i],
                forall|i: int|
                    0 <= i < line@.len() ==> #[trigger] line@[i] == all[all.len() - 1 - i],
            decreases rest@.len(),
        {
            match rest.pop() {
                Some(x) => line.push(x),
                None => {},
            }
        }
        proof {
            assert(all.take(0) =~= Seq::empty());
        }
        while line.len() > 0
            invariant
                line@.len() <= all.len(),
                forall|i: int|
                    0 <= i < line@.len() ==> #[trigger] line@[i] == all[all.len() - 1 - i],
                s.wf(),
                s@ == installed::<W, S>(all.take(all.len() - line@.len())),
                s.ticks_spec() == 0,
            decreases line@.len(),
        {
            let ghost n = all.len() - line@.len();
            match line.pop() {
                Some(x) => {
                    proof {
                        assert(x == all[n]);
                        assert(all.take(n + 1).drop_last() =~= all.take(n));
                        assert(all.take(n + 1).last() == x);
                    }
                    s.add(x);
                },
                None => {},
            }
        }
        proof {
            assert(all.take(all.len() as int) =~= all);
        }
        s
    }

    /// Adds a system, behind those whose names do not stand after its own.
    pub fn add(&mut self, system: S)
        requires
            old(self).wf(),
        ensures
            final(self).wf(),
            final(self)@ == with_system::<W, S>(old(self)@, system),
            final(self).ticks_spec() == old(self).ticks_spec(),
    {
        let name = system.name();
        let mut i: usize = 0;
        while i < self.systems.len() && text_before(self.systems[i].name(), name)
            invariant
                self@ == old(self)@,
                self.ticks == old(self).ticks,
                i <= self.systems@.len(),
                name@ == system.name_spec(),
                slot::<W, S>(self@, name@, 0) == slot::<W, S>(self@, name@, i as int),
            decreases self.systems@.len() - i,
        {
            i = i + 1;
        }
        proof {
            lemma_with_system::<W, S>(self@, system);
        }
        self.systems.insert(i, system);
    }

    /// The names of the systems, in the order in which they advance.
    pub fn names(&self) -> (out: Vec<&'static str>)
        ensures
            out@.len() == self@.len(),
            forall|i: int| 0 <= i < out@.len() ==> (#[trigger] out@[i])@ == self@[i].name_spec(),
    {
        let mut out: Vec<&'static str> = Vec::new();
        let mut i: usize = 0;
        while i < self.systems.len()
            invariant
                i <= self.systems@.len(),
                out@.len() == i,
                forall|j: int| 0 <= j < i ==> (#[trigger] out@[j])@ == self@[j].name_spec(),
            decreases self.systems@.len() - i,
        {
            out.push(self.systems[i].name());
            i = i + 1;
        }
        out
    }

    /// What the simulation declares to its scheduler.
    pub fn manifest() -> (p: Producer)
        ensures
            manifest::is_simulation(p),
    {
        Producer {
            name: "sim",
            reads: FootprintKey::Global,
            writes: FootprintKey::Global,
            cadence: Cadence::FixedTick,
            budget: manifest::Budget::Micros(2000),
        }
    }

    /// One step: advances every system once by the fixed step, in order. Returns the revision that
    /// the simulation has reached.
    pub fn run(&mut self, world: &mut W) -> (rev: Rev)
        requires
            old(self).wf(),
            old(self).ticks_spec() < u64::MAX,
            S::ready(*old(world)),
        ensures
            final(self).wf(),
            final(self).ticks_spec() == old(self).ticks_spec() + 1,
            rev == Rev(final(self).ticks_spec()),
            S::ready(*final(world)),
            exists|worlds: Seq<W>|
                {
                    &&& #[trigger] stepped::<W, S>(old(self)@, final(self)@, worlds)
                    &&& worlds[0] == *old(world)
                    &&& worlds.last() == *final(world)
                },
    {
        self.ticks = self.ticks + 1;
        let ghost before = self.systems@;
        let ghost mut worlds: Seq<W> = seq![*world];
        let mut i: usize = 0;
        while i < self.systems.len()
            invariant
                i <= self.systems@.len(),
                self.ticks == old(self).ticks + 1,
                before == old(self)@,
                self.systems@.len() == before.len(),
                worlds.len() == i + 1,
                worlds[0] == *old(world),
                worlds.last() == *world,
                S::ready(*world),
                forall|j: int| i <= j < before.len() ==> #[trigger] self.systems@[j] == before[j],
                forall|j: int|
                    0 <= j < before.len() ==> (#[trigger] self.systems@[j]).name_spec()
                        == before[j].name_spec(),
                forall|j: int|
                    0 <= j < i ==> S::steps(
                        #[trigger] before[j],
                        worlds[j],
                        self.systems@[j],
                        worlds[j + 1],
                        TICK_MILLIS,
                    ),
            decreases self.systems@.len() - i,
        {
            let ghost past = worlds;
            self.systems[i].tick(world, TICK_MILLIS);
            proof {
                worlds = worlds.push(*world);
                assert forall|j: int| 0 <= j < i + 1 implies S::steps(
                    #[trigger] before[j],
                    worlds[j],
                    self.systems@[j],
                    worlds[j + 1],
                    TICK_MILLIS,
                ) by {
                    if j < i {
                        assert(worlds[j] == past[j] && worlds[j + 1] == past[j + 1]);
                    }
                }
            }
            i = i + 1;
        }
        proof {
            assert(names_of::<W, S>(self.systems@) =~= names_of::<W, S>(before));
            assert(stepped::<W, S>(old(self)@, self@, worlds));
        }
        Rev(self.ticks)
    }
}

impl<W, S: Tick<W>> Default for Simulation<W, S> {
    fn default() -> (s: Self)
        ensures
            s.wf(),
            s@ == Seq::<S>::empty(),
            s.ticks_spec() == 0,
    {
        Self::new()
    }
}

/// Cells together with the scheduler of their reactions. Only the side with
/// authority schedules; the other side receives committed changes.
pub struct ReactiveCells<C: CellStore> {
    pub cells: C,
    pub sched: ReactionScheduler,
    pub authority: bool,
}

impl<C: CellStore> ReactiveCells<C> {
    /// Hands in a gameplay event. Without authority it goes nowhere.
    pub fn push_material_event(&mut self, at: Pos, kind: EventKind)
        requires
            old(self).sched@.wf(),
        ensures
            final(self).sched@.wf(),
            final(self).cells == old(self).cells,
            final(self).authority == old(self).authority,
            final(self).sched@ == (if old(self).authority {
                old(self).sched@.pushed(
                    Pending { arrival: old(self).sched@.generations, at, kind },
                )
            } else {
                old(self).sched@
            }),
    {
        if self.authority {
            self.sched.push(MaterialEvent { at, kind });
        }
    }

    /// Runs one budgeted step of the scheduler. Without authority nothing happens.
    pub fn tick_reactions(&mut self) -> (committed: Vec<Mutation>)
        requires
            old(self).sched@.wf(),
        ensures
            final(self).sched@.wf(),
            final(self).authority == old(self).authority,
            reacted(*old(self), *final(self), committed@),
    {
        if !self.authority {
            return Vec::new();
        }
        self.sched.tick(&mut self.cells, Budget::default())
    }
}

/// Whether one budgeted step of the scheduler leads from one state to the other and
/// commits these changes.
pub open spec fn reacted<C: CellStore>(
    before: ReactiveCells<C>,
    after: ReactiveCells<C>,
    committed: Seq<Mutation>,
) -> bool {
    if before.authority {
        &&& after.authority
        &&& (SimState { sched: after.sched@, store: after.cells.state(), committed })
            == ticked::<C>(
            before.sched@,
            before.cells.state(),
            (Budget { events_per_generation: 256, generations_per_tick: 2 }),
        )
    } else {
        after == before && committed == Seq::<Mutation>::empty()
    }
}

/// The system that runs the reaction scheduler.
#[derive(Clone, Copy, PartialEq, Eq, Debug, Structural)]
pub struct Reactions;

impl<C: CellStore> Tick<ReactiveCells<C>> for Reactions {
    open spec fn name_spec(&self) -> Seq<char> {
        "reactions"@
    }

    open spec fn ready(world: ReactiveCells<C>) -> bool {
        world.sched@.wf()
    }

    open spec fn steps(
        before: Self,
        world: ReactiveCells<C>,
        after: Self,
        changed: ReactiveCells<C>,
        dt_millis: u32,
    ) -> bool {
        exists|committed: Seq<Mutation>| #[trigger] reacted(world, changed, committed)
    }

    fn name(&self) -> (s: &'static str) {
        "reactions"
    }

    fn tick(&mut self, world: &mut ReactiveCells<C>, dt_millis: u32) {
        let committed = world.tick_reactions();
        assert(reacted(*old(world), *world, committed@));
    }
}

} // verus!
