//! What a producer declares to the scheduler that drives it.
use vstd::prelude::*;

verus! {

/// A part of the world that a producer reads or writes.
#[derive(Clone, Copy, PartialEq, Eq, Debug, Structural)]
pub enum FootprintKey {
    /// Anything at all.
    Global,
}

/// When a producer runs.
#[derive(Clone, Copy, PartialEq, Eq, Debug, Structural)]
pub enum Cadence {
    /// Once per frame.
    Frame,
    /// Once per whole simulation tick.
    FixedTick,
}

/// How much a producer may do per run.
#[derive(Clone, Copy, PartialEq, Eq, Debug, Structural)]
pub enum Budget {
    /// Time, in microseconds.
    Micros(u32),
    /// Pieces of work.
    Dispatches(u16),
}

/// What a producer declares.
#[derive(Clone, Copy, PartialEq, Eq, Debug)]
pub struct Producer {
    pub name: &'static str,
    pub reads: FootprintKey,
    pub writes: FootprintKey,
    pub cadence: Cadence,
    pub budget: Budget,
}

/// What the simulation declares: a step may touch any block, and runs once per tick.
pub open spec fn is_simulation(p: Producer) -> bool {
    &&& p.name@ == "sim"@
    &&& p.reads == FootprintKey::Global
    &&& p.writes == FootprintKey::Global
    &&& p.cadence == Cadence::FixedTick
    &&& p.budget == Budget::Micros(2000)
}

} // verus!
