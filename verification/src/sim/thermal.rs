//! Heat flow. The system is wired into the tick loop and gated off.
use vstd::prelude::*;

use crate::sim::systems::Tick;

verus! {

/// Moves heat between neighbouring blocks, once it is enabled. It never is yet, so
/// it changes nothing.
#[derive(Clone, Copy, PartialEq, Eq, Debug, Structural)]
pub struct ThermalSystem {
    enabled: bool,
}

impl ThermalSystem {
    /// Whether the system does anything.
    pub closed spec fn enabled_spec(self) -> bool {
        self.enabled
    }

    /// A system that is switched off.
    pub fn new() -> (s: Self)
        ensures
            !s.enabled_spec(),
    {
        ThermalSystem { enabled: false }
    }
}

impl Default for ThermalSystem {
    fn default() -> (s: Self)
        ensures
            !s.enabled_spec(),
    {
        Self::new()
    }
}

impl<W> Tick<W> for ThermalSystem {
    open spec fn name_spec(&self) -> Seq<char> {
        "thermal"@
    }

    open spec fn ready(world: W) -> bool {
        true
    }

    open spec fn steps(before: Self, world: W, after: Self, changed: W, dt_millis: u32) -> bool {
        after == before && changed == world
    }

    fn name(&self) -> (s: &'static str) {
        "thermal"
    }

    fn tick(&mut self, world: &mut W, dt_millis: u32) {
    }
}

} // verus!
