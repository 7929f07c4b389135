//! The systems of the world, side by side in one simulation.
use vstd::prelude::*;

use crate::sim::reactions::CellStore;
use crate::sim::systems::{ReactiveCells, Reactions, Tick};
use crate::sim::thermal::ThermalSystem;

verus! {

/// One of the world's systems.
#[derive(Clone, Copy, PartialEq, Eq, Debug, Structural)]
pub enum System {
    Reactions(Reactions),
    Thermal(ThermalSystem),
}

impl<C: CellStore> Tick<ReactiveCells<C>> for System {
    open spec fn name_spec(&self) -> Seq<char> {
        match self {
            System::Reactions(_) => "reactions"@,
            System::Thermal(_) => "thermal"@,
        }
    }

    open spec fn ready(world: ReactiveCells<C>) -> bool {
        world.sched@.wf()
    }

    open spec fn steps(
        before: Self,
        world: ReactiveCells<C>,
        after: Self,
        changed: ReactiveCells<C>,
        dt_millis: u32,
    ) -> bool {
        match (before, after) {
            (System::Reactions(a), System::Reactions(b)) => Tick::steps(
                a,
                world,
                b,
                changed,
                dt_millis,
            ),
            (System::Thermal(a), System::Thermal(b)) => Tick::steps(
                a,
                world,
                b,
                changed,
                dt_millis,
            ),
            _ => false,
        }
    }

    fn name(&self) -> (s: &'static str) {
        match self {
            System::Reactions(s) => Tick::<ReactiveCells<C>>::name(s),
            System::Thermal(s) => Tick::<ReactiveCells<C>>::name(s),
        }
    }

    fn tick(&mut self, world: &mut ReactiveCells<C>, dt_millis: u32) {
        match *self {
            System::Reactions(s) => {
                let mut s: Reactions = s;
                s.tick(world, dt_millis);
                *self = System::Reactions(s);
            },
            System::Thermal(s) => {
                let mut s: ThermalSystem = s;
                s.tick(world, dt_millis);
                *self = System::Thermal(s);
            },
        }
    }
}

} // verus!
