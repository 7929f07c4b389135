use std::collections::HashSet;
use voxel_world::block::BlockId;
use voxel_world::sim::map_store::{MapStore, Rule};
use voxel_world::sim::reactions::{
    changes_of, evaluate, gather, kind_from_u8, kind_to_u8, on_broken, on_placed, Budget, Cells,
    CellStore, EventKind, MaterialEvent, Mutation, Origins, Pending, Pos, ReactionScheduler,
};
use voxel_world::sim::builtin::System;
use voxel_world::sim::manifest::{Budget as LaneBudget, Cadence, FootprintKey};
use voxel_world::sim::systems::{NameText, ReactiveCells, Reactions, Simulation, Tick};
use voxel_world::sim::thermal::ThermalSystem;
use voxel_world::world::lanes::{duration, StreamLane};

const AIR: BlockId = BlockId(0);
const A: BlockId = BlockId(1);
const B: BlockId = BlockId(2);
const SPENT: BlockId = BlockId(3);
const ROCK: BlockId = BlockId(4);

/// Cells that are all loaded, with `A` and `B` wearing each other out.
fn map() -> MapStore {
    MapStore::new(
        Some(AIR),
        vec![
            Rule { target: B, origin: A, result: SPENT },
            Rule { target: A, origin: B, result: SPENT },
        ],
    )
}

fn collision(x: i32) -> MaterialEvent {
    MaterialEvent { at: (x, 0, 0), kind: EventKind::Collision }
}

fn one_generation(events_per_generation: usize) -> Budget {
    Budget { events_per_generation, generations_per_tick: 1 }
}

fn reactive_line(m: &mut MapStore, s: &mut ReactionScheduler, len: i32) {
    for x in 0..len {
        m.set_block((x, 0, 0), if x % 2 == 0 { A } else { B });
    }
    for x in 0..len {
        s.push(collision(x));
    }
}

#[test]
fn uniform_matter_at_rest_never_reacts() {
    let mut m = map();
    for x in 0..4 {
        m.set_block((x, 0, 0), ROCK);
    }
    let mut s = ReactionScheduler::new();
    s.push(collision(1));
    let out = s.tick(&mut m, Budget::default());
    assert!(out.is_empty());
    assert_eq!(s.pending(), 0);
}

#[test]
fn a_reaction_commits_in_position_order_and_queues_followups() {
    let mut m = map();
    m.set_block((0, 0, 0), A);
    m.set_block((1, 0, 0), B);
    m.set_block((-1, 0, 0), B);
    let mut s = ReactionScheduler::new();
    s.push(collision(0));
    let out = s.tick(&mut m, one_generation(256));
    assert_eq!(out.len(), 2);
    assert!(out[0].pos < out[1].pos, "position order");
    assert!(out.iter().all(|mu| mu.from == B && mu.to != B));
    assert!(s.pending() > 0, "changed cells queue follow-ups for the next generation");
    assert_eq!(s.generations, 1);
}

#[test]
fn duplicate_events_collapse_and_air_never_reacts() {
    let mut m = map();
    let mut s = ReactionScheduler::new();
    for _ in 0..10 {
        s.push(MaterialEvent { at: (5, 5, 5), kind: EventKind::Moved });
    }
    assert_eq!(s.pending(), 1);
    assert!(s.tick(&mut m, Budget::default()).is_empty());
}

const O1: BlockId = BlockId(5);
const O2: BlockId = BlockId(6);
const T: BlockId = BlockId(7);
const BY_O1: BlockId = BlockId(8);
const BY_O2: BlockId = BlockId(9);
const BY_BOTH: BlockId = BlockId(10);

/// Cells where what becomes of `T` depends on all that acts on it, with a note of every
/// question.
struct Joint {
    cells: MapStore,
    asked: Vec<(BlockId, Vec<(BlockId, EventKind)>)>,
}

impl CellStore for Joint {
    type State = ();
    fn state(&self) {
        unreachable!()
    }
    fn cells(_s: ()) -> Cells {
        unreachable!()
    }
    fn outcome(_s: (), _target: BlockId, _origins: Origins) -> Option<BlockId> {
        unreachable!()
    }
    fn interacted(_s: (), _target: BlockId, _origins: Origins) {
        unreachable!()
    }
    fn takes(_s: (), _pos: Pos, _id: BlockId) -> bool {
        unreachable!()
    }
    fn written(_s: (), _pos: Pos, _id: BlockId) {
        unreachable!()
    }
    fn interacted_cells(_s: (), _target: BlockId, _origins: Origins) {
        unreachable!()
    }
    fn written_cells(_s: (), _pos: Pos, _id: BlockId) {
        unreachable!()
    }
    fn block_at(&self, pos: Pos) -> Option<BlockId> {
        self.cells.block_at(pos)
    }
    fn set_block(&mut self, pos: Pos, id: BlockId) -> Option<BlockId> {
        self.cells.set_block(pos, id)
    }
    fn interact(&mut self, target: BlockId, origins: &Vec<(BlockId, EventKind)>) -> Option<BlockId> {
        self.asked.push((target, origins.clone()));
        if target != T {
            return None;
        }
        let by = |id: BlockId| origins.iter().any(|o| o.0 == id);
        match (by(O1), by(O2)) {
            (true, true) => Some(BY_BOTH),
            (true, false) => Some(BY_O1),
            (false, true) => Some(BY_O2),
            (false, false) => None,
        }
    }
}

/// Cells of which only some are loaded.
struct Patchy {
    cells: MapStore,
    loaded: HashSet<Pos>,
}

impl CellStore for Patchy {
    type State = ();
    fn state(&self) {
        unreachable!()
    }
    fn cells(_s: ()) -> Cells {
        unreachable!()
    }
    fn outcome(_s: (), _target: BlockId, _origins: Origins) -> Option<BlockId> {
        unreachable!()
    }
    fn interacted(_s: (), _target: BlockId, _origins: Origins) {
        unreachable!()
    }
    fn takes(_s: (), _pos: Pos, _id: BlockId) -> bool {
        unreachable!()
    }
    fn written(_s: (), _pos: Pos, _id: BlockId) {
        unreachable!()
    }
    fn interacted_cells(_s: (), _target: BlockId, _origins: Origins) {
        unreachable!()
    }
    fn written_cells(_s: (), _pos: Pos, _id: BlockId) {
        unreachable!()
    }
    fn block_at(&self, pos: Pos) -> Option<BlockId> {
        if self.loaded.contains(&pos) { self.cells.block_at(pos) } else { None }
    }
    fn set_block(&mut self, pos: Pos, id: BlockId) -> Option<BlockId> {
        self.loaded.insert(pos);
        self.cells.set_block(pos, id)
    }
    fn interact(&mut self, target: BlockId, origins: &Vec<(BlockId, EventKind)>) -> Option<BlockId> {
        self.cells.interact(target, origins)
    }
}

fn joint() -> Joint {
    let mut cells = MapStore::new(Some(AIR), vec![]);
    cells.set_block((0, 0, 0), T);
    cells.set_block((1, 0, 0), O1);
    cells.set_block((0, 1, 0), O2);
    Joint { cells, asked: vec![] }
}

#[test]
fn generations_are_jacobi_not_gauss_seidel() {
    // Two different origins acting on one target in the same generation both read the
    // original target and act together: it changes once, by both.
    let mut m = joint();
    let mut s = ReactionScheduler::new();
    s.push(MaterialEvent { at: (1, 0, 0), kind: EventKind::Collision });
    s.push(MaterialEvent { at: (0, 1, 0), kind: EventKind::Collision });
    let out = s.tick(&mut m, one_generation(256));
    assert_eq!(out, vec![Mutation { pos: (0, 0, 0), from: T, to: BY_BOTH }]);
    assert_eq!(m.block_at((0, 0, 0)), Some(BY_BOTH));
    assert_eq!(
        m.asked,
        vec![(T, vec![(O2, EventKind::Collision), (O1, EventKind::Collision)])],
        "each target is asked about once, with all that acts on it"
    );
}

#[test]
fn one_origin_alone_has_its_own_result() {
    let mut m = joint();
    let mut s = ReactionScheduler::new();
    s.push(MaterialEvent { at: (0, 1, 0), kind: EventKind::Moved });
    let out = s.tick(&mut m, one_generation(256));
    assert_eq!(out, vec![Mutation { pos: (0, 0, 0), from: T, to: BY_O2 }]);
    assert_eq!(m.asked, vec![(T, vec![(O2, EventKind::Moved)])]);
}

#[test]
fn outcomes_become_changes_in_target_order() {
    let mut m = joint();
    let batch = vec![
        Pending { arrival: 0, at: (0, 1, 0), kind: EventKind::Collision },
        Pending { arrival: 0, at: (1, 0, 0), kind: EventKind::Collision },
    ];
    let targets = gather(&m, &batch);
    assert_eq!(targets.len(), 1);
    let outcomes = evaluate(&mut m, &targets);
    assert_eq!(outcomes, vec![Some(BY_BOTH)]);
    let change = Mutation { pos: (0, 0, 0), from: T, to: BY_BOTH };
    assert_eq!(changes_of(&targets, &outcomes), vec![change]);
    assert!(changes_of(&targets, &vec![Some(T)]).is_empty(), "the same block is no change");
    assert!(changes_of(&targets, &vec![None]).is_empty());
}

#[test]
fn a_reply_decides_what_is_committed() {
    let m = Mutation { pos: (3, 3, 3), from: A, to: B };
    let mut s = ReactionScheduler::new();
    let mut committed = Vec::new();
    s.settle(m, None, &mut committed);
    assert!(committed.is_empty());
    assert_eq!((s.mutations, s.pending()), (0, 0));
    s.settle(m, Some(A), &mut committed);
    assert_eq!(committed, vec![m]);
    assert_eq!((s.mutations, s.pending()), (1, 6));
}

/// A store that must not be touched.
struct Untouchable;

impl CellStore for Untouchable {
    type State = ();
    fn state(&self) {
        unreachable!()
    }
    fn cells(_s: ()) -> Cells {
        unreachable!()
    }
    fn outcome(_s: (), _target: BlockId, _origins: Origins) -> Option<BlockId> {
        unreachable!()
    }
    fn interacted(_s: (), _target: BlockId, _origins: Origins) {
        unreachable!()
    }
    fn takes(_s: (), _pos: Pos, _id: BlockId) -> bool {
        unreachable!()
    }
    fn written(_s: (), _pos: Pos, _id: BlockId) {
        unreachable!()
    }
    fn interacted_cells(_s: (), _target: BlockId, _origins: Origins) {
        unreachable!()
    }
    fn written_cells(_s: (), _pos: Pos, _id: BlockId) {
        unreachable!()
    }
    fn block_at(&self, pos: Pos) -> Option<BlockId> {
        panic!("empty scheduler tick read cell {:?}", pos);
    }
    fn set_block(&mut self, pos: Pos, _id: BlockId) -> Option<BlockId> {
        panic!("empty scheduler tick wrote cell {:?}", pos);
    }
    fn interact(&mut self, target: BlockId, _origins: &Vec<(BlockId, EventKind)>) -> Option<BlockId> {
        panic!("empty scheduler tick asked about {:?}", target);
    }
}

#[test]
fn a_quiet_tick_touches_no_cell() {
    let mut s = ReactionScheduler::new();
    let out = s.tick(&mut Untouchable, Budget::default());
    assert!(out.is_empty());
    assert_eq!(out.capacity(), 0, "nothing was allocated for the answer");
    assert_eq!((s.generations, s.mutations, s.dropped), (0, 0, 0));
    let mut world =
        ReactiveCells { cells: Untouchable, sched: ReactionScheduler::new(), authority: true };
    assert!(world.tick_reactions().is_empty());
    assert_eq!(world.sched.pending(), 0);
}

#[test]
fn budgets_bound_the_work_per_tick() {
    let mut m = map();
    let mut s = ReactionScheduler::new();
    reactive_line(&mut m, &mut s, 64);
    let _ = s.tick(&mut m, one_generation(8));
    assert!(s.pending() >= 56, "unevaluated events stay queued");
}

#[test]
fn unloaded_space_never_reacts() {
    let mut m = Patchy { cells: map(), loaded: HashSet::new() };
    m.set_block((0, 0, 0), A);
    m.cells.set_block((1, 0, 0), B);
    let mut s = ReactionScheduler::new();
    s.push(collision(0));
    let out = s.tick(&mut m, Budget::default());
    assert!(out.is_empty());
    assert_eq!(m.cells.block_at((1, 0, 0)), Some(B));

    let mut bare = MapStore::new(None, vec![Rule { target: B, origin: A, result: SPENT }]);
    bare.set_block((0, 0, 0), A);
    s.push(collision(0));
    assert!(s.tick(&mut bare, Budget::default()).is_empty());
    assert_eq!(bare.block_at((1, 0, 0)), None);
}

#[test]
fn counters_are_read_by_name() {
    let mut m = map();
    let mut s = ReactionScheduler::with_capacity(7);
    reactive_line(&mut m, &mut s, 32);
    let _ = s.tick(&mut m, Budget::default());
    assert_eq!((s.generations(), s.mutations(), s.dropped()), (s.generations, s.mutations, s.dropped));
    assert!(s.generations() > 0 && s.mutations() > 0 && s.dropped() >= 25);
}

#[test]
fn reactions_tick_is_named_reactions() {
    assert_eq!(Tick::<ReactiveCells<MapStore>>::name(&Reactions), "reactions");
}

fn reactive(authority: bool) -> ReactiveCells<MapStore> {
    let mut cells = map();
    cells.set_block((0, 0, 0), A);
    cells.set_block((1, 0, 0), B);
    ReactiveCells { cells, sched: ReactionScheduler::new(), authority }
}

#[test]
fn a_client_does_not_run_the_scheduler() {
    let mut world = reactive(false);
    world.push_material_event((0, 0, 0), EventKind::Collision);
    assert_eq!(world.sched.pending(), 0);
    assert!(world.tick_reactions().is_empty());
}

#[test]
fn scripted_world_mutations_are_bit_identical_across_runs() {
    let run = || {
        let mut world = reactive(true);
        world.push_material_event((0, 0, 0), EventKind::Collision);
        world.push_material_event((1, 0, 0), EventKind::Collision);
        let mut all = Vec::new();
        for _ in 0..10 {
            all.extend(world.tick_reactions());
        }
        all
    };
    let a = run();
    assert_eq!(a, run());
    assert!(!a.is_empty(), "the scripted pair must actually react");
}

#[test]
fn scheduler_is_order_independent_under_shuffle() {
    let run = |seed: u64| {
        let mut m = map();
        for x in 0..16 {
            m.set_block((x, 0, 0), if x % 2 == 0 { A } else { B });
        }
        let mut events: Vec<MaterialEvent> = (0..16).map(collision).collect();
        let mut s = seed | 1;
        for i in (1..events.len()).rev() {
            s ^= s << 13;
            s ^= s >> 7;
            s ^= s << 17;
            events.swap(i, (s as usize) % (i + 1));
        }
        let mut sched = ReactionScheduler::new();
        for e in events {
            sched.push(e);
        }
        let budget = Budget { events_per_generation: 5, generations_per_tick: 8 };
        let mut committed = Vec::new();
        for _ in 0..8 {
            committed.extend(sched.tick(&mut m, budget));
        }
        committed.sort_by_key(|mu| (mu.pos, mu.from.0, mu.to.0));
        let world: Vec<Option<BlockId>> = (0..16).map(|x| m.block_at((x, 0, 0))).collect();
        (committed, world)
    };
    let a = run(1);
    let b = run(0x9E37_79B1);
    let c = run(0xA5A5_A5A5);
    assert_eq!(a, b);
    assert_eq!(b, c);
    assert!(!a.0.is_empty(), "the shuffled pair must actually react");
}

#[test]
fn followups_are_deferred_never_dropped() {
    let mut m = map();
    let mut s = ReactionScheduler::new();
    reactive_line(&mut m, &mut s, 32);
    let mut committed = 0;
    for _ in 0..400 {
        committed += s.tick(&mut m, one_generation(4)).len();
        if s.pending() == 0 {
            break;
        }
    }
    assert!(committed > 0, "the line must react");
    assert_eq!(s.dropped, 0, "a budget spreads work over generations");
    assert_eq!(s.pending(), 0, "the cascade came to rest within 400 generations");
}

#[test]
fn oldest_events_go_first_whatever_their_position() {
    let mut m = map();
    for base in [0, 100] {
        m.set_block((base, 0, 0), A);
        m.set_block((base + 1, 0, 0), B);
    }
    let mut s = ReactionScheduler::new();
    s.push(collision(100));
    s.push(collision(0));
    let g1 = s.tick(&mut m, one_generation(1));
    assert!(g1.iter().all(|mu| mu.pos.0 <= 2), "generation 1 works the x=0 pair: {:?}", g1);
    assert!(!g1.is_empty(), "the pair must react");
    let g2 = s.tick(&mut m, one_generation(1));
    assert!(
        g2.iter().all(|mu| mu.pos.0 >= 99),
        "generation 2 works the older x=100 event before the newer follow-ups: {:?}",
        g2
    );
}

#[test]
fn capacity_refuses_and_counts_instead_of_growing() {
    let mut m = map();
    let mut s = ReactionScheduler::with_capacity(7);
    reactive_line(&mut m, &mut s, 32);
    assert_eq!(s.pending(), 7);
    assert_eq!(s.dropped, 25);
    let _ = s.tick(&mut m, Budget::default());
    assert!(s.pending() <= 7, "follow-ups respect the capacity too");
}

#[test]
fn a_refused_write_commits_nothing_and_queues_nothing() {
    let mut m = map();
    let mut s = ReactionScheduler::new();
    reactive_line(&mut m, &mut s, 8);
    m.frozen = true;
    let out = s.tick(&mut m, Budget::default());
    assert!(out.is_empty());
    assert_eq!(s.mutations, 0);
    assert_eq!(s.pending(), 0, "no follow-ups for changes that did not happen");
}

#[test]
fn empty_pending_tick_is_a_noop() {
    let mut m = map();
    let mut s = ReactionScheduler::new();
    let out = s.tick(&mut m, Budget::default());
    assert!(out.is_empty());
    assert_eq!(s.generations, 0);
    assert!(m.written.is_empty());
}

#[test]
fn world_quiet_tick_interns_nothing() {
    let mut world = reactive(true);
    let before = world.cells.written.len();
    assert!(world.tick_reactions().is_empty());
    assert_eq!(world.cells.written.len(), before);
    assert_eq!(world.sched.pending(), 0);
}

#[test]
fn placing_wakes_the_cell_and_breaking_wakes_its_neighbours() {
    let mut s = ReactionScheduler::new();
    on_placed(&mut s, (3, 4, 5));
    assert_eq!(s.pending(), 1);
    on_broken(&mut s, (3, 4, 5));
    assert_eq!(s.pending(), 7);
    for c in 0..4 {
        assert_eq!(kind_to_u8(kind_from_u8(c)), c);
    }
}

/// A system that only has a name, and notes its turns.
struct Named(&'static str);

impl Tick<Vec<&'static str>> for Named {
    fn name_spec(&self) -> NameText {
        unreachable!()
    }
    fn ready(_world: Vec<&'static str>) -> bool {
        unreachable!()
    }
    fn steps(
        _before: Self,
        _world: Vec<&'static str>,
        _after: Self,
        _changed: Vec<&'static str>,
        _dt_millis: u32,
    ) -> bool {
        unreachable!()
    }
    fn name(&self) -> &'static str {
        self.0
    }
    fn tick(&mut self, world: &mut Vec<&'static str>, dt_millis: u32) {
        assert_eq!(dt_millis, 50);
        world.push(self.0);
    }
}

#[test]
fn add_in_any_order_yields_the_same_iteration_order() {
    let mut added: Simulation<Vec<&'static str>, Named> = Simulation::new();
    added.add(Named("thermal"));
    added.add(Named("electrical"));
    added.add(Named("fluid"));

    let built: Simulation<Vec<&'static str>, Named> =
        Simulation::with_systems(vec![Named("fluid"), Named("thermal"), Named("electrical")]);

    let expect = ["electrical", "fluid", "thermal"];
    assert_eq!(added.names(), expect);
    assert_eq!(built.names(), expect);

    let mut reverse: Simulation<Vec<&'static str>, Named> = Simulation::default();
    reverse.add(Named("fluid"));
    reverse.add(Named("electrical"));
    reverse.add(Named("thermal"));
    assert_eq!(reverse.names(), expect);

    let mut world = Vec::new();
    assert_eq!(reverse.run(&mut world).0, 1);
    assert_eq!(reverse.run(&mut world).0, 2);
    assert_eq!(world.len(), 6);
    assert_eq!(world[..3], expect);
}

#[test]
fn the_thermal_system_changes_nothing() {
    let mut sim: Simulation<u32, ThermalSystem> = Simulation::new();
    sim.add(ThermalSystem::default());
    let mut world = 7u32;
    sim.run(&mut world);
    assert_eq!(world, 7);
    assert_eq!(sim.names(), ["thermal"]);
}

#[test]
fn simulation_declares_a_fixed_tick() {
    let p = Simulation::<u32, ThermalSystem>::manifest();
    assert_eq!(p.name, "sim");
    assert_eq!(p.reads, FootprintKey::Global);
    assert_eq!(p.writes, FootprintKey::Global);
    assert_eq!(p.cadence, Cadence::FixedTick);
    assert_eq!(p.budget, LaneBudget::Micros(2000));
}

#[test]
fn stream_lanes_declare_names_and_budgets() {
    let expected = [
        (StreamLane::Occlusion, "occlusion", LaneBudget::Micros(500)),
        (StreamLane::DirtyRemesh, "dirty_remesh", LaneBudget::Dispatches(7)),
        (StreamLane::Mip, "lod_mip", LaneBudget::Dispatches(1)),
        (StreamLane::SectionOverlay, "lod_overlay", LaneBudget::Micros(1000)),
        (StreamLane::SectionRemesh, "lod_section_remesh", LaneBudget::Micros(1000)),
        (StreamLane::SectionVisible, "lod_visible", LaneBudget::Micros(1000)),
        (StreamLane::Drain, "drain", LaneBudget::Micros(1000)),
        (StreamLane::Generate, "generate", LaneBudget::Micros(2000)),
        (StreamLane::LightAdmit, "light_admit", LaneBudget::Micros(1000)),
        (StreamLane::MeshAdmit, "mesh_admit", LaneBudget::Micros(2000)),
        (StreamLane::SectionAdmit, "section_admit", LaneBudget::Micros(1000)),
    ];
    for (lane, name, budget) in expected {
        let p = lane.manifest(7);
        assert_eq!(p.name, name);
        assert_eq!(p.budget, budget);
        assert_eq!(p.cadence, Cadence::Frame);
    }
    assert_eq!(duration(StreamLane::Generate.budget(7)), 2000);
}

#[test]
fn systems_of_both_kinds_run_in_one_simulation() {
    let mut sim: Simulation<ReactiveCells<MapStore>, System> = Simulation::new();
    sim.add(System::Thermal(ThermalSystem::new()));
    sim.add(System::Reactions(Reactions));
    assert_eq!(sim.names(), ["reactions", "thermal"]);
    let mut world = reactive(true);
    world.push_material_event((0, 0, 0), EventKind::Collision);
    assert_eq!(sim.run(&mut world).0, 1);
    assert_eq!(world.cells.block_at((1, 0, 0)), Some(SPENT));
}

#[test]
fn repeated_events_in_any_order_leave_the_same_queue() {
    let run = |order: [i32; 5]| {
        let mut m = map();
        let mut s = ReactionScheduler::with_capacity(3);
        for x in order {
            m.set_block((x, 0, 0), if x % 2 == 0 { A } else { B });
        }
        for x in order {
            s.push(collision(x));
        }
        assert_eq!((s.pending(), s.dropped), (3, 0));
        let out = s.tick(&mut m, one_generation(2));
        (out, s.pending())
    };
    let a = run([0, 1, 2, 1, 0]);
    assert_eq!(a, run([2, 2, 1, 0, 1]));
    assert!(!a.0.is_empty());
}
