use voxel_world::block::{BlockId, Detail, HotTables, Pass};
use voxel_world::coord::{BlockCoord, ChunkCoord, Face};
use voxel_world::sim::reactions::{
    Cells, CellStore, EventKind, Origins, Pos, ReactionScheduler,
};
use voxel_world::sim::systems::ReactiveCells;
use voxel_world::world::census::HeldBytes;
use voxel_world::world::chunk::{Chunk, CHUNK_SIZE, CHUNK_VOLUME};
use voxel_world::world::chunk_map::{ChunkMap, ChunkSet};
use voxel_world::world::coverage::SectionPos;
use voxel_world::world::edits::{
    LightWork, Loaded, MeshState, MeshWork, OcclusionWork, PyramidCfg, SectionWork, ViewVolume,
    World,
};
use voxel_world::world::generation::{layered, TerrainGenerator};
use voxel_world::world::light::{CeilingWindow, FaceShell, LightGrid, LightLevel};
use voxel_world::world::overlay::Overlay;
use voxel_world::world::propagate::propagate;
use voxel_world::world::sections::SectionMarks;

const AIR: BlockId = BlockId(0);
const STONE: BlockId = BlockId(1);

fn tables() -> HotTables {
    HotTables::from_parts(
        vec![false, true],
        vec![false, true],
        vec![false, false],
        vec![Pass::Opaque, Pass::Opaque],
        vec![0, 0],
    )
}

fn loaded(c: ChunkCoord, id: BlockId, light: Option<LightGrid>, mesh: Option<u64>) -> Loaded {
    Loaded {
        chunk: Chunk::from_uniform(c.x, c.y, c.z, id),
        light,
        connectivity: None,
        rev: 0,
        state: MeshState::Ready,
        mesh,
    }
}

/// Stone below sea level and nothing above.
struct Ground;

impl TerrainGenerator for Ground {
    fn ready(&self) -> bool {
        unreachable!()
    }
    fn reaches(&self, _wy: i32) -> bool {
        unreachable!()
    }
    fn height_spec(&self, _wx: i32, _wz: i32) -> i32 {
        unreachable!()
    }
    fn surface_spec(&self, _wx: i32, _wz: i32) -> BlockId {
        unreachable!()
    }
    fn deep_spec(&self) -> BlockId {
        unreachable!()
    }
    fn block_spec(&self, _wx: i32, _wy: i32, _wz: i32, _height: i32) -> BlockId {
        unreachable!()
    }
    fn lod_spec(&self, _wx: i32, _wy: i32, _wz: i32) -> BlockId {
        unreachable!()
    }
    fn height(&self, _wx: i32, _wz: i32) -> i32 {
        0
    }
    fn surface_at(&self, _wx: i32, _wz: i32) -> BlockId {
        STONE
    }
    fn deep(&self) -> BlockId {
        STONE
    }
    fn block_at(&self, wx: i32, wy: i32, wz: i32, height: i32) -> BlockId {
        layered(self.surface_at(wx, wz), self.deep(), wy, height)
    }
    fn lod_block_at(&self, wx: i32, wy: i32, wz: i32) -> BlockId {
        self.block_at(wx, wy, wz, self.height(wx, wz))
    }
}

/// A column of three chunks of open air over rock, lit by the sky.
fn world() -> World {
    let mut chunks = ChunkMap::new();
    for y in -1..=1 {
        let c = ChunkCoord::new(0, y, 0);
        let (id, light) = if y < 0 {
            (STONE, Some(LightGrid::dark()))
        } else {
            (AIR, Some(LightGrid::open_sky()))
        };
        chunks.insert(c, loaded(c, id, light, Some(10 + y as u64 % 7)));
    }
    let mut ceilings = ChunkMap::new();
    ceilings.insert(ChunkCoord::new(0, 0, 0), CeilingWindow::from_heights(|_, _| 0));
    World {
        view: ViewVolume { horizontal: 8, vertical: 4 },
        chunks,
        overlay: Overlay::new(),
        edit_generation: 0,
        ceilings,
        lighting: true,
        ao: true,
        tables_epoch: 0,
        light: LightWork {
            epoch: 0,
            worklist: ChunkSet::new(),
            inflight: ChunkSet::new(),
            apply_queue: Vec::new(),
            pending: false,
        },
        mesh: MeshWork {
            dirty: ChunkSet::new(),
            pending_dirty: false,
            fresh: ChunkSet::new(),
            pending_fresh: false,
            center: None,
            prev_box: None,
            radius_shrunk: false,
        },
        occlusion: OcclusionWork { forced: false, active: false, dirty: false, refill: Vec::new() },
        sections: SectionWork {
            lod2: true,
            epoch: 0,
            pyramid: PyramidCfg { unit: 1, levels: 3, finest: 2 },
            details: vec![Detail(2), Detail(3)],
            domain_h: 512,
            marks: SectionMarks::new(),
            pending: false,
        },
    }
}

fn at(x: i32, y: i32, z: i32) -> BlockCoord {
    BlockCoord { x, y, z }
}

#[test]
fn a_placed_block_reads_back_and_lists_as_an_edit() {
    let mut w = world();
    assert_eq!(w.set_block(&Ground, at(3, 5, 4), STONE, &tables(), false), AIR);
    assert_eq!(w.block_at(at(3, 5, 4)), STONE);
    assert_eq!(w.edits(), vec![(at(3, 5, 4), STONE)]);
    assert_eq!(w.edit_generation, 1);
    let l = w.chunks.get(ChunkCoord::new(0, 0, 0)).unwrap();
    assert_eq!((l.rev, l.state), (1, MeshState::Dirty));
    assert!(w.mesh.dirty.contains(ChunkCoord::new(0, 0, 0)));
    assert_eq!(w.sections.marks.rev(SectionPos { detail: Detail(2), x: 0, z: 0 }), 1);
    assert_eq!(w.sections.marks.rev(SectionPos { detail: Detail(2), x: 1, z: 0 }), 0);
}

#[test]
fn placing_what_is_there_changes_nothing() {
    let mut w = world();
    assert_eq!(w.set_block(&Ground, at(3, -5, 4), STONE, &tables(), true), STONE);
    assert_eq!(w.edit_generation, 0);
    assert!(w.edits().is_empty());
    assert!(w.mesh.dirty.members().is_empty());
}

#[test]
fn restoring_the_generated_block_forgets_the_edit() {
    let mut w = world();
    w.set_block(&Ground, at(1, 2, 3), STONE, &tables(), false);
    assert_eq!(w.edits().len(), 1);
    assert_eq!(w.set_block(&Ground, at(1, 2, 3), AIR, &tables(), false), STONE);
    assert!(w.edits().is_empty());
    assert_eq!(w.edit_generation, 2);
}

#[test]
fn seed_and_overlay_bring_every_loaded_block_back() {
    let mut w = world();
    for (p, id) in [
        (at(1, 2, 3), STONE),
        (at(1, -2, 3), AIR),
        (at(1, 2, 3), AIR),
        (at(9, 20, 9), STONE),
        (at(9, -1, 9), STONE),
    ] {
        w.set_block(&Ground, p, id, &tables(), false);
    }
    let edits = w.edits();
    assert_eq!(edits.len(), 2, "only what differs from the seed is kept");
    for x in 0..16 {
        for z in 0..16 {
            for y in -16..32 {
                let b = at(x, y, z);
                let saved = edits.iter().find(|e| e.0 == b).map(|e| e.1);
                assert_eq!(w.block_at(b), saved.unwrap_or(Ground.block_at(x, y, z, 0)));
            }
        }
    }
}

#[test]
fn an_edit_on_a_face_touches_the_chunk_across() {
    let mut w = world();
    w.set_block(&Ground, at(7, 15, 7), STONE, &tables(), false);
    let above = w.chunks.get(ChunkCoord::new(0, 1, 0)).unwrap();
    assert_eq!((above.rev, above.state), (1, MeshState::Dirty));
    let below = w.chunks.get(ChunkCoord::new(0, -1, 0)).unwrap();
    assert_eq!(below.rev, 0, "the block does not touch the chunk below");
}

#[test]
fn edits_in_unloaded_space_are_kept_in_the_overlay() {
    let mut w = world();
    let far = at(1600, 40, -1600);
    assert_eq!(w.set_block(&Ground, far, STONE, &tables(), false), AIR);
    assert_eq!(w.block_at(far), AIR, "unloaded space reads as air");
    assert_eq!(w.edits(), vec![(far, STONE)]);
}

#[test]
fn constructed_roof_in_upper_chunk_shadows_lower_chunk() {
    let mut w = world();
    let roof_y = 400;
    let lower_cy = roof_y / 16 - 1;
    let column = ChunkCoord::new(0, 0, 0);
    assert!(w.ceilings.get(column).unwrap().open_above(8, 8, roof_y), "starts open to sky");
    for z in 0..16 {
        for x in 0..16 {
            w.set_block(&Ground, at(x, roof_y, z), STONE, &tables(), false);
        }
    }
    assert!(
        w.light.worklist.members().iter().any(|c| c.x == 0 && c.z == 0),
        "raising a column's ceiling must re-seed the loaded chunks below it"
    );
    assert!(w.light.pending);
    assert!(!w.ceilings.contains(column), "the column's cached ceiling is dropped");
    let ceiling = CeilingWindow::from_heights(|_, _| roof_y + 1);
    let mut roof_cells = [AIR; CHUNK_VOLUME];
    for z in 0..CHUNK_SIZE {
        for x in 0..CHUNK_SIZE {
            roof_cells[Chunk::index(x, 0, z)] = w.cell_at(&Ground, at(x as i32, roof_y, z as i32));
        }
    }
    let roof = Chunk::from_cells(0, lower_cy + 1, 0, Box::new(roof_cells));
    let mut roof_light = LightGrid::dark();
    propagate(&roof, &FaceShell::dark(), &ceiling, roof_y, &tables(), &mut roof_light);
    assert_eq!(
        roof_light.at(Chunk::index(8, 0, 8)).sky,
        LightLevel::dark(),
        "the roof's lower face is dark"
    );
    let shell = FaceShell::capture(|f| if f == Face::PosY { Some(&roof_light) } else { None });
    let lower = Chunk::from_uniform(0, lower_cy, 0, AIR);
    let mut lower_light = LightGrid::dark();
    propagate(&lower, &shell, &ceiling, lower_cy * 16, &tables(), &mut lower_light);
    assert_eq!(
        lower_light.at(Chunk::index(8, CHUNK_SIZE - 1, 8)).sky,
        LightLevel::dark(),
        "the constructed roof must shadow the chunk directly below it"
    );
}

#[test]
fn census_is_stable_on_an_unchanged_world() {
    let mut w = world();
    w.set_block(&Ground, at(3, 5, 4), STONE, &tables(), false);
    let held = HeldBytes { mesh_cpu: 1, edit_overlay: 2, section_lod: 3, worklist: 4 };
    let a = w.memory_census(held);
    let b = w.memory_census(held);
    assert_eq!(a, b);
    assert_eq!(a.total, b.total);
    assert_eq!(
        a.total,
        a.chunk_uniform_bytes
            + a.chunk_paletted_bytes
            + a.chunk_dense_bytes
            + a.light_uniform_bytes
            + a.light_cells_bytes
            + a.mesh_cpu_bytes
            + a.edit_overlay_bytes
            + a.section_lod_bytes
            + a.worklist_bytes
    );
    assert!(a.chunk_uniform_count + a.chunk_paletted_count + a.chunk_dense_count > 0);
    assert!(a.light_uniform_count > 0, "sky and rock publish uniform light");
    assert_eq!((a.chunk_uniform_count, a.chunk_paletted_count, a.chunk_dense_count), (2, 1, 0));
    assert_eq!(a.chunk_paletted_bytes, 2 * 4 + CHUNK_VOLUME);
    assert_eq!((a.light_uniform_count, a.light_uniform_bytes), (3, 6));
}

#[test]
fn turning_light_off_forgets_what_was_on_its_way() {
    let mut w = world();
    w.light.worklist.insert(ChunkCoord::new(0, 1, 0));
    let mut freed = w.set_lighting(false);
    freed.sort();
    assert_eq!(freed.len(), 3, "every mesh is dropped");
    assert!(!w.lighting() && w.light.worklist.members().is_empty());
    assert!(w.chunks.get(ChunkCoord::new(0, 1, 0)).unwrap().light.is_none());
    assert!(w.set_lighting(false).is_empty(), "nothing changes the second time");
    assert!(w.transition_lighting(true));
    assert_eq!(w.light.worklist.members(), vec![ChunkCoord::new(0, 1, 0)]);
    assert!(w.light.pending);
}

#[test]
fn shade_changes_drop_meshes_and_ladders_retire_the_far_field() {
    let mut w = world();
    assert!(w.set_ao(true).is_empty());
    assert_eq!(w.set_ao(false).len(), 3);
    assert_eq!(w.tables_epoch, 1);
    assert_eq!(w.chunks.get(ChunkCoord::new(0, 0, 0)).unwrap().state, MeshState::NeedsMesh);
    assert!(!w.section_pyramid_changed(1, 3, 2));
    assert_eq!(w.set_render_config(true, true, 1, 3, 2), None);
    assert!(w.occlusion.forced && w.occlusion.dirty);
    assert_eq!(w.set_render_config(true, true, 1, 4, 2), Some(true));
    assert_eq!(w.set_render_config(true, false, 1, 4, 2), Some(false));
    assert_eq!(w.sections.epoch, 2);
    w.set_view_distances(12, 6);
    assert_eq!((w.view_radius(), w.vertical_radius()), (12, 6));
}

#[test]
fn world_cell_store_defines_unloaded_chunks_from_the_generator() {
    let mut w = world();
    w.chunks = ChunkMap::new();
    let y = Ground.height(0, 0);
    let below = w.cell_at(&Ground, at(0, y - 4, 0));
    assert_ne!(below, AIR, "generated ground reads without a chunk");
    assert_eq!(below, STONE);
    assert_eq!(w.cell_at(&Ground, at(0, y + 40, 0)), AIR, "generated sky");
    assert_eq!(w.block_at(at(0, y - 4, 0)), AIR, "unloaded space reads as air");
}

#[test]
fn world_cell_store_set_block_goes_through_the_overlay() {
    let mut w = world();
    let p = at(8, Ground.height(8, 8), 8);
    let previous = w.set_block(&Ground, p, STONE, &tables(), false);
    assert_ne!(previous, STONE);
    assert_eq!(w.block_at(p), STONE);
    assert!(w.edits().contains(&(p, STONE)), "the edit is in the overlay");
}

#[test]
fn edits_in_unloaded_space_are_readable_at_once() {
    let mut w = world();
    let far = at(1600, -7, -1600);
    assert_eq!(w.cell_at(&Ground, far), STONE);
    w.set_block(&Ground, far, AIR, &tables(), false);
    assert_eq!(w.cell_at(&Ground, far), AIR);
    assert_eq!(w.cell_at(&Ground, at(1601, -7, -1600)), STONE, "its neighbour stays");
    w.set_block(&Ground, far, STONE, &tables(), false);
    assert_eq!(w.cell_at(&Ground, far), STONE);
    assert!(w.edits().is_empty(), "what generation gives needs no entry");
}

#[test]
fn loading_changes_no_block() {
    let w = world();
    let mut bare = world();
    bare.chunks = ChunkMap::new();
    for y in -16..16 {
        assert_eq!(w.cell_at(&Ground, at(2, y, 5)), bare.cell_at(&Ground, at(2, y, 5)), "{y}");
    }
}

const A: BlockId = BlockId(2);
const B: BlockId = BlockId(3);
const SPENT: BlockId = BlockId(4);

/// A world with its terrain as cells, loaded or not, where `A` and `B` wear each other
/// out.
struct WorldCells {
    world: World,
    tables: HotTables,
}

impl CellStore for WorldCells {
    type State = ();
    fn state(&self) {
        unreachable!()
    }
    fn cells(_s: ()) -> Cells {
        unreachable!()
    }
    fn outcome(_s: (), _target: BlockId, _origins: Origins) -> Option<BlockId> {
        unreachable!()
    }
    fn interacted(_s: (), _target: BlockId, _origins: Origins) {
        unreachable!()
    }
    fn takes(_s: (), _pos: Pos, _id: BlockId) -> bool {
        unreachable!()
    }
    fn written(_s: (), _pos: Pos, _id: BlockId) {
        unreachable!()
    }
    fn interacted_cells(_s: (), _target: BlockId, _origins: Origins) {
        unreachable!()
    }
    fn written_cells(_s: (), _pos: Pos, _id: BlockId) {
        unreachable!()
    }
    fn block_at(&self, pos: Pos) -> Option<BlockId> {
        Some(self.world.cell_at(&Ground, at(pos.0, pos.1, pos.2)))
    }
    fn set_block(&mut self, pos: Pos, id: BlockId) -> Option<BlockId> {
        let p = at(pos.0, pos.1, pos.2);
        let was = self.world.cell_at(&Ground, p);
        self.world.set_block(&Ground, p, id, &self.tables, false);
        Some(was)
    }
    fn interact(&mut self, target: BlockId, origins: &Vec<(BlockId, EventKind)>) -> Option<BlockId> {
        let by = |id: BlockId| origins.iter().any(|o| o.0 == id);
        if (target == A && by(B)) || (target == B && by(A)) {
            Some(SPENT)
        } else {
            None
        }
    }
}

#[test]
fn cascades_read_unloaded_cells_through_the_overlay_and_generator() {
    // No chunk is loaded: the pair lives in the overlay only, and the scheduler sees it.
    let mut bare = world();
    bare.chunks = ChunkMap::new();
    let tables = HotTables::from_parts(
        vec![false, true, true, true, true],
        vec![false, true, true, true, true],
        vec![false; 5],
        vec![Pass::Opaque; 5],
        vec![0; 5],
    );
    let mut cells = WorldCells { world: bare, tables };
    let y = 200;
    cells.set_block((0, y, 0), A);
    cells.set_block((1, y, 0), B);
    assert_eq!(cells.block_at((0, y, 0)), Some(A), "overlay read without a chunk");
    assert_eq!(cells.block_at((1, y, 0)), Some(B));
    assert_eq!(cells.block_at((0, y - 1, 0)), Some(AIR), "generated read");
    let mut live = ReactiveCells { cells, sched: ReactionScheduler::new(), authority: true };
    live.push_material_event((0, y, 0), EventKind::Collision);
    live.push_material_event((1, y, 0), EventKind::Collision);
    let out = live.tick_reactions();
    assert!(!out.is_empty(), "the pair reacts even though no chunk is loaded");
    for m in &out {
        assert_eq!(live.cells.block_at(m.pos), Some(m.to), "the commit is readable");
        assert_ne!(m.from, AIR);
    }
}

#[test]
fn every_dropped_mesh_is_listed_once() {
    let mut w = world();
    let held: Vec<u64> = w
        .chunks
        .keys()
        .into_iter()
        .filter_map(|c| w.chunks.get(c).and_then(|l| l.mesh))
        .collect();
    assert_eq!(held.len(), 3);
    assert_eq!(w.set_ao(false), held);
    assert!(w.free_meshes().is_empty(), "no mesh is left to drop");
}

#[test]
fn any_edits_leave_only_what_differs_from_the_terrain() {
    let mut w = world();
    for k in 0..60 {
        let p = at(k % 5, k % 7 - 3, k % 3);
        let id = if k % 2 == 0 { STONE } else { AIR };
        w.set_block(&Ground, p, id, &tables(), false);
    }
    let edits = w.edits();
    for (i, (p, id)) in edits.iter().enumerate() {
        let natural = if p.y < 0 { STONE } else { AIR };
        assert_ne!(*id, natural);
        assert!(edits[..i].iter().all(|e| e.0 != *p));
        assert_eq!(w.block_at(*p), *id);
    }
}
