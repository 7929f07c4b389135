use std::collections::HashMap;
use voxel_world::block::{BlockId, HotTables, Pass};
use voxel_world::world::brick::{Brick, ChunkPayload, PALETTE_MAX};
use voxel_world::world::chunk::{Chunk, ChunkData, CHUNK_VOLUME};
use voxel_world::world::generation::{layered, TerrainGenerator};

const AIR: BlockId = BlockId(0);
const STONE: BlockId = BlockId(1);
const DIRT: BlockId = BlockId(2);

/// Rolling ground between 1 and 19.
struct Hills;

impl TerrainGenerator for Hills {
    fn ready(&self) -> bool {
        unreachable!()
    }
    fn reaches(&self, _wy: i32) -> bool {
        unreachable!()
    }
    fn height_spec(&self, _wx: i32, _wz: i32) -> i32 {
        unreachable!()
    }
    fn surface_spec(&self, _wx: i32, _wz: i32) -> BlockId {
        unreachable!()
    }
    fn deep_spec(&self) -> BlockId {
        unreachable!()
    }
    fn block_spec(&self, _wx: i32, _wy: i32, _wz: i32, _height: i32) -> BlockId {
        unreachable!()
    }
    fn lod_spec(&self, _wx: i32, _wy: i32, _wz: i32) -> BlockId {
        unreachable!()
    }
    fn height(&self, wx: i32, wz: i32) -> i32 {
        10 + (wx.rem_euclid(7) - 3) * (wz.rem_euclid(5) - 2)
    }
    fn surface_at(&self, _wx: i32, _wz: i32) -> BlockId {
        DIRT
    }
    fn deep(&self) -> BlockId {
        STONE
    }
    fn block_at(&self, wx: i32, wy: i32, wz: i32, height: i32) -> BlockId {
        layered(self.surface_at(wx, wz), self.deep(), wy, height)
    }
    fn lod_block_at(&self, wx: i32, wy: i32, wz: i32) -> BlockId {
        self.block_at(wx, wy, wz, self.height(wx, wz))
    }
}

#[test]
fn index_and_local_of_are_inverses() {
    for index in [0, 1, 255, 256, 4095] {
        let (x, y, z) = Chunk::local_of(index);
        assert_eq!(Chunk::index(x, y, z), index);
    }
    assert_eq!(Chunk::index(1, 2, 3), 1 + 3 * 16 + 2 * 256, "x + z*16 + y*256");
}

#[test]
fn a_chunk_tells_its_position() {
    assert_eq!(Chunk::from_uniform(2, -3, 4, AIR).position(), (2, -3, 4));
}

#[test]
fn get_set_roundtrip_on_mixed() {
    let mut chunk = Chunk::new(0, 0, 0, &Hills);
    assert!(chunk.uniform().is_none(), "surface chunks hold mixed cells");
    chunk.set_local(3, 4, 5, DIRT);
    assert_eq!(chunk.get_local(3, 4, 5), DIRT);
    chunk.set_local(3, 4, 5, AIR);
    assert_eq!(chunk.get_local(3, 4, 5), AIR);
}

#[test]
fn uniform_promotes_to_paletted_on_first_differing_write() {
    let mut chunk = Chunk::new(0, -10, 0, &Hills);
    assert_eq!(chunk.uniform(), Some(STONE));
    chunk.set_local(0, 0, 0, STONE);
    assert_eq!(chunk.uniform(), Some(STONE), "matching write stays uniform");

    chunk.set_local(8, 8, 8, AIR);
    assert!(chunk.uniform().is_none(), "differing write goes paletted");
    assert!(
        matches!(&chunk.data().payload, ChunkPayload::Paletted { palette, .. } if palette.len() == 2),
        "promotion palettizes, never pays full width"
    );
    assert_eq!(chunk.get_local(8, 8, 8), AIR);
    assert_eq!(chunk.get_local(0, 0, 0), STONE);
    assert_eq!(chunk.get_local(15, 15, 15), STONE);
}

#[test]
fn mixed_chunk_recompacts_to_uniform_when_edited_back() {
    let mut chunk = Chunk::new(0, -10, 0, &Hills);
    chunk.set_local(8, 8, 8, AIR);
    assert!(chunk.uniform().is_none(), "hole makes it mixed");
    chunk.set_local(8, 8, 8, STONE);
    assert_eq!(chunk.uniform(), Some(STONE), "edit-and-revert collapses to uniform");
    chunk.set_local(1, 1, 1, AIR);
    chunk.set_local(2, 2, 2, AIR);
    chunk.set_local(1, 1, 1, STONE);
    assert!(chunk.uniform().is_none(), "still-mixed chunk stays mixed");
    assert_eq!(chunk.get_local(2, 2, 2), AIR);
}

#[test]
fn generated_sky_chunk_is_uniform_air() {
    let sky = (2..64)
        .map(|cy| Chunk::new(0, cy, 0, &Hills))
        .find(|c| c.uniform() == Some(AIR))
        .expect("a chunk layer above the terrain is uniform air, stored as one id");
    assert_eq!(sky.uniform(), Some(AIR), "sky chunk stores one id, not a cell array");
    assert!(std::mem::size_of::<ChunkData>() <= 40);
    assert!(
        std::mem::size_of::<Brick<ChunkPayload>>() <= 64,
        "got {}",
        std::mem::size_of::<Brick<ChunkPayload>>()
    );
}

#[test]
fn from_cells_picks_the_cheapest_representation() {
    assert_eq!(
        ChunkData::from_cells(Box::new([STONE; CHUNK_VOLUME])),
        ChunkData::Uniform(STONE)
    );
    let mut cells = Box::new([STONE; CHUNK_VOLUME]);
    cells[7] = DIRT;
    match ChunkData::from_cells(cells) {
        ChunkData::Paletted { palette, cells } => {
            assert_eq!(palette.len(), 2);
            assert_eq!(palette[cells[7] as usize], DIRT);
            assert_eq!(palette[cells[0] as usize], STONE);
        }
        other => panic!("expected Paletted, got {:?}", other),
    }
}

#[test]
fn palette_gc_reclaims_dead_entries() {
    let mut chunk = Chunk::from_uniform(0, 0, 0, BlockId(0));
    for i in 0..PALETTE_MAX {
        chunk.set_index(i, BlockId(i as u16));
    }
    for i in 0..CHUNK_VOLUME - 1 {
        chunk.set_index(i, BlockId(1));
    }
    assert!(
        matches!(&chunk.data().payload, ChunkPayload::Paletted { palette, .. } if palette.len() == PALETTE_MAX)
    );
    chunk.set_index(0, BlockId(999));
    match &chunk.data().payload {
        ChunkPayload::Paletted { palette, .. } => {
            assert_eq!(palette.len(), 3, "GC kept only the live ids plus the new one")
        }
        other => panic!("expected GC'd Paletted, got a {:?} variant", other),
    }
    assert_eq!(chunk.get_index(0), BlockId(999));
    assert_eq!(chunk.get_index(CHUNK_VOLUME - 1), BlockId(0));
    assert_eq!(chunk.get_index(100), BlockId(1));
}

#[test]
fn past_256_distinct_blocks_one_chunk_pays_full_width() {
    let mut chunk = Chunk::from_uniform(0, 0, 0, BlockId(0));
    for i in 0..300 {
        chunk.set_index(i, BlockId(1000 + i as u16));
    }
    assert!(matches!(&chunk.data().payload, ChunkPayload::Dense(_)), "257th distinct id promotes");
    for i in 0..300 {
        assert_eq!(chunk.get_index(i), BlockId(1000 + i as u16));
    }
    assert_eq!(chunk.get_index(400), BlockId(0), "untouched cells keep the old fill");
}

#[test]
fn edit_replay_on_uniform_chunk_promotes_correctly() {
    let mut chunk = Chunk::from_uniform(2, 3, 2, AIR);
    assert_eq!(chunk.uniform(), Some(AIR));
    for (index, id) in [(Chunk::index(1, 2, 3), STONE), (Chunk::index(0, 0, 0), DIRT)] {
        chunk.set_index(index, id);
    }
    assert_eq!(chunk.get_local(1, 2, 3), STONE);
    assert_eq!(chunk.get_local(0, 0, 0), DIRT);
    assert_eq!(chunk.get_local(5, 5, 5), AIR, "untouched cells keep the old fill");
}

#[test]
fn set_index_matches_an_independent_overlay_reference_across_every_transition() {
    let mut chunk = Chunk::from_uniform(0, 0, 0, AIR);
    let mut edits: HashMap<usize, BlockId> = HashMap::new();
    let mut state = 0xC0FFEEu64;
    let mut next = move || {
        state = state.wrapping_add(0x9E3779B97F4A7C15);
        let mut z = state;
        z = (z ^ (z >> 30)).wrapping_mul(0xBF58476D1CE4E5B9);
        z = (z ^ (z >> 27)).wrapping_mul(0x94D049BB133111EB);
        z ^ (z >> 31)
    };
    for _ in 0..400 {
        let index = (next() % CHUNK_VOLUME as u64) as usize;
        let id = BlockId((next() % 300) as u16);
        chunk.set_index(index, id);
        edits.insert(index, id);
    }
    for i in 0..CHUNK_VOLUME {
        let want = edits.get(&i).copied().unwrap_or(AIR);
        assert_eq!(chunk.get_index(i), want, "cell {} diverged from the overlay", i);
    }
}

#[test]
fn construction_boundary_roundtrips_every_cell() {
    for (cx, cy, cz) in [(0, 0, 0), (0, -10, 0), (3, 2, -5)] {
        let want = Hills.generate(cx, cy, cz);
        let chunk = Chunk::from_data(cx, cy, cz, want.clone());
        for i in 0..CHUNK_VOLUME {
            let want_id = match &want {
                ChunkData::Uniform(id) => *id,
                ChunkData::Paletted { palette, cells } => palette[cells[i] as usize],
                ChunkData::Dense(cells) => cells[i],
            };
            assert_eq!(chunk.get_index(i), want_id, "cell {} at ({},{},{})", i, cx, cy, cz);
        }
    }
}

#[test]
fn opacity_bits_follow_the_cells() {
    let mut chunk = Chunk::from_uniform(0, 0, 0, AIR);
    chunk.set_index(65, STONE);
    let mut words = [u64::MAX; 64];
    chunk.fill_opacity(|id| id == STONE, &mut words);
    assert_eq!(words[1], 2);
    assert_eq!(words[0], 0);
    let tables = HotTables::from_parts(
        vec![false, true],
        vec![false, true],
        vec![false, false],
        vec![Pass::Blend, Pass::Opaque],
        vec![0, 0],
    );
    assert!(!chunk.is_uniform_opaque(&tables));
    assert!(Chunk::from_uniform(0, 0, 0, STONE).is_uniform_opaque(&tables));
    let mut row = [AIR; 16];
    chunk.copy_row(0, 4, &mut row);
    assert_eq!(row[1], STONE);
}

#[test]
fn new_bricks_are_level_zero_at_the_start_revision() {
    let mixed = {
        let mut cells = Box::new([STONE; CHUNK_VOLUME]);
        cells[7] = DIRT;
        cells
    };
    let mut chunk = Chunk::from_cells(1, 2, 3, mixed);
    for _ in 0..2 {
        assert_eq!((chunk.data().level.0, chunk.data().rev.0), (0, 0));
        chunk.set_index(9, DIRT);
    }
    let flat = Chunk::from_uniform(0, 0, 0, STONE);
    assert_eq!((flat.data().level.0, flat.data().rev.0), (0, 0));
}

#[test]
fn uniform_exactly_where_every_cell_is_equal() {
    let mut chunk = Chunk::from_cells(0, 0, 0, Box::new([STONE; CHUNK_VOLUME]));
    assert_eq!(chunk.uniform(), Some(STONE));
    chunk.set_index(100, DIRT);
    assert_eq!(chunk.uniform(), None);
    chunk.set_index(100, STONE);
    assert_eq!(chunk.uniform(), Some(STONE));
    assert!(matches!(&chunk.data().payload, ChunkPayload::Uniform(v) if v.state == 0));
}
