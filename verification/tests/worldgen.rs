use std::collections::HashSet;
use voxel_world::block::BlockId;
use voxel_world::settings::real32::Real32;
use voxel_world::world::chunk::{Chunk, ChunkData, CHUNK_SIZE, CHUNK_VOLUME};
use voxel_world::world::classic::{ClassicGenerator, Hint, Profile};
use voxel_world::world::diffusion::{Col, DiffusionTerrain};
use voxel_world::world::diffusion_cfg::{
    DiffusionCfg, Relief, MIN_STRIDE, PHASES_MAX, PHASES_MIN, RELIEFS, STRIDE_STEP, TILES,
};
use voxel_world::world::diffusion_v2::{
    classify, cos_k, cos_lat, elev_spline, is_basin, is_volcanic, relief_q16, scale_300,
    sin_bhaskara_q16, Biome, DiffusionV2, PlateNoise, Surroundings, V2Score, CHANNELS, CH_CAVES,
    CH_ELEV, CH_GEOL, CH_HUMID, CH_TEMP, CH_WATER, FIELD_LEN, SEA, WATER_BASIN,
};
use voxel_world::world::field_asks::{
    continent_ask, plate_asks, read_surroundings, NoiseAsk, WARP_AMP,
};
use voxel_world::world::generation::{
    cell_hash, Seed, TerrainGenerator, WorldgenKind, CHUNK_COLUMNS,
};
use voxel_world::world::lattice::{lattice, phase_cell, plane_lattice};
use voxel_world::world::placement::{hit, CaveWall, OreTable, Resolved, Slice, SurfaceKind};
use voxel_world::world::q16::{
    clamp_q16, div_toward_zero, lerp_q16, mul_q16, norm01, q16_round, smoothstep_q16, HALF, ONE,
};
use voxel_world::world::sampled::{DiffusionGenerator, V2Generator};
use voxel_world::world::terrain::{
    carved, Column, Probe, Terrain, ISLAND_MIN_Y, OVERHANG_REACH,
};
use voxel_world::world::terrain_fill::{column_extents, Bounds};

const AIR: BlockId = BlockId(0);
const STONE: BlockId = BlockId(1);
const WATER: BlockId = BlockId(2);
const LUMIN: BlockId = BlockId(40);

fn slice(min_depth: i32, one_in: u32, id: u16) -> Slice {
    Slice { min_depth, width: u32::MAX / one_in, id: BlockId(id) }
}

/// Ten seams, half of them deep, and a second stream an eighth as wide.
fn ores() -> OreTable {
    let depths = [3, 8, 8, 20, 20, 20, 32, 32, 48, 48];
    let ones = [90, 110, 130, 240, 200, 220, 300, 380, 460, 240];
    let seams: Vec<Slice> =
        (0..10).map(|i| slice(depths[i], ones[i], 50 + i as u16)).collect();
    let seams_b: Vec<Slice> =
        (0..10).map(|i| slice(depths[i], ones[i] * 8, 50 + i as u16)).collect();
    let pairs: Vec<Vec<BlockId>> = (0..10u16)
        .map(|i| (0..i).map(|j| BlockId(100 + i * 10 + j)).collect())
        .collect();
    OreTable { seams, seams_b, pairs }
}

fn island_ores() -> OreTable {
    OreTable {
        seams: vec![slice(0, 45, 60), slice(0, 160, 61)],
        seams_b: vec![],
        pairs: vec![vec![], vec![BlockId(62)]],
    }
}

fn mat() -> Resolved {
    Resolved {
        stone: STONE,
        water: WATER,
        dress: [BlockId(10), BlockId(11), BlockId(12), BlockId(13), BlockId(14)],
        crust: [BlockId(20), BlockId(21), BlockId(22), BlockId(23), BlockId(24)],
        surface_scatter: [vec![slice(0, 40, 30)], vec![], vec![], vec![], vec![slice(0, 60, 31)]],
        ores: ores(),
        max_scattered_depth: 64,
        cave_wall: Some(CaveWall { min_depth: 12, width: u32::MAX / 40, id: LUMIN }),
        island_grass: BlockId(70),
        island_ice: BlockId(71),
        island_crust: BlockId(72),
        island_ores: island_ores(),
    }
}

fn terrain(seed: i64) -> Terrain {
    Terrain { seed, sea_level: 20, mat: mat() }
}

/// Blobs of carved rock, shelves over the ground and islands in the sky.
fn noise(p: Probe, x: i32, y: i32, z: i32, d: i32) -> bool {
    let blob = |s: i32| (x.div_euclid(s) * 3 + y.div_euclid(s) * 5 + z.div_euclid(s) * 7).rem_euclid(9);
    match p {
        Probe::Cave => d >= 6 && blob(4) == 0,
        Probe::Ravine => d >= 8 && blob(3) == 1,
        Probe::Overhang => blob(5) == 2,
        Probe::Island => y >= ISLAND_MIN_Y && y < ISLAND_MIN_Y + 24 && blob(8) < 3,
    }
}

fn ground_of(wx: i32, wz: i32) -> i32 {
    18 + (wx.rem_euclid(23) - 11) * (wz.rem_euclid(17) - 8) / 9
}

fn column_of(g: &Terrain, wx: i32, wz: i32) -> Column {
    let lake = (wx + wz).rem_euclid(31) == 0;
    let level = if lake { 27 } else { g.sea_level };
    g.column(ground_of(wx, wz), level, wx.rem_euclid(40) < 4, wz.rem_euclid(40) < 6, wx, wz)
}

fn columns_of(g: &Terrain, cx: i32, cz: i32) -> [Column; CHUNK_COLUMNS] {
    std::array::from_fn(|k| column_of(g, cx * 16 + (k % 16) as i32, cz * 16 + (k / 16) as i32))
}

fn no_bounds() -> Bounds {
    Bounds { quiet: false, quiet_below: false, quiet_above: false, island_free: false }
}

#[test]
fn generate_column_matches_per_chunk_generate() {
    let g = terrain(3);
    for (cx, cz) in [(0, 0), (2, -3), (-1, 7), (0, -4)] {
        let (low, high) = (-3, 5);
        let cols = columns_of(&g, cx, cz);
        let e = column_extents(&cols);
        let n = (high - low + 1) as usize;
        let (column, _) = g.generate_column(
            &noise, cx, cz, low, high, &cols, &vec![false; n + 2], &vec![false; n],
        );
        assert_eq!(column.len() as i32, high - low + 1);
        for (cy, data) in column {
            let alone = g.fill_chunk(&noise, cx, cy, cz, &cols, &e, &no_bounds());
            assert_eq!(data, alone, "chunk ({cx}, {cy}, {cz})");
        }
    }
    let g = classic(3);
    for (cx, cz) in [(0, 0), (2, -3), (-1, 7), (0, -4)] {
        let (column, _) = g.generate_column(cx, cz, -3, 5);
        assert_eq!(column.len(), 9);
        for (cy, data) in column {
            assert_eq!(data, g.generate(cx, cy, cz), "chunk ({cx}, {cy}, {cz})");
        }
    }
}

#[test]
fn generation_generate_column_heights_match_height() {
    let g = terrain(7);
    for (cx, cz) in [(0, 0), (2, -3), (-1, 7), (4, 4)] {
        let cols = columns_of(&g, cx, cz);
        let (_, heights) =
            g.generate_column(&noise, cx, cz, 0, 0, &cols, &vec![false; 3], &vec![false; 1]);
        let (chunks, empty) = g.generate_column(&noise, cx, cz, 1, 0, &cols, &vec![], &vec![]);
        assert!(chunks.is_empty());
        for k in 0..CHUNK_COLUMNS {
            assert_eq!(heights[k], cols[k].height);
            assert_eq!(empty[k], heights[k], "an empty run still reports heights");
        }
    }
    assert_generate_column_heights_match_height(&classic(7), &[(0, 0), (2, -3), (-1, 7), (4, 4)]);
}

fn assert_fill_matches_cells(g: &Terrain, coords: &[(i32, i32, i32)]) {
    for &(cx, cy, cz) in coords {
        let cols = columns_of(g, cx, cz);
        let data = g.fill_chunk(&noise, cx, cy, cz, &cols, &column_extents(&cols), &no_bounds());
        let chunk = Chunk::from_data(cx, cy, cz, data);
        for lz in 0..CHUNK_SIZE {
            for lx in 0..CHUNK_SIZE {
                let (wx, wz) = (cx * 16 + lx as i32, cz * 16 + lz as i32);
                let p = column_of(g, wx, wz);
                for ly in 0..CHUNK_SIZE {
                    let wy = cy * 16 + ly as i32;
                    assert_eq!(
                        chunk.get_local(lx, ly, lz),
                        g.cell_base(&noise, &p, wx, wy, wz, true),
                        "cell ({wx}, {wy}, {wz})"
                    );
                }
            }
        }
    }
}

#[test]
fn generated_chunks_match_per_cell_block_at() {
    assert_fill_matches_cells(
        &terrain(3),
        &[
            (0, 0, 0), (0, 1, 0), (2, 4, -3), (-1, 5, 7), (0, -2, 0),
            (0, -4, 0), (0, 3, 0), (2, 14, 3), (0, -1, 5), (0, -40, 0), (1, 7, 1),
        ],
    );
}

#[test]
fn surface_chunk_fill_matches_per_cell() {
    assert_fill_matches_cells(&terrain(5), &[(0, 1, 0), (3, 1, -2), (-5, 2, 4), (7, 1, 9)]);
}

#[test]
fn lod_column_matches_lod_block_at() {
    let g = terrain(42);
    let ys: Vec<i32> = (0..64).map(|j| j * 4 + 2).collect();
    let mut out = vec![AIR; ys.len()];
    for (wx, wz) in [(0, 0), (13, -27), (-8, -56), (100, -80 * 16 + 8)] {
        let p = column_of(&g, wx, wz);
        g.lod_column(&noise, &p, wx, wz, &ys, &mut out);
        for (i, &wy) in ys.iter().enumerate() {
            assert_eq!(out[i], g.cell_base(&noise, &p, wx, wy, wz, false), "({wx},{wy},{wz})");
        }
    }
}

#[test]
fn deep_chunks_are_uniform_stone() {
    let g = terrain(11);
    let quiet = |_: Probe, _: i32, _: i32, _: i32, _: i32| false;
    let cols = columns_of(&g, 0, 5);
    let b = Bounds { quiet: true, quiet_below: true, quiet_above: true, island_free: true };
    let data = g.fill_chunk(&quiet, 0, -20, 5, &cols, &column_extents(&cols), &b);
    assert_eq!(data, ChunkData::Uniform(STONE));
    for k in 0..CHUNK_COLUMNS {
        let (wx, wz) = ((k % 16) as i32, 80 + (k / 16) as i32);
        for ly in 0..16 {
            assert_eq!(g.cell_base(&quiet, &cols[k], wx, -320 + ly, wz, true), STONE);
        }
    }
}

#[test]
fn oceans_fill_with_water() {
    let g = terrain(5);
    let sea = g.sea_level;
    let mut found = 0;
    for x in -512..512 {
        for z in -8..8 {
            let (wx, wz) = (x * 3, z * 3);
            let p = column_of(&g, wx, wz);
            if p.height < sea {
                let at = g.cell_base(&noise, &p, wx, sea - 1, wz, true);
                assert_eq!(at, WATER, "ocean fills to sea level");
                found += 1;
            }
        }
    }
    assert!(found > 0, "the slab holds at least one ocean column");
    let p = g.column(9, 20, false, false, 3, 4);
    assert_eq!(g.cell_base(&noise, &p, 3, 19, 4, true), WATER);
    assert_eq!(p.kind, SurfaceKind::Shore);
    assert_eq!(g.cell_base(&noise, &p, 3, 8, 4, true), BlockId(11), "a shore under water");
}

#[test]
fn overhangs_place_solid_rock_above_the_surface() {
    let g = terrain(5);
    let mut found = false;
    for wx in -60..60 {
        for wz in -60..60 {
            let p = column_of(&g, wx, wz);
            for up in 1..OVERHANG_REACH {
                let wy = p.height + up;
                if g.cell_base(&noise, &p, wx, wy, wz, true) == STONE {
                    assert!(noise(Probe::Overhang, wx, wy, wz, up));
                    found = true;
                }
            }
        }
    }
    assert!(found, "an overhang shelf sits above the heightfield surface");
    let shelf = |p: Probe, _: i32, _: i32, _: i32, _: i32| p == Probe::Overhang;
    let p = g.column(40, 20, false, false, 0, 0);
    assert_eq!(g.cell_base(&shelf, &p, 0, 42, 0, true), STONE);
    assert_eq!(g.cell_base(&shelf, &p, 0, 60, 0, true), AIR, "past the reach of shelves");
}

#[test]
fn islands_are_dressed_from_the_top() {
    let g = terrain(5);
    assert_eq!(g.island_block(0, 150, 0, [false, false, false, false]), BlockId(70));
    assert_eq!(g.island_block(0, 230, 0, [false, false, false, false]), BlockId(71));
    assert_eq!(g.island_block(0, 150, 0, [true, false, true, true]), BlockId(72));
    let inside = g.island_block(0, 150, 0, [true; 4]);
    assert!([STONE, BlockId(60), BlockId(61), BlockId(62)].contains(&inside));
}

#[test]
fn stream_b_yields_bounded_pairs_and_boosted_singles() {
    let g = terrain(11);
    let single_ids: HashSet<u16> = g.mat.ores.seams.iter().map(|s| s.id.0).collect();
    let pair_ids: HashSet<u16> = g.mat.ores.pairs.iter().flatten().map(|b| b.0).collect();
    let (mut singles, mut pairs, mut total) = (0u64, 0u64, 0u64);
    for wx in 0..512 {
        for wz in 0..512 {
            total += 1;
            match g.ore_at(wx, -1000, wz, 60) {
                None => {}
                Some(id) if single_ids.contains(&id.0) => singles += 1,
                Some(id) if pair_ids.contains(&id.0) => pairs += 1,
                Some(id) => panic!("unknown ore {id:?}"),
            }
        }
    }
    let single_rate = singles as f64 / total as f64;
    assert!((0.045..=0.075).contains(&single_rate), "single rate {single_rate:.4}");
    assert!(pairs > 10, "overlap pairs must occur (got {pairs} in {total})");
    assert!((pairs as f64) < (singles as f64) * 0.05, "pairs stay rare ({pairs} of {singles})");
}

#[test]
fn beach_edge_dither_holds_its_band_and_rates() {
    let g = terrain(3);
    let mut rim = [[0u64; 2]; 3];
    for wx in -512..512 {
        for wz in -512..512 {
            for band in 0..3usize {
                let kind = g.surface_kind(21 + band as i32, 20, false, false, wx, wz);
                rim[band][0] += 1;
                if kind == SurfaceKind::BeachEdge {
                    rim[band][1] += 1;
                } else {
                    assert_eq!(kind, SurfaceKind::Grassy);
                }
            }
        }
    }
    assert!(rim[0][0] > 200 && rim[1][0] > 200);
    let rate = |b: [u64; 2]| b[1] as f64 / b[0] as f64;
    assert!((0.42..=0.58).contains(&rate(rim[0])), "+1 rim about half: {:?}", rim[0]);
    assert!((0.17..=0.33).contains(&rate(rim[1])), "+2 rim about a quarter: {:?}", rim[1]);
    assert_eq!(rim[2][1], 0, "the dither never reaches above the +2 rim");
    assert_eq!(g.surface_kind(80, 20, false, false, 0, 0), SurfaceKind::Snowy, "high ground");
    assert_eq!(g.surface_kind(40, 20, true, true, 0, 0), SurfaceKind::Snowy, "cold before dry");
    assert_eq!(g.surface_kind(40, 20, false, true, 0, 0), SurfaceKind::Desert);
}

#[test]
fn cave_wall_lumin_hugs_carved_floors_and_ceilings() {
    let g = terrain(9);
    let mut found = 0u64;
    for wx in 0..16 {
        for wz in 0..96 {
            let p = column_of(&g, wx, wz);
            for wy in -128..-80 {
                if p.height - wy <= 64 {
                    continue;
                }
                if g.cell_base(&noise, &p, wx, wy, wz, true) == LUMIN {
                    found += 1;
                    assert!(
                        carved(&noise, wx, wy + 1, wz, p.height)
                            || carved(&noise, wx, wy - 1, wz, p.height),
                        "wall glow at ({wx},{wy},{wz}) without a carved neighbour"
                    );
                }
            }
        }
    }
    assert!(found > 25, "deep caverns must glow, found {found}");
}

#[test]
fn slices_are_cut_in_order_and_stop_at_their_depth() {
    let s = vec![
        Slice { min_depth: 3, width: 10, id: BlockId(5) },
        Slice { min_depth: 8, width: 10, id: BlockId(6) },
    ];
    assert_eq!(hit(&s, 2, 0), None, "too shallow for any");
    assert_eq!(hit(&s, 3, 9), Some(0));
    assert_eq!(hit(&s, 3, 10), None, "the second slice is deeper");
    assert_eq!(hit(&s, 8, 10), Some(1));
    assert_eq!(hit(&s, 8, 20), None);
    let t = ores();
    assert_eq!(t.yielded(Some(4), Some(2)), Some(BlockId(142)));
    assert_eq!(t.yielded(Some(2), Some(4)), Some(BlockId(142)));
    assert_eq!(t.yielded(Some(3), Some(3)), Some(BlockId(53)));
    assert_eq!(t.yielded(None, None), None);
    assert_eq!(t.ore_at(7, 1, 2, 3, 2), None, "no ore above the shallowest seam");
}

fn diffusion(seed: i64) -> DiffusionTerrain {
    DiffusionTerrain::new(mat(), seed)
}

fn diffusion_col(g: &DiffusionTerrain, wx: i32, wz: i32) -> Col {
    g.column(
        ground_of(wx, wz),
        (wx * 3 + wz).rem_euclid(29) == 0,
        wx.rem_euclid(40) < 4,
        wz.rem_euclid(40) < 6,
        (wx / 5 + wz / 5).rem_euclid(3) == 0,
    )
}

fn diffusion_cols(g: &DiffusionTerrain, cx: i32, cz: i32) -> [Col; CHUNK_COLUMNS] {
    std::array::from_fn(|k| {
        diffusion_col(g, cx * 16 + (k % 16) as i32, cz * 16 + (k / 16) as i32)
    })
}

#[test]
fn generate_matches_generate_column() {
    let g = diffusion(3);
    let cols = diffusion_cols(&g, 1, -2);
    let a = g.generate(1, 0, -2, &cols);
    let (b, _) = g.generate_column(1, -2, 0, 0, &cols);
    assert_eq!(a, b[0].1);
    let g = v1(3);
    let a = g.generate(1, 0, -2);
    let (b, _) = g.generate_column(1, -2, 0, 0);
    assert_eq!(a, b[0].1);
}

#[test]
fn diffusion_generate_column_heights_match_height() {
    let g = diffusion(7);
    for (cx, cz) in [(0, 0), (2, -3), (-1, 7), (4, 4)] {
        let cols = diffusion_cols(&g, cx, cz);
        let (_, heights) = g.generate_column(cx, cz, 0, 0, &cols);
        let (_, empty) = g.generate_column(cx, cz, 1, 0, &cols);
        for k in 0..CHUNK_COLUMNS {
            assert_eq!(heights[k], cols[k].height);
            assert_eq!(empty[k], heights[k]);
        }
    }
    assert_generate_column_heights_match_height(&v1(7), &[(0, 0), (2, -3), (-1, 7), (4, 4)]);
}

#[test]
fn diffusion_generate_agrees_with_per_cell_block_at() {
    let g = diffusion(5);
    for (cx, cy, cz) in [(0, 1, 0), (2, 0, -1), (0, 4, 0), (0, -2, 1)] {
        let cols = diffusion_cols(&g, cx, cz);
        let got = g.generate(cx, cy, cz, &cols);
        let mut cells = Box::new([AIR; CHUNK_VOLUME]);
        for lz in 0..CHUNK_SIZE {
            for lx in 0..CHUNK_SIZE {
                let (wx, wz) = (cx * 16 + lx as i32, cz * 16 + lz as i32);
                for ly in 0..CHUNK_SIZE {
                    cells[Chunk::index(lx, ly, lz)] =
                        g.cell(&diffusion_col(&g, wx, wz), wx, cy * 16 + ly as i32, wz);
                }
            }
        }
        assert_eq!(got, ChunkData::from_cells(cells), "chunk {cx},{cy},{cz}");
    }
}

#[test]
fn lod_and_near_flood_to_the_same_sea() {
    let g = diffusion(13);
    let sea = g.sea;
    assert_eq!(sea, 20);
    let mut ocean = 0;
    for z in -16..16 {
        for x in -16..16 {
            let c = Col { water: sea, ..diffusion_col(&g, x, z) };
            if c.height >= sea - 2 {
                continue;
            }
            ocean += 1;
            assert_ne!(g.cell(&c, x, sea - 1, z), AIR, "ocean column must flood to sea");
            assert_eq!(g.cell(&c, x, sea, z), AIR, "ocean column must stop flooding at sea");
            let lod_at = g.lod_block(c.height, sea);
            assert!(lod_at == AIR || lod_at == STONE);
            assert_ne!(g.lod_block(c.height, sea - 1), AIR, "far tiles fill below sea");
        }
    }
    assert!(ocean > 0);
}

#[test]
fn diffusion_lakes_stand_over_their_ground() {
    let g = diffusion(1);
    assert_eq!(g.column(30, true, false, false, false).water, 33);
    assert_eq!(g.column(5, true, false, false, false).water, 23);
    assert_eq!(g.column(30, false, false, false, false).water, 20);
    let c = g.column(90, false, false, false, true);
    assert_eq!(g.dress(&c), BlockId(13), "snow on high ground");
    assert!(!g.carved(&c, 89) && g.carved(&c, 60));
}

/// Channels that drift over the field.
fn field_of(cx: i32, cz: i32) -> [i32; FIELD_LEN] {
    let mut f = [0i32; FIELD_LEN];
    for k in 0..CHUNK_COLUMNS {
        let (wx, wz) = (cx * 16 + (k % 16) as i32, cz * 16 + (k / 16) as i32);
        f[k * CHANNELS + CH_ELEV] = (ground_of(wx, wz) - 20) * ONE + 1000;
        f[k * CHANNELS + CH_TEMP] = wx.rem_euclid(16) * 4096;
        f[k * CHANNELS + CH_HUMID] = wz.rem_euclid(16) * 4096;
        f[k * CHANNELS + CH_GEOL] = wx.wrapping_mul(wz).rem_euclid(5);
        f[k * CHANNELS + CH_WATER] = if (wx + wz).rem_euclid(13) == 0 { WATER_BASIN } else { 0 };
        f[k * CHANNELS + CH_CAVES] = 0;
    }
    f
}

fn assert_generate_column_heights_match_height(g: &impl TerrainGenerator, cols: &[(i32, i32)]) {
    for &(cx, cz) in cols {
        let (_, heights) = g.generate_column(cx, cz, 0, 0);
        let (_, empty) = g.generate_column(cx, cz, 1, 0);
        for lz in 0..CHUNK_SIZE {
            for lx in 0..CHUNK_SIZE {
                let i = lx + lz * CHUNK_SIZE;
                assert_eq!(
                    heights[i],
                    g.height(cx * 16 + lx as i32, cz * 16 + lz as i32),
                    "cx={cx} cz={cz} lx={lx} lz={lz}"
                );
                assert_eq!(empty[i], heights[i], "an empty run still reports height");
            }
        }
    }
}

/// The classic world over blobs of noise, with no hints.
fn classic(seed: i64) -> impl TerrainGenerator {
    ClassicGenerator::new(
        terrain(seed),
        |wx: i32, wz: i32| Profile {
            ground: ground_of(wx, wz),
            water_level: if (wx + wz).rem_euclid(31) == 0 { 27 } else { 20 },
            cold: wx.rem_euclid(40) < 4,
            arid: wz.rem_euclid(40) < 6,
        },
        noise,
        |_: i32, _: i32, _: i32| Hint { quiet: false, clear: false },
    )
}

/// The integer world over drifting channels.
fn v2(seed: i64) -> impl TerrainGenerator {
    V2Generator::new(
        DiffusionV2::new(mat(), seed),
        |wx: i32, wz: i32| {
            let k = (wx.rem_euclid(16) + wz.rem_euclid(16) * 16) as usize;
            let f = field_of(wx.div_euclid(16), wz.div_euclid(16));
            std::array::from_fn(|i| f[k * CHANNELS + i])
        },
        ground_of,
    )
}

/// The real-valued world over columns of its rules.
fn v1(seed: i64) -> impl TerrainGenerator {
    DiffusionGenerator::new(
        diffusion(seed),
        move |wx: i32, wz: i32| diffusion_col(&diffusion(seed), wx, wz),
        ground_of,
    )
}

#[test]
fn diffusion_v2_heights_16_matches_height() {
    let g = DiffusionV2::new(mat(), 11);
    for (cx, cz) in [(0, 0), (2, -3), (-1, 7)] {
        let field = field_of(cx, cz);
        let batch = g.heights_16(&field);
        for k in 0..CHUNK_COLUMNS {
            let (wx, wz) = (cx * 16 + (k % 16) as i32, cz * 16 + (k / 16) as i32);
            assert_eq!(batch[k], g.col_from_ch(&field, k * CHANNELS, wx, wz).height);
            assert_eq!(batch[k], ground_of(wx, wz));
        }
    }
    let g = v2(11);
    for (cx, cz) in [(0, 0), (2, -3), (-1, 7)] {
        let batch = g.heights_16(cx, cz);
        for lz in 0..CHUNK_SIZE {
            for lx in 0..CHUNK_SIZE {
                assert_eq!(
                    batch[lx + lz * CHUNK_SIZE],
                    g.height(cx * 16 + lx as i32, cz * 16 + lz as i32),
                    "cx={cx} cz={cz} lx={lx} lz={lz}"
                );
            }
        }
    }
}

#[test]
fn diffusion_v2_generate_column_heights_match_height() {
    let g = DiffusionV2::new(mat(), 7);
    for (cx, cz) in [(0, 0), (2, -3), (-1, 7), (4, 4)] {
        let field = field_of(cx, cz);
        let want = g.heights_16(&field);
        assert_eq!(g.generate_column(cx, cz, 0, 0, &field).1, want);
        assert_eq!(g.generate_column(cx, cz, 1, 0, &field).1, want);
    }
    assert_generate_column_heights_match_height(&v2(7), &[(0, 0), (2, -3), (-1, 7), (4, 4)]);
}

#[test]
fn diffusion_v2_generate_agrees_with_per_cell_block_at() {
    let g = DiffusionV2::new(mat(), 5);
    for (cx, cy, cz) in [(0, 1, 0), (2, 0, -1), (0, 4, 0), (0, -2, 1)] {
        let field = field_of(cx, cz);
        let got = g.generate(cx, cy, cz, &field);
        let mut cells = Box::new([AIR; CHUNK_VOLUME]);
        for lz in 0..CHUNK_SIZE {
            for lx in 0..CHUNK_SIZE {
                let (wx, wz) = (cx * 16 + lx as i32, cz * 16 + lz as i32);
                let c = g.col_from_ch(&field, (lx + lz * 16) * CHANNELS, wx, wz);
                for ly in 0..CHUNK_SIZE {
                    cells[Chunk::index(lx, ly, lz)] = g.cell(&c, wx, cy * 16 + ly as i32, wz);
                }
            }
        }
        assert_eq!(got, ChunkData::from_cells(cells), "chunk {cx},{cy},{cz}");
    }
}

#[test]
fn lod_uses_the_same_sea() {
    let g = v2(13);
    assert_eq!(g.sea_level(), SEA);
    let ys = [SEA - 1, SEA, SEA + 1];
    let mut out = [AIR; 3];
    g.lod_column(0, 0, &ys, &mut out);
    assert_ne!(out[0], AIR, "LOD fills below sea");
    assert!(out[1] == AIR || out[1] == g.deep());
    let rules = DiffusionV2::new(mat(), 13);
    assert_ne!(rules.lod_block(15, SEA - 1), AIR, "far tiles fill below sea");
    assert_eq!(rules.lod_block(15, SEA), AIR);
}

#[test]
fn cos_table_quadrants() {
    assert_eq!(cos_k(0), ONE);
    assert!(cos_k(64).abs() < ONE / 20, "a quarter turn got {}", cos_k(64));
    assert_eq!(cos_k(128), -ONE);
    assert!(cos_k(192).abs() < ONE / 20, "three quarters got {}", cos_k(192));
    assert_eq!(cos_lat(0), cos_k(0));
    let c = cos_lat(4096);
    assert!(c.abs() < ONE / 10, "a quarter of the latitude turn got {c}");
    assert_eq!(cos_lat(16384 + 77), cos_lat(77), "latitude repeats");
    assert_eq!(sin_bhaskara_q16(90), ONE);
    assert_eq!(sin_bhaskara_q16(30), 32768);
}

#[test]
fn far_coords_are_finite_and_stable() {
    for (x, z) in [
        (1_000_000_000, 0),
        (-1_000_000_000, 1_000_000_000),
        (1_000_000_000, -1_000_000_000),
        (i32::MAX - 40, -1_000_000_000),
    ] {
        let (a, b) = (DiffusionV2::new(mat(), 3), DiffusionV2::new(mat(), 3));
        let field = field_of(0, 0);
        let (ca, cb) = (a.col_from_ch(&field, 0, x, z), b.col_from_ch(&field, 0, x, z));
        assert_eq!(ca.height, cb.height, "at {x},{z}");
        assert_eq!(a.cell(&ca, x, ca.height - 1, z), b.cell(&cb, x, cb.height - 1, z));
        let (a, b) = (v2(3), v2(3));
        let (ha, hb) = (a.height(x, z), b.height(x, z));
        assert_eq!(ha, hb, "at {x},{z}");
        assert_eq!(a.block_at(x, ha - 1, z, ha), b.block_at(x, hb - 1, z, hb));
    }
}

#[test]
fn plates_and_climate_have_their_shape() {
    let s = V2Score { relief: ONE };
    let inland = PlateNoise {
        near: 200 * 200,
        second: 3000 * 3000,
        plate: 0,
        hardness: 0,
        continent: 3 * ONE / 4,
        ridge: 0,
        vent: i32::MAX,
        humid: HALF,
    };
    let land = s.plates(&inland);
    let ocean = s.plates(&PlateNoise { continent: -ONE, ..inland });
    assert!(land[CH_ELEV] > ocean[CH_ELEV], "continents stand over oceans");
    let low = Surroundings { elev: [[0; 5]; 5], cont: ONE, humid: HALF, humid_west: HALF, geol: 0 };
    let high = Surroundings { elev: [[200 * ONE; 5]; 5], ..low };
    let a = s.climate(&low, 0);
    let b = s.climate(&high, 0);
    assert!(b[CH_TEMP] < a[CH_TEMP], "temperature falls with elevation");
    let mut lee = low;
    for row in 0..5 {
        lee.elev[row][0] = 400 * ONE;
    }
    assert!(s.climate(&lee, 0)[CH_HUMID] <= a[CH_HUMID], "the lee side is no wetter");
    for v in [a[CH_TEMP], a[CH_HUMID], b[CH_TEMP], b[CH_HUMID]] {
        assert!((0..=ONE).contains(&v));
    }
    let prev = [1, 2, 3, 4, 5, 6, 7, 8];
    assert_eq!(s.all(0, &inland, &low, &prev, 0), land);
    assert_eq!(s.all(1, &inland, &low, &prev, 0), a);
    assert_eq!(s.all(2, &inland, &low, &prev, 0), prev);
    assert_eq!(s.predict(1, 1, &inland, &low, &prev, 0, 99), a[1]);
    assert_eq!(s.predict(8, 1, &inland, &low, &prev, 0, 99), 99);
    assert_eq!(elev_spline(0), -40 * ONE);
    assert_eq!(elev_spline(65536), 45 * ONE);
    assert_eq!(scale_300(0), ONE);
    assert_eq!(scale_300(300), HALF);
    assert_eq!(relief_q16(150), ONE + HALF);
    assert_eq!(relief_q16(77), ONE);
    assert!(is_basin(WATER_BASIN) && !is_basin(0));
    assert!((0..64u32).any(is_volcanic));
}

#[test]
fn biomes_dress_their_columns() {
    let g = DiffusionV2::new(mat(), 4);
    assert_eq!(g.dress_of(Biome::Alpine, 90), (STONE, STONE, None));
    assert_eq!(g.dress_of(Biome::Badlands, 13), (BlockId(14), BlockId(24), Some(SurfaceKind::Desert)));
    assert_eq!(g.dress_of(Biome::Badlands, 18), (BlockId(24), BlockId(24), None), "banded by height");
    assert_eq!(g.dress_of(Biome::Savanna, 30).1, BlockId(20));
    assert_eq!(classify(HALF, HALF, ONE, 0, false, 0, 21, 0, 4), Biome::Coast);
    let calm = (0..64).find(|g| !is_volcanic(*g as u32)).unwrap();
    assert_eq!(classify(HALF, HALF, 50 * ONE, calm, false, 0, 70, 0, 4), Biome::Alpine);
    assert_eq!(classify(HALF, HALF, 50 * ONE, 0, false, 0, 70, 0, 4), Biome::Volcanic);
}

fn r32(v: f32) -> Real32 {
    Real32 { bits: v.to_bits() }
}

fn factor(r: Relief) -> f32 {
    f32::from_bits(r.number().bits)
}

/// Reads knobs from text, the relief among them.
fn knobs(text: &str) -> DiffusionCfg {
    let (mut cfg, reliefs) = DiffusionCfg::from_text(text);
    for word in reliefs {
        if let Ok(v) = word.parse::<f32>() {
            cfg = cfg.with_relief(r32(v));
        }
    }
    cfg
}

#[test]
fn from_text_round_trips_to_text() {
    let cfg = DiffusionCfg {
        tile: 64,
        stride: 16,
        phases: 4,
        relief: Relief::OneAndHalf,
        version: 1,
    }
    .clamp();
    assert_eq!(knobs(&cfg.to_text()), cfg);
    let (_, reliefs) = DiffusionCfg::from_text(&cfg.to_text());
    assert_eq!(reliefs, vec![cfg.relief.text().to_string()], "the relief is handed on as text");
    assert_eq!(knobs(""), DiffusionCfg::default());
    assert_eq!(knobs("tile=64").tile, 64, "partial overlay on defaults");
    let v2 = DiffusionCfg { version: 2, ..DiffusionCfg::default() }.clamp();
    assert_eq!(knobs(&v2.to_text()), v2);
    assert_eq!(knobs("version=2").version, 2);
    assert_eq!(knobs("").version, 1);
}

#[test]
fn clamp_applies_tile_before_stride_so_stride_cannot_exceed_tile() {
    let cfg = DiffusionCfg { tile: 100, stride: 80, phases: 1, version: 1, ..DiffusionCfg::default() }
        .with_relief(r32(9.0))
        .clamp();
    assert_eq!(cfg.tile, 64);
    assert!(cfg.stride <= cfg.tile, "stride={} tile={}", cfg.stride, cfg.tile);
    assert_eq!(cfg.stride, 64);
    assert_eq!(cfg.phases, 2);
    assert_eq!(factor(cfg.relief), 4.0);
}

#[test]
fn clamp_snaps_to_values_the_knob_stepper_can_display() {
    let cfg = DiffusionCfg { tile: 48, stride: 12, phases: 1, version: 1, ..DiffusionCfg::default() }
        .with_relief(r32(0.25))
        .clamp();
    assert!(TILES.contains(&cfg.tile), "tile {} not in {:?}", cfg.tile, TILES);
    assert_eq!(cfg.stride % STRIDE_STEP, 0);
    assert!(cfg.stride >= MIN_STRIDE && cfg.stride <= cfg.tile);
    assert!((PHASES_MIN..=PHASES_MAX).contains(&cfg.phases));
    assert!(
        RELIEFS.iter().any(|v| (factor(*v) - factor(cfg.relief)).abs() < f32::EPSILON),
        "relief {} not in {:?}",
        factor(cfg.relief),
        RELIEFS
    );
    assert_eq!(cfg.relief, Relief::Half, "the nearest step");
}

#[test]
fn default_matches_spec_new_and_is_stepper_reachable() {
    let cfg = DiffusionCfg::default();
    assert_eq!((cfg.tile, cfg.stride, cfg.phases), (32, 16, 2));
    assert!(TILES.contains(&cfg.tile));
    assert_eq!(cfg.stride % STRIDE_STEP, 0);
    assert!((PHASES_MIN..=PHASES_MAX).contains(&cfg.phases));
    assert!(RELIEFS.iter().any(|v| (factor(*v) - factor(cfg.relief)).abs() < f32::EPSILON));
    assert_eq!(cfg.clamp(), cfg);
}

#[test]
fn a_relief_snaps_to_the_step_at_the_least_distance() {
    let by_distance = |v: f32| {
        RELIEFS
            .iter()
            .copied()
            .min_by(|a, b| (factor(*a) - v).abs().total_cmp(&(factor(*b) - v).abs()))
            .unwrap()
    };
    let mut bits: u32 = 0;
    while bits < 0x7F80_0000 {
        for near in 0..3 {
            let v = f32::from_bits(bits + near);
            assert_eq!(Relief::nearest(r32(v)), by_distance(v), "{v}");
            assert_eq!(Relief::nearest(r32(-v)), by_distance(-v), "{}", -v);
        }
        bits += 40_961;
    }
    for v in [0.75f32, 1.25, 1.75, 3.0, 33554432.0, 67108864.0, 134217728.0] {
        for step in 0..5 {
            let v = f32::from_bits(v.to_bits() + step - 2);
            assert_eq!(Relief::nearest(r32(v)), by_distance(v), "{v}");
        }
    }
    assert_eq!(Relief::nearest(r32(f32::INFINITY)), by_distance(f32::INFINITY));
    assert_eq!(Relief::nearest(r32(f32::NAN)), Relief::Half);
    for r in RELIEFS {
        assert_eq!(Relief::nearest(r.number()), r);
        assert_eq!(factor(r), r.hundredths() as f32 / 100.0);
    }
}

#[test]
fn diffusion_kind_is_distinct() {
    assert_eq!(v1(1).kind(), "diffusion");
    assert_eq!(v2(1).kind(), "diffusion");
    assert_eq!(WorldgenKind::Diffusion.id(), "diffusion");
    assert_eq!(WorldgenKind::from_id("classic"), Some(WorldgenKind::Classic));
    assert_eq!(WorldgenKind::from_id("flat"), None);
    assert_eq!(WorldgenKind::from_wire(1), Some(WorldgenKind::Diffusion));
    assert_eq!(WorldgenKind::from_wire(2), None);
    assert_eq!(WorldgenKind::default().wire(), 0);
}

#[test]
fn fixed_point_arithmetic() {
    assert_eq!(mul_q16(3 * ONE, HALF), ONE + HALF);
    assert_eq!(lerp_q16(0, ONE, HALF), HALF);
    assert_eq!(clamp_q16(-4, 0, ONE), 0);
    assert_eq!(clamp_q16(2 * ONE, 0, ONE), ONE);
    assert_eq!(smoothstep_q16(HALF), HALF);
    assert_eq!(smoothstep_q16(-7), 0);
    assert_eq!(q16_round(ONE + HALF), 2);
    assert_eq!(div_toward_zero(-7, 2), -3);
    assert_eq!(norm01(ONE, ONE), ONE);
}

#[test]
fn hashes_differ_by_stream_and_cell() {
    assert_eq!(cell_hash(42, 1, 2, 3), cell_hash(42, 1, 2, 3));
    assert_ne!(cell_hash(42, 1, 2, 3), cell_hash(42, 2, 1, 3));
    assert_ne!(Seed(7).stream(1).octave(0), Seed(7).stream(2).octave(0));
    assert!(lattice(9, -4, 5, 6) < 1 << 24);
    assert_ne!(lattice(9, -4, 5, 6), lattice(9, -4, 6, 6));
    assert!(plane_lattice(9, -4, 6) < 1 << 24);
    assert!(phase_cell(0, 0, 2) >= 1);
}

/// A generator's chunks, heights and far tiles against its cells.
fn assert_generator_agrees<G: TerrainGenerator>(g: &G) {
    for (cx, cz) in [(0, 0), (2, -3)] {
        let (chunks, heights) = g.generate_column(cx, cz, -2, 2);
        assert_eq!(heights, g.heights_16(cx, cz));
        assert_eq!(chunks.len(), 5);
        for (cy, data) in chunks {
            assert_eq!(data, g.generate(cx, cy, cz));
            let chunk = Chunk::new(cx, cy, cz, g);
            for i in (0..CHUNK_VOLUME).step_by(7) {
                let (lx, ly, lz) = Chunk::local_of(i);
                let (wx, wy, wz) =
                    (cx * 16 + lx as i32, cy * 16 + ly as i32, cz * 16 + lz as i32);
                assert_eq!(heights[lx + lz * 16], g.height(wx, wz));
                assert_eq!(chunk.get_index(i), g.block_at(wx, wy, wz, g.height(wx, wz)));
            }
        }
    }
    let ys = [-30, 0, 19, 20, 50];
    let mut out = [AIR; 5];
    g.lod_column(3, 4, &ys, &mut out);
    for k in 0..5 {
        assert_eq!(out[k], g.lod_block_at(3, ys[k], 4));
    }
}

#[test]
fn generators_answer_alike_by_cell_and_by_column() {
    let classic = ClassicGenerator::new(
        terrain(3),
        |wx: i32, wz: i32| Profile {
            ground: ground_of(wx, wz),
            water_level: if (wx + wz).rem_euclid(31) == 0 { 27 } else { 20 },
            cold: wx.rem_euclid(40) < 4,
            arid: wz.rem_euclid(40) < 6,
        },
        noise,
        |_: i32, _: i32, _: i32| Hint { quiet: false, clear: false },
    );
    assert_generator_agrees(&classic);
    assert_eq!((classic.seed(), classic.sea_level(), classic.kind()), (3, 20, "classic"));
    assert_eq!(classic.surface_at(5, 6), column_of(&terrain(3), 5, 6).dress);

    let v1 = DiffusionGenerator::new(
        diffusion(5),
        |wx: i32, wz: i32| diffusion_col(&diffusion(5), wx, wz),
        ground_of,
    );
    assert_generator_agrees(&v1);
    assert_eq!((v1.seed(), v1.kind()), (5, "diffusion"));
    assert_eq!(v1.deep(), STONE);

    let v2 = V2Generator::new(
        DiffusionV2::new(mat(), 9),
        |wx: i32, wz: i32| {
            let mut ch = [0i32; CHANNELS];
            ch[CH_ELEV] = (ground_of(wx, wz) - 20) * ONE;
            ch[CH_TEMP] = HALF;
            ch[CH_HUMID] = wz.rem_euclid(16) * 4096;
            ch
        },
        ground_of,
    );
    assert_generator_agrees(&v2);
    assert_eq!(v2.height(7, 8), ground_of(7, 8));
    assert_eq!((v2.seed(), v2.sea_level(), v2.kind()), (9, 20, "diffusion"));
}

#[test]
fn quiet_hints_change_no_cell() {
    let still = |_: Probe, _: i32, _: i32, _: i32, _: i32| false;
    let profile = |wx: i32, wz: i32| Profile {
        ground: ground_of(wx, wz),
        water_level: 20,
        cold: false,
        arid: false,
    };
    let told = ClassicGenerator::new(terrain(3), profile, still, |_: i32, _: i32, _: i32| Hint {
        quiet: true,
        clear: true,
    });
    let untold = ClassicGenerator::new(terrain(3), profile, still, |_: i32, _: i32, _: i32| Hint {
        quiet: false,
        clear: false,
    });
    for cy in [-20, -2, 0, 1, 9] {
        let (a, b) = (Chunk::new(1, cy, 2, &told), Chunk::new(1, cy, 2, &untold));
        for i in 0..CHUNK_VOLUME {
            assert_eq!(a.get_index(i), b.get_index(i));
        }
    }
    assert_eq!(told.generate(1, -20, 2), ChunkData::Uniform(STONE));
}

#[test]
fn the_plate_pass_asks_for_its_fields() {
    let a = plate_asks(7, 100, -200);
    let at = |cell: i32, salt: u32| NoiseAsk { seed: 7, x: 100, z: -200, cell, salt };
    assert_eq!(a.plate, at(3000, 0x51A7_E01D));
    assert_eq!(a.warp, at(2048, 0xC0DE_A11A));
    assert_eq!(a.belt, at(512, 0xBE17_0001));
    assert_eq!(a.vent, at(1500, 0xB0C1_A001));
    assert_eq!(a.humid, at(2048, 0xA11D_0002));
    assert_eq!(WARP_AMP, 256 * ONE);
    let shifted = continent_ask(7, 100, -200, 3 * ONE + 1, -1);
    assert_eq!(shifted, NoiseAsk { seed: 7, x: 103, z: -201, cell: 2048, salt: 0xC0A1_7E11 });
}

#[test]
fn the_climate_pass_reads_two_columns_around() {
    let st = read_surroundings(|ch: usize, dx: i32, dz: i32| ch as i32 * 1000 + dz * 10 + dx);
    for row in 0..5i32 {
        for col in 0..5i32 {
            let want = CH_ELEV as i32 * 1000 + (row - 2) * 10 + col - 2;
            assert_eq!(st.elev[row as usize][col as usize], want);
        }
    }
    assert_eq!(st.cont, CH_TEMP as i32 * 1000);
    assert_eq!(st.humid, CH_HUMID as i32 * 1000);
    assert_eq!(st.humid_west, CH_HUMID as i32 * 1000 - 2);
    assert_eq!(st.geol, CH_GEOL as i32 * 1000);
}
