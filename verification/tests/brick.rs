use voxel_world::block::{BlockId, BlockState};
use voxel_world::hash::splitmix_next;
use voxel_world::world::brick::{
    cell_index, BrickPayload, PackStrategy, BRICK_DIM, BRICK_VOLUME, PALETTE_MAX,
};

fn bs(id: u16) -> BlockState {
    BlockState { id: BlockId(id), state: 0 }
}

fn roundtrips(cells: &[BlockState; BRICK_VOLUME], strategy: PackStrategy) {
    let payload = BrickPayload::from_cells(cells, strategy);
    assert_eq!(*payload.cells(), *cells, "identity under {:?}", strategy);
}

fn seeded(seed: u64) -> [BlockState; BRICK_VOLUME] {
    let mut state = seed;
    std::array::from_fn(|_| bs((splitmix_next(&mut state) % 6) as u16))
}

#[test]
fn roundtrip_air_uniform() {
    let cells = [bs(0); BRICK_VOLUME];
    roundtrips(&cells, PackStrategy::Paletted);
    roundtrips(&cells, PackStrategy::Rle);
    assert_eq!(BrickPayload::from_cells(&cells, PackStrategy::Rle), BrickPayload::Uniform(bs(0)));
}

#[test]
fn roundtrip_full_uniform_nonair() {
    let cells = [bs(42); BRICK_VOLUME];
    roundtrips(&cells, PackStrategy::Paletted);
    roundtrips(&cells, PackStrategy::Rle);
    assert_eq!(BrickPayload::from_cells(&cells, PackStrategy::Rle), BrickPayload::Uniform(bs(42)));
}

#[test]
fn roundtrip_single_run_columns() {
    let mut cells = [bs(0); BRICK_VOLUME];
    for z in 0..BRICK_DIM {
        for x in 0..BRICK_DIM {
            let v = bs(((x + z) % 3) as u16);
            for y in 0..BRICK_DIM {
                cells[cell_index(x, y, z)] = v;
            }
        }
    }
    roundtrips(&cells, PackStrategy::Rle);
    let columns = match BrickPayload::from_cells(&cells, PackStrategy::Rle) {
        BrickPayload::Rle { columns, .. } => columns,
        _ => panic!("expected Rle"),
    };
    for z in 0..BRICK_DIM {
        for x in 0..BRICK_DIM {
            assert_eq!(columns.runs_for_column(x, z).len(), 1, "column ({},{})", x, z);
        }
    }
}

#[test]
fn roundtrip_worst_case_alternating_16_run_columns() {
    let mut cells = [bs(0); BRICK_VOLUME];
    for z in 0..BRICK_DIM {
        for x in 0..BRICK_DIM {
            for y in 0..BRICK_DIM {
                cells[cell_index(x, y, z)] = bs((y % 2) as u16);
            }
        }
    }
    roundtrips(&cells, PackStrategy::Rle);
    let columns = match BrickPayload::from_cells(&cells, PackStrategy::Rle) {
        BrickPayload::Rle { columns, .. } => columns,
        _ => panic!("expected Rle"),
    };
    for z in 0..BRICK_DIM {
        for x in 0..BRICK_DIM {
            let runs = columns.runs_for_column(x, z);
            assert_eq!(runs.len(), 16, "alternating column ({},{})", x, z);
            assert!(runs.iter().all(|r| r.count() == 1));
        }
    }
}

#[test]
fn roundtrip_exactly_256_distinct_palette_stays_paletted_or_rle() {
    let mut cells = [bs(0); BRICK_VOLUME];
    for (i, cell) in cells.iter_mut().enumerate() {
        *cell = bs((i % PALETTE_MAX) as u16);
    }
    roundtrips(&cells, PackStrategy::Paletted);
    roundtrips(&cells, PackStrategy::Rle);
    assert!(!matches!(
        BrickPayload::from_cells(&cells, PackStrategy::Paletted),
        BrickPayload::Dense(_)
    ));
    assert!(!matches!(BrickPayload::from_cells(&cells, PackStrategy::Rle), BrickPayload::Dense(_)));
}

#[test]
fn roundtrip_257_distinct_palette_promotes_to_dense() {
    let mut cells = [bs(0); BRICK_VOLUME];
    for (i, cell) in cells.iter_mut().enumerate() {
        *cell = bs((i % (PALETTE_MAX + 1)) as u16);
    }
    roundtrips(&cells, PackStrategy::Paletted);
    roundtrips(&cells, PackStrategy::Rle);
    assert!(matches!(BrickPayload::from_cells(&cells, PackStrategy::Rle), BrickPayload::Dense(_)));
}

#[test]
fn canonical_uniqueness_equal_cells_produce_structurally_equal_payloads() {
    let cells = seeded(12345);
    let a = BrickPayload::from_cells(&cells, PackStrategy::Rle);
    let b = BrickPayload::from_cells(&cells, PackStrategy::Rle);
    assert_eq!(a, b);
    let a = BrickPayload::from_cells(&cells, PackStrategy::Paletted);
    let b = BrickPayload::from_cells(&cells, PackStrategy::Paletted);
    assert_eq!(a, b);
}

#[test]
fn canonical_uniqueness_uniform_paletted_boundary() {
    let uniform = [bs(7); BRICK_VOLUME];
    assert_eq!(BrickPayload::from_cells(&uniform, PackStrategy::Rle), BrickPayload::Uniform(bs(7)));
    let mut almost = uniform;
    almost[BRICK_VOLUME - 1] = bs(8);
    assert_ne!(BrickPayload::from_cells(&almost, PackStrategy::Rle), BrickPayload::Uniform(bs(7)));
    roundtrips(&almost, PackStrategy::Rle);
}

#[test]
fn canonical_uniqueness_paletted_dense_boundary() {
    let mut at_cap = [bs(0); BRICK_VOLUME];
    let mut over_cap = [bs(0); BRICK_VOLUME];
    for i in 0..BRICK_VOLUME {
        at_cap[i] = bs((i % PALETTE_MAX) as u16);
        over_cap[i] = bs((i % (PALETTE_MAX + 1)) as u16);
    }
    assert!(!matches!(BrickPayload::from_cells(&at_cap, PackStrategy::Rle), BrickPayload::Dense(_)));
    assert!(matches!(BrickPayload::from_cells(&over_cap, PackStrategy::Rle), BrickPayload::Dense(_)));
}

#[test]
fn roundtrip_mixed_random_seeded_grids() {
    for seed in [1u64, 2, 3, 42, 999] {
        let cells = seeded(seed);
        roundtrips(&cells, PackStrategy::Paletted);
        roundtrips(&cells, PackStrategy::Rle);
    }
}
