use voxel_world::block::{BlockId, HotTables, Pass};
use voxel_world::coord::Face;
use voxel_world::world::chunk::{Chunk, CHUNK_SIZE, CHUNK_VOLUME};
use voxel_world::world::light::{
    border_changed, face_index, CeilingWindow, FaceShell, LightGrid, LightLevel, Lumel,
};
use voxel_world::world::mesh::sample::{Padded, PaddedLight};
use voxel_world::world::mesh::sweep::{build_chunk_mesh, new_chunk_mesh_data};
use voxel_world::world::propagate::propagate;

const CS: i32 = CHUNK_SIZE as i32;

/// Air, stone, a clear lamp and an opaque lamp; both lamps shine at 15.
fn tables() -> HotTables {
    HotTables::from_parts(
        vec![false, true, true, true],
        vec![false, true, false, true],
        vec![false, false, false, false],
        vec![Pass::Opaque, Pass::Opaque, Pass::Blend, Pass::Opaque],
        vec![0, 0, 15, 15],
    )
}

fn lit(chunk: &Chunk) -> LightGrid {
    let mut grid = LightGrid::dark();
    propagate(chunk, &FaceShell::dark(), &CeilingWindow::open(), 0, &tables(), &mut grid);
    grid
}

fn axis(face: Face) -> usize {
    match face {
        Face::NegX | Face::PosX => 0,
        Face::NegY | Face::PosY => 1,
        Face::NegZ | Face::PosZ => 2,
    }
}

fn plane_axes(face: Face) -> (usize, usize) {
    match axis(face) {
        0 => (1, 2),
        1 => (0, 2),
        _ => (0, 1),
    }
}

fn lumel(sky: u8, block: u8) -> Lumel {
    Lumel { sky: LightLevel::new(sky), block: LightLevel::new(block) }
}

#[test]
fn levels_saturate_and_fade() {
    assert_eq!(LightLevel::new(200), LightLevel::full());
    assert_eq!(LightLevel::full().attenuated().get(), 14);
    assert_eq!(LightLevel::dark().attenuated().get(), 0);
    assert_eq!(LightLevel::new(3).brighter(LightLevel::new(9)).get(), 9);
}

#[test]
fn face_index_table_matches_axis_walk() {
    for face in Face::all() {
        let na = axis(face);
        let (au, av) = plane_axes(face);
        let inner = match face {
            Face::PosX | Face::PosY | Face::PosZ => CHUNK_SIZE - 1,
            _ => 0,
        };
        for b in 0..CHUNK_SIZE {
            for a in 0..CHUNK_SIZE {
                let mut ci = [0usize; 3];
                ci[na] = inner;
                ci[au] = a;
                ci[av] = b;
                assert_eq!(
                    face_index(face, a + b * CHUNK_SIZE),
                    Chunk::index(ci[0], ci[1], ci[2]),
                    "{face:?} slot ({a},{b})"
                );
            }
        }
    }
}

#[test]
fn min_surface_is_the_all_open_y() {
    let c = CeilingWindow::from_heights(|lx, lz| 10 + (lx + lz) as i32);
    assert_eq!(c.min_surface(), 10 + 2 * (CHUNK_SIZE as i32 - 1));
    let y0 = c.min_surface();
    assert!(
        (0..CHUNK_SIZE).all(|lz| (0..CHUNK_SIZE).all(|lx| c.open_above(lx, lz, y0))),
        "y0 >= min_surface: every column is open"
    );
    assert!(
        !(0..CHUNK_SIZE).all(|lz| (0..CHUNK_SIZE).all(|lx| c.open_above(lx, lz, y0 - 1))),
        "one below min_surface is not all-open"
    );
    let mut raised = CeilingWindow::from_heights(|_, _| 10);
    assert_eq!(raised.min_surface(), 10);
    raised.raise(0, 0, 40);
    assert_eq!(raised.min_surface(), 40);
    raised.raise(1, 1, 20);
    assert_eq!(raised.min_surface(), 40, "a lower raise must not drop the all-open Y");
}

#[test]
fn border_blocklight_ignores_interior_and_level_one() {
    assert!(!LightGrid::dark().has_border_blocklight());
    assert!(!LightGrid::open_sky().has_border_blocklight());
    assert!(LightGrid::full().has_border_blocklight());
    let mut g = LightGrid::dark();
    g.set(Chunk::index(0, 8, 8), lumel(0, 15));
    assert!(g.has_border_blocklight());
    let mut g = LightGrid::dark();
    g.set(Chunk::index(8, 8, 8), lumel(0, 15));
    assert!(!g.has_border_blocklight(), "interior-only blocklight cannot seed a neighbour");
    let mut g = LightGrid::dark();
    g.set(Chunk::index(0, 8, 8), lumel(0, 1));
    assert!(!g.has_border_blocklight(), "level 1 attenuates to 0 crossing the border");
}

#[test]
fn analytic_grids_match_propagate() {
    let tables = tables();
    let opaque = Chunk::from_uniform(0, -10, 0, BlockId(1));
    let mut got = LightGrid::dark();
    propagate(
        &opaque,
        &FaceShell::dark(),
        &CeilingWindow::from_heights(|_, _| 100),
        -160,
        &tables,
        &mut got,
    );
    assert!(got.same_light(&LightGrid::dark()), "uniform opaque is dark");
    assert!(got.is_uniform());
    assert_eq!(got.at(0), Lumel::dark());
    let emissive = Chunk::from_uniform(0, -10, 0, BlockId(3));
    assert!(!emissive.is_uniform_opaque(&tables));
    let mut got = LightGrid::dark();
    propagate(
        &emissive,
        &FaceShell::dark(),
        &CeilingWindow::from_heights(|_, _| 100),
        -160,
        &tables,
        &mut got,
    );
    assert_eq!(got.at(Chunk::index(8, 8, 8)).block, LightLevel::full());
    let air = Chunk::from_uniform(0, 10, 0, BlockId(0));
    let mut got = LightGrid::dark();
    propagate(&air, &FaceShell::dark(), &CeilingWindow::open(), 160, &tables, &mut got);
    assert!(got.same_light(&LightGrid::open_sky()), "open air is open sky");
    assert!(got.is_uniform());
    assert_eq!(got.at(0), lumel(15, 0));
}

#[test]
fn open_column_lit_to_floor_and_sealed_layer_shadows_below() {
    let mut cells = [BlockId(0); CHUNK_VOLUME];
    for z in 0..16 {
        for x in 0..16 {
            cells[Chunk::index(x, 5, z)] = BlockId(1);
        }
    }
    let chunk = Chunk::from_cells(0, 0, 0, Box::new(cells));
    let grid = lit(&chunk);
    assert_eq!(grid.at(Chunk::index(4, 15, 4)).sky, LightLevel::full(), "top lit");
    assert_eq!(grid.at(Chunk::index(4, 6, 4)).sky, LightLevel::full(), "just above the layer lit");
    assert_eq!(grid.at(Chunk::index(4, 4, 4)).sky, LightLevel::dark(), "sealed below the layer");
    assert_eq!(grid.at(Chunk::index(0, 0, 0)).sky, LightLevel::dark(), "floor sealed dark");
}

#[test]
fn a_raised_ceiling_and_a_roof_above_shadow_the_chunk_below() {
    let mut ceiling = CeilingWindow::from_heights(|_, _| 10);
    for z in 0..CHUNK_SIZE {
        for x in 0..CHUNK_SIZE {
            ceiling.raise(x, z, 401);
        }
    }
    let mut cells = [BlockId(0); CHUNK_VOLUME];
    for z in 0..CHUNK_SIZE {
        for x in 0..CHUNK_SIZE {
            cells[Chunk::index(x, 0, z)] = BlockId(1);
        }
    }
    let roof = Chunk::from_cells(0, 25, 0, Box::new(cells));
    let mut roof_light = LightGrid::dark();
    propagate(&roof, &FaceShell::dark(), &ceiling, 400, &tables(), &mut roof_light);
    assert_eq!(roof_light.at(Chunk::index(8, 0, 8)).sky, LightLevel::dark());
    let shell = FaceShell::capture(|face| if face == Face::PosY { Some(&roof_light) } else { None });
    let lower = Chunk::from_uniform(0, 24, 0, BlockId(0));
    let mut lower_light = LightGrid::dark();
    propagate(&lower, &shell, &ceiling, 384, &tables(), &mut lower_light);
    assert_eq!(lower_light.at(Chunk::index(8, 15, 8)).sky, LightLevel::dark());
}

#[test]
fn cave_in_a_deep_chunk_is_dark() {
    let chunk = Chunk::from_cells(0, -8, 0, Box::new([BlockId(0); CHUNK_VOLUME]));
    let ceiling = CeilingWindow::from_heights(|_, _| 40);
    let mut grid = LightGrid::dark();
    propagate(&chunk, &FaceShell::dark(), &ceiling, -128, &tables(), &mut grid);
    assert_eq!(grid.at(Chunk::index(4, 8, 4)).sky, LightLevel::dark(), "cavern dark");
    assert_eq!(grid.at(Chunk::index(0, 0, 0)).sky, LightLevel::dark(), "cavern floor dark");
    assert!(grid.is_uniform(), "all-dark air collapses to one value");
    assert!(grid.same_light(&LightGrid::dark()));
}

#[test]
fn blocklight_falls_off_by_one_per_step() {
    let mut chunk = Chunk::from_cells(0, 0, 0, Box::new([BlockId(0); CHUNK_VOLUME]));
    chunk.set_local(8, 8, 8, BlockId(2));
    let ceiling = CeilingWindow::from_heights(|_, _| 100);
    let mut grid = LightGrid::dark();
    propagate(&chunk, &FaceShell::dark(), &ceiling, 0, &tables(), &mut grid);
    assert_eq!(grid.at(Chunk::index(8, 8, 8)).block.get(), 15, "the emitter");
    assert_eq!(grid.at(Chunk::index(9, 8, 8)).block.get(), 14, "one step");
    assert_eq!(grid.at(Chunk::index(11, 8, 8)).block.get(), 12, "three steps");
}

/// FNV-1a over bytes.
fn fnv1a_32(bytes: &[u8]) -> u32 {
    bytes.iter().fold(0x811c_9dc5u32, |h, b| (h ^ *b as u32).wrapping_mul(0x0100_0193))
}

fn grid_hash(grid: &LightGrid) -> u32 {
    let mut bytes = [0u8; CHUNK_VOLUME * 2];
    for i in 0..CHUNK_VOLUME {
        let l = grid.at(i);
        bytes[i * 2] = l.sky.get();
        bytes[i * 2 + 1] = l.block.get();
    }
    fnv1a_32(&bytes)
}

/// The pin of a chunk that no terrain fills.
#[test]
fn light_byte_pin() {
    let air = Chunk::from_uniform(0, 2, 0, BlockId(0));
    let partial = CeilingWindow::from_heights(|lx, lz| {
        if (lx + lz) % 2 == 0 { 100 } else { i32::MIN }
    });
    let mut nbr = LightGrid::dark();
    for i in 0..CHUNK_VOLUME {
        let (x, y, z) = Chunk::local_of(i);
        nbr.set(i, lumel(((x + y) % 16) as u8, ((z * 3) % 16) as u8));
    }
    let shell = FaceShell::capture(|_| Some(&nbr));
    let mut grid = LightGrid::dark();
    propagate(&air, &shell, &partial, 2 * CS, &tables(), &mut grid);
    assert_eq!(grid_hash(&grid), 0x19839265, "air");
}

#[test]
fn face_shell_captures_the_neighbour_near_layer() {
    let mut grid = LightGrid::dark();
    for i in 0..CHUNK_VOLUME {
        let (x, y, z) = Chunk::local_of(i);
        grid.set(i, lumel((x + y) as u8 % 16, (z + y) as u8 % 16));
    }
    for face in Face::all() {
        let (dx, dy, dz) = face.offset();
        let padded = PaddedLight::capture(|nx, ny, nz| {
            if nx == dx && ny == dy && nz == dz { Some(&grid) } else { None }
        });
        let shell = FaceShell::capture(|f| if f == face { Some(&grid) } else { None });
        let na = axis(face);
        let (au, av) = plane_axes(face);
        let outer = match face {
            Face::PosX | Face::PosY | Face::PosZ => CS,
            _ => -1,
        };
        for b in 0..CHUNK_SIZE {
            for a in 0..CHUNK_SIZE {
                let mut co = [0i32; 3];
                co[na] = outer;
                co[au] = a as i32;
                co[av] = b as i32;
                assert_eq!(
                    shell.at(face, a, b),
                    padded.at(co[0], co[1], co[2]),
                    "face {face:?} at ({a}, {b})"
                );
            }
        }
    }
}

#[test]
fn settle_reaches_a_fixpoint_across_a_border() {
    fn shell(face: Face, nbr: &LightGrid) -> FaceShell {
        FaceShell::capture(|f| if f == face { Some(nbr) } else { None })
    }
    let tables = tables();
    let mut left_c = Chunk::from_cells(0, 0, 0, Box::new([BlockId(0); CHUNK_VOLUME]));
    left_c.set_local(14, 8, 8, BlockId(2));
    let right_c = Chunk::from_cells(1, 0, 0, Box::new([BlockId(0); CHUNK_VOLUME]));
    let ceiling = CeilingWindow::from_heights(|_, _| 100);
    let mut left = LightGrid::dark();
    let mut right = LightGrid::dark();
    let mut passes = 0;
    loop {
        passes += 1;
        let mut new_left = LightGrid::dark();
        propagate(&left_c, &shell(Face::PosX, &right), &ceiling, 0, &tables, &mut new_left);
        let mut new_right = LightGrid::dark();
        propagate(&right_c, &shell(Face::NegX, &new_left), &ceiling, 0, &tables, &mut new_right);
        let stable = !border_changed(&left, &new_left, Face::PosX)
            && !border_changed(&right, &new_right, Face::NegX);
        left = new_left;
        right = new_right;
        if stable {
            break;
        }
        assert!(passes < 20, "settle did not converge");
    }
    assert!(right.at(Chunk::index(0, 8, 8)).block.get() > 0, "light crossed the seam");
}

#[test]
fn uniform_and_dense_grids_compare_by_value() {
    let uni = LightGrid::open_sky();
    let dense = uni.to_dense();
    assert!(std::mem::size_of::<LightGrid>() <= 16);
    assert!(uni.same_light(&dense), "one value equals its dense expansion");
    assert!(dense.same_light(&uni));
    assert!(LightGrid::dark().same_light(&LightGrid::dark().to_dense()));
    assert!(LightGrid::full().same_light(&LightGrid::full().to_dense()));
    assert!(!uni.same_light(&LightGrid::dark()));
    assert!(!uni.same_light(&LightGrid::dark().to_dense()));
    assert!(!uni.to_dense().same_light(&LightGrid::dark()));

    let mut mixed = LightGrid::open_sky().to_dense();
    mixed.set(0, Lumel::dark());
    assert!(!mixed.same_light(&uni));
    assert!(!uni.same_light(&mixed));

    let mut written = LightGrid::dark();
    assert!(written.is_uniform());
    assert_eq!(written.allocated_bytes(), 0);
    written.set(Chunk::index(8, 8, 8), Lumel::full());
    assert!(!written.is_uniform(), "a write makes the grid dense");
    assert_eq!(written.at(Chunk::index(8, 8, 8)), Lumel::full());
    assert_eq!(written.at(0), Lumel::dark());

    for face in Face::all() {
        assert!(!border_changed(&uni, &dense, face), "{face:?} same values");
        assert!(!border_changed(&dense, &uni, face), "{face:?} same values swapped");
        assert!(border_changed(&uni, &LightGrid::dark(), face));
        assert!(border_changed(&uni, &LightGrid::dark().to_dense(), face));
        assert!(!border_changed(&LightGrid::dark(), &LightGrid::dark().to_dense(), face));
    }
    assert!(border_changed(&mixed, &uni, Face::NegX));
    assert!(!border_changed(&mixed, &uni, Face::PosX));

    let shell_u = FaceShell::capture(|_| Some(&uni));
    let shell_d = FaceShell::capture(|_| Some(&dense));
    for face in Face::all() {
        for b in 0..CHUNK_SIZE {
            for a in 0..CHUNK_SIZE {
                assert_eq!(shell_u.at(face, a, b), shell_d.at(face, a, b), "face {face:?}");
            }
        }
    }
}

#[test]
fn uniform_and_dense_padded_light_meshes_byte_identically() {
    let mut chunk = Chunk::from_uniform(0, 0, 0, BlockId(0));
    for x in 0..CHUNK_SIZE {
        for z in 0..CHUNK_SIZE {
            chunk.set_local(x, 0, z, BlockId(1));
        }
    }
    let padded = Padded::capture(|dx, dy, dz| {
        if dx == 0 && dy == 0 && dz == 0 { Some(&chunk) } else { None }
    });
    let uniform_grids: [LightGrid; 27] = std::array::from_fn(|k| match k % 3 {
        0 => LightGrid::open_sky(),
        1 => LightGrid::dark(),
        _ => LightGrid::full(),
    });
    let dense_grids: [LightGrid; 27] = std::array::from_fn(|k| uniform_grids[k].to_dense());
    let idx = |dx: i32, dy: i32, dz: i32| ((dx + 1) + (dz + 1) * 3 + (dy + 1) * 9) as usize;
    let uni_pad = PaddedLight::capture(|dx, dy, dz| Some(&uniform_grids[idx(dx, dy, dz)]));
    let dense_pad = PaddedLight::capture(|dx, dy, dz| Some(&dense_grids[idx(dx, dy, dz)]));
    for y in -1..=CS {
        for z in -1..=CS {
            for x in -1..=CS {
                assert_eq!(uni_pad.at(x, y, z), dense_pad.at(x, y, z), "padded ({x},{y},{z})");
            }
        }
    }
    let mut a = new_chunk_mesh_data();
    let mut b = new_chunk_mesh_data();
    build_chunk_mesh(&padded, chunk.uniform(), &tables(), &uni_pad, &mut a);
    build_chunk_mesh(&padded, chunk.uniform(), &tables(), &dense_pad, &mut b);
    assert_eq!(a.opaque, b.opaque);
    assert_eq!(a.cutout, b.cutout);
    assert_eq!(a.blend, b.blend);
    assert!(!a.opaque.is_empty());
}
