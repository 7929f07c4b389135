use voxel_world::block::{BlockId, HotTables, Pass};
use voxel_world::world::chunk::{Chunk, ChunkData, CHUNK_SIZE, CHUNK_VOLUME};
use voxel_world::world::generation::{layered, TerrainGenerator};
use voxel_world::world::light::{LightLevel, Lumel};
use voxel_world::world::mesh::face::vertex_ao;
use voxel_world::world::mesh::greedy::{merge, NO_FACE};
use voxel_world::world::mesh::sample::{
    avg_light, pack_sample, unpack_sample, FaceSample, Four, Padded, PaddedLight,
};
use voxel_world::world::mesh::sweep::{
    build_chunk_mesh, build_chunk_mesh_unlit, new_chunk_mesh_data, MeshVertex, Quad,
};

const CS: i32 = CHUNK_SIZE as i32;
const AIR: BlockId = BlockId(0);
const STONE: BlockId = BlockId(1);
const DIRT: BlockId = BlockId(2);

/// One block everywhere up to one height.
struct FlatGen {
    height: i32,
    block: BlockId,
}

impl TerrainGenerator for FlatGen {
    fn ready(&self) -> bool {
        unreachable!()
    }
    fn reaches(&self, _wy: i32) -> bool {
        unreachable!()
    }
    fn height_spec(&self, _wx: i32, _wz: i32) -> i32 {
        unreachable!()
    }
    fn surface_spec(&self, _wx: i32, _wz: i32) -> BlockId {
        unreachable!()
    }
    fn deep_spec(&self) -> BlockId {
        unreachable!()
    }
    fn block_spec(&self, _wx: i32, _wy: i32, _wz: i32, _height: i32) -> BlockId {
        unreachable!()
    }
    fn lod_spec(&self, _wx: i32, _wy: i32, _wz: i32) -> BlockId {
        unreachable!()
    }
    fn height(&self, _wx: i32, _wz: i32) -> i32 {
        self.height
    }
    fn surface_at(&self, _wx: i32, _wz: i32) -> BlockId {
        self.block
    }
    fn deep(&self) -> BlockId {
        self.block
    }
    fn block_at(&self, wx: i32, wy: i32, wz: i32, height: i32) -> BlockId {
        layered(self.surface_at(wx, wz), self.deep(), wy, height)
    }
    fn lod_block_at(&self, wx: i32, wy: i32, wz: i32) -> BlockId {
        self.block_at(wx, wy, wz, self.height(wx, wz))
    }
}

fn empty_at(cx: i32, cy: i32, cz: i32) -> Chunk {
    Chunk::new(cx, cy, cz, &FlatGen { height: 0, block: AIR })
}

fn empty_chunk() -> Chunk {
    empty_at(0, 0, 0)
}

fn solid_chunk() -> Chunk {
    Chunk::new(0, 0, 0, &FlatGen { height: i32::MAX, block: STONE })
}

fn tables() -> HotTables {
    HotTables::from_parts(
        vec![false, true, true],
        vec![false, true, true],
        vec![false, false, false],
        vec![Pass::Opaque, Pass::Opaque, Pass::Opaque],
        vec![0, 0, 0],
    )
}

fn solo(chunk: &Chunk) -> Padded {
    Padded::capture(|dx, dy, dz| if dx == 0 && dy == 0 && dz == 0 { Some(chunk) } else { None })
}

/// The opaque mesh of a chunk alone, in full light.
fn built(chunk: &Chunk) -> Vec<Quad> {
    let mut out = new_chunk_mesh_data();
    build_chunk_mesh(&solo(chunk), chunk.uniform(), &tables(), &PaddedLight::full(), &mut out);
    assert!(out.blend.is_empty(), "opaque blocks make no transparent geometry");
    out.opaque
}

fn corners(q: &Quad) -> [MeshVertex; 4] {
    [q.a, q.b, q.c, q.d]
}

fn culled_face_area(chunk: &Chunk, t: &HotTables) -> usize {
    let solid_at = |x: i32, y: i32, z: i32| -> bool {
        let range = 0..CS;
        if !range.contains(&x) || !range.contains(&y) || !range.contains(&z) {
            return false;
        }
        t.solid(chunk.get_local(x as usize, y as usize, z as usize))
    };
    let mut area = 0;
    for y in 0..CS {
        for z in 0..CS {
            for x in 0..CS {
                if !solid_at(x, y, z) {
                    continue;
                }
                for (dx, dy, dz) in
                    [(1, 0, 0), (-1, 0, 0), (0, 1, 0), (0, -1, 0), (0, 0, 1), (0, 0, -1)]
                {
                    if !solid_at(x + dx, y + dy, z + dz) {
                        area += 1;
                    }
                }
            }
        }
    }
    area
}

/// The edge from one vertex to the next; edges run along one axis.
fn edge(a: &MeshVertex, b: &MeshVertex) -> usize {
    let d = |p: u8, q: u8| (p as i32 - q as i32).unsigned_abs() as usize;
    let (x, y, z) = (d(a.x, b.x), d(a.y, b.y), d(a.z, b.z));
    assert_eq!([x, y, z].iter().filter(|v| **v > 0).count(), 1);
    x + y + z
}

fn quad_areas(data: &[Quad]) -> Vec<usize> {
    data.iter().map(|q| edge(&q.a, &q.b) * edge(&q.a, &q.d)).collect()
}

fn total_area(data: &[Quad]) -> usize {
    quad_areas(data).iter().sum()
}

fn quads_in_y_plane(data: &[Quad], y: u8) -> usize {
    data.iter().filter(|q| corners(q).iter().all(|v| v.y == y)).count()
}

#[test]
fn unlit_mesh_matches_full_bright_shell_exactly() {
    let solid = solid_chunk();
    let mut dense = empty_chunk();
    for (x, y, z) in [(0, 0, 0), (1, 0, 0), (5, 9, 3), (15, 15, 15), (8, 8, 8)] {
        dense.set_local(x, y, z, if (x + y + z) % 2 == 0 { STONE } else { DIRT });
    }
    for chunk in [&solid, &dense] {
        let padded = solo(chunk);
        for ao in [false, true] {
            let mut tables = tables();
            tables.ao = ao;
            let mut lit = new_chunk_mesh_data();
            build_chunk_mesh(&padded, chunk.uniform(), &tables, &PaddedLight::full(), &mut lit);
            let mut unlit = new_chunk_mesh_data();
            build_chunk_mesh_unlit(&padded, chunk.uniform(), &tables, &mut unlit);
            assert_eq!(lit.opaque, unlit.opaque, "ao={ao}");
            assert_eq!(lit.cutout, unlit.cutout, "ao={ao}");
            assert_eq!(lit.blend, unlit.blend, "ao={ao}");
        }
    }
}

#[test]
fn blocks_past_the_old_u8_cap_mesh_with_their_own_layer() {
    let high = BlockId(301);
    assert!(high.0 > 255, "the palette is past one byte");
    let mut solid = vec![true; 302];
    solid[0] = false;
    let t = HotTables::from_parts(
        solid.clone(),
        solid,
        vec![false; 302],
        vec![Pass::Opaque; 302],
        vec![0; 302],
    );
    let mut chunk = Chunk::from_uniform(0, 0, 0, AIR);
    chunk.set_local(8, 8, 8, high);
    let mut out = new_chunk_mesh_data();
    build_chunk_mesh(&solo(&chunk), None, &t, &PaddedLight::full(), &mut out);
    assert!(!out.opaque.is_empty(), "the lone block meshed");
    assert!(out.opaque.iter().all(|q| corners(q).iter().all(|v| v.layer == high.0)));
}

#[test]
fn vertex_layers_wrap_at_the_device_texture_cap() {
    let high = BlockId(300);
    let mut chunk = Chunk::from_uniform(0, 0, 0, AIR);
    chunk.set_local(8, 8, 8, high);
    let mut bools = vec![true; 301];
    bools[0] = false;
    let mut t = HotTables::from_parts(
        bools.clone(),
        bools,
        vec![false; 301],
        vec![Pass::Opaque; 301],
        vec![0; 301],
    );
    t.layer_cap = 256;
    let mut out = new_chunk_mesh_data();
    build_chunk_mesh(&solo(&chunk), None, &t, &PaddedLight::full(), &mut out);
    let layers: Vec<u16> =
        out.opaque.iter().flat_map(|q| corners(q)).map(|v| v.layer).collect();
    assert!(!layers.is_empty());
    assert!(layers.iter().all(|&l| l == 300 % 256), "vertex layer wraps, id stays true");
}

#[test]
fn flat_slab_top_merges_to_one_quad() {
    let mut chunk = empty_chunk();
    for x in 0..3 {
        for z in 0..3 {
            chunk.set_local(x, 0, z, STONE);
        }
    }
    let data = built(&chunk);
    assert_eq!(quads_in_y_plane(&data, 1), 1, "flat top with uniform AO is one quad");
    let reference = culled_face_area(&chunk, &tables());
    assert_eq!(reference, 30);
    assert_eq!(total_area(&data), reference);
}

#[test]
fn checkerboard_never_merges() {
    let mut chunk = empty_chunk();
    for x in 0..CHUNK_SIZE {
        for z in 0..CHUNK_SIZE {
            if (x + z) % 2 == 0 {
                chunk.set_local(x, 0, z, STONE);
            }
        }
    }
    let data = built(&chunk);
    let areas = quad_areas(&data);
    let reference = culled_face_area(&chunk, &tables());
    assert_eq!(areas.len(), reference, "no two faces merged");
    assert!(areas.iter().all(|&a| a == 1), "every quad is 1x1");
}

#[test]
fn different_blocks_do_not_merge() {
    let mut chunk = empty_chunk();
    chunk.set_local(0, 0, 0, STONE);
    chunk.set_local(1, 0, 0, DIRT);
    let data = built(&chunk);
    assert_eq!(quads_in_y_plane(&data, 1), 2, "different blocks never merge");
    let reference = culled_face_area(&chunk, &tables());
    assert_eq!(reference, 10);
    assert_eq!(total_area(&data), reference);
}

#[test]
fn ambient_occlusion_splits_a_run_the_flat_case_would_merge() {
    let flat = {
        let mut c = empty_chunk();
        c.set_local(1, 0, 0, STONE);
        c.set_local(2, 0, 0, STONE);
        built(&c)
    };
    assert_eq!(quads_in_y_plane(&flat, 1), 1, "flat run of two tops merges to one");

    let mut chunk = empty_chunk();
    chunk.set_local(0, 0, 0, STONE);
    chunk.set_local(1, 0, 0, STONE);
    chunk.set_local(2, 0, 0, STONE);
    chunk.set_local(0, 1, 0, STONE);
    let data = built(&chunk);
    assert_eq!(quads_in_y_plane(&data, 1), 2, "AO from the wall splits the two exposed tops");
}

#[test]
fn smooth_light_gives_a_face_a_gradient_across_a_lit_shadow_edge() {
    let mut chunk = empty_chunk();
    for x in 0..CHUNK_SIZE {
        for z in 0..CHUNK_SIZE {
            chunk.set_local(x, 0, z, STONE);
        }
    }
    let light = PaddedLight::from_fn(|x, _, _| Lumel {
        sky: LightLevel::new(if x < 8 { 15 } else { 0 }),
        block: LightLevel::dark(),
    });
    let mut out = new_chunk_mesh_data();
    build_chunk_mesh(&solo(&chunk), None, &tables(), &light, &mut out);
    assert!(quads_in_y_plane(&out.opaque, 1) > 1, "the light step splits the flat floor's tops");
    let gradient_quad = out.opaque.iter().any(|q| {
        let c = corners(q);
        c.iter().all(|v| v.y == 1) && c.iter().any(|v| (v.sky, v.block) != (c[0].sky, c[0].block))
    });
    assert!(gradient_quad, "a boundary top face carries differing corner light");
}

#[test]
fn uniform_air_meshes_empty() {
    let chunk = empty_chunk();
    assert_eq!(chunk.uniform(), Some(AIR));
    assert!(built(&chunk).is_empty());
}

#[test]
fn uniform_solid_fast_path_matches_a_dense_fill() {
    let uniform = solid_chunk();
    assert_eq!(uniform.uniform(), Some(STONE));
    let dense = Chunk::from_data(
        0,
        0,
        0,
        ChunkData::Paletted { palette: vec![STONE], cells: Box::new([0u8; CHUNK_VOLUME]) },
    );
    assert_eq!(dense.uniform(), Some(STONE), "construction collapses one value");
    let (a, b) = (built(&uniform), built(&dense));
    assert_eq!(total_area(&a), 6 * CHUNK_SIZE * CHUNK_SIZE, "6 full faces");
    assert_eq!(a, b, "uniform and dense paths mesh identically");
}

#[test]
fn translucent_faces_route_to_the_blend_pass() {
    const GLASS: BlockId = BlockId(3);
    let t = HotTables::from_parts(
        vec![false, true, true, true],
        vec![false, true, true, false],
        vec![false, false, false, false],
        vec![Pass::Opaque, Pass::Opaque, Pass::Opaque, Pass::Blend],
        vec![0, 0, 0, 0],
    );
    let mut chunk = empty_chunk();
    chunk.set_local(5, 5, 5, GLASS);
    chunk.set_local(6, 5, 5, GLASS);
    chunk.set_local(5, 5, 6, STONE);
    let mut out = new_chunk_mesh_data();
    build_chunk_mesh(&solo(&chunk), None, &t, &PaddedLight::full(), &mut out);
    assert!(!out.blend.is_empty(), "glass emits blend geometry");
    assert_eq!(total_area(&out.blend), 9, "internal + occluded glass faces culled");
    assert_eq!(total_area(&out.opaque), 6, "stone keeps all six faces (glass doesn't cull)");
}

#[test]
fn border_faces_cull_against_neighbour_chunks() {
    let mut chunk = empty_chunk();
    chunk.set_local(CHUNK_SIZE - 1, 0, 0, STONE);
    let mut other = empty_at(1, 0, 0);
    other.set_local(0, 0, 0, STONE);
    let alone = built(&chunk);
    let padded = Padded::capture(|dx, dy, dz| match (dx, dy, dz) {
        (0, 0, 0) => Some(&chunk),
        (1, 0, 0) => Some(&other),
        _ => None,
    });
    let mut out = new_chunk_mesh_data();
    build_chunk_mesh(&padded, None, &tables(), &PaddedLight::full(), &mut out);
    assert_eq!(total_area(&alone), 6, "isolated cube shows all six faces");
    assert_eq!(total_area(&out.opaque), 5, "the face against the neighbour is culled");
}

#[test]
fn far_chunk_meshes_byte_identically_to_the_origin_chunk() {
    let mut near = empty_at(0, 0, 0);
    let mut far = empty_at(62_500_000, -3_000, -62_500_000);
    for (x, y, z, id) in [(0, 0, 0, STONE), (1, 0, 0, STONE), (5, 9, 15, DIRT)] {
        near.set_local(x, y, z, id);
        far.set_local(x, y, z, id);
    }
    assert_eq!(built(&near), built(&far), "far chunk meshes byte-identically");
}

#[test]
fn single_cube_vertices_are_chunk_local() {
    let mut chunk = empty_at(6_250_000, 40, -6_250_000);
    chunk.set_local(2, 3, 4, STONE);
    let data = built(&chunk);
    assert_eq!(data.len() * 4, 24, "six 1x1 faces");
    for v in data.iter().flat_map(|q| corners(q)) {
        assert!([v.x, v.y, v.z].iter().all(|c| *c as usize <= CHUNK_SIZE), "chunk-local {v:?}");
    }
}

#[test]
fn samples_pack_and_unpack() {
    let s = FaceSample {
        id: BlockId(513),
        ao: Four { c0: 0, c1: 1, c2: 2, c3: 3 },
        sky: Four { c0: 15, c1: 0, c2: 7, c3: 1 },
        block: Four { c0: 3, c1: 9, c2: 12, c3: 15 },
    };
    assert_eq!(unpack_sample(pack_sample(s)), s);
    assert_ne!(pack_sample(s), pack_sample(FaceSample { id: BlockId(514), ..s }));
}

#[test]
fn occlusion_and_light_averages() {
    assert_eq!(vertex_ao(true, true, false), 0, "two sides close the corner");
    assert_eq!(vertex_ao(true, false, true), 1);
    assert_eq!(vertex_ao(false, false, true), 2);
    assert_eq!(vertex_ao(false, false, false), 3);
    assert_eq!(avg_light(15, 1), 15);
    assert_eq!(avg_light(31, 4), 7, "rounds down");
}

#[test]
fn rectangles_cover_each_filled_cell_once() {
    let mut slice = vec![NO_FACE; 256];
    for v in 2..5 {
        for u in 3..9 {
            slice[u + v * 16] = 7;
        }
    }
    slice[0] = 9;
    let rects = merge(slice.clone());
    assert_eq!(rects.len(), 2);
    let covered: usize = rects.iter().map(|r| r.w * r.h).sum();
    assert_eq!(covered, slice.iter().filter(|k| **k != NO_FACE).count());
}
