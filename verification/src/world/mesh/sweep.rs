//! Building a chunk's mesh: a sweep over the slices of six directions, each merged
//! into rectangles and routed to the pass of its block.
use vstd::prelude::*;

use crate::block::{BlockId, HotTables, Pass};
use crate::coord::Face;
use crate::world::mesh::face::{
    corner_spec, dir_face, point, point_spec, step_of, Dir,
};
use crate::world::mesh::greedy::{lemma_empty_slice, lemma_grown, merge, rects, Rect, MASK_CAP, NO_FACE};
use crate::world::mesh::sample::{
    lemma_pack_round_trip, pack_spec, unpack_sample, unpack_spec, FaceSample, Padded, PaddedLight,
    Scene,
};
use crate::world::neighborhood::padded;

verus! {

/// A corner of a face to draw, in chunk-local coordinates `0..=16`.
#[derive(Clone, Copy, PartialEq, Eq, Debug, Structural)]
pub struct MeshVertex {
    pub x: u8,
    pub y: u8,
    pub z: u8,
    pub normal: Face,
    /// The texture layer.
    pub layer: u16,
    pub ao: u8,
    pub sky: u8,
    pub block: u8,
    /// Whether the block shows a lowered fluid surface.
    pub fluid: bool,
}

/// A face to draw, as two triangles along the diagonal from the first corner to the
/// third.
#[derive(Clone, Copy, PartialEq, Eq, Debug, Structural)]
pub struct Quad {
    pub a: MeshVertex,
    pub b: MeshVertex,
    pub c: MeshVertex,
    pub d: MeshVertex,
}

/// A chunk's faces by the pass that draws them.
pub struct ChunkMeshData {
    pub opaque: Vec<Quad>,
    pub cutout: Vec<Quad>,
    pub blend: Vec<Quad>,
}

/// The faces of one pass, in order.
pub open spec fn picked(faces: Seq<(Pass, Quad)>, pass: Pass) -> Seq<Quad>
    decreases faces.len(),
{
    if faces.len() == 0 {
        Seq::empty()
    } else {
        let rest = picked(faces.drop_last(), pass);
        if faces.last().0 == pass {
            rest.push(faces.last().1)
        } else {
            rest
        }
    }
}

impl ChunkMeshData {
    /// Whether the passes hold these faces.
    pub open spec fn holds(self, faces: Seq<(Pass, Quad)>) -> bool {
        &&& self.opaque@ == picked(faces, Pass::Opaque)
        &&& self.cutout@ == picked(faces, Pass::Cutout)
        &&& self.blend@ == picked(faces, Pass::Blend)
    }

    fn add_quad(&mut self, pass: Pass, q: Quad, Ghost(faces): Ghost<Seq<(Pass, Quad)>>)
        requires
            old(self).holds(faces),
        ensures
            final(self).holds(faces.push((pass, q))),
    {
        assert(faces.push((pass, q)).drop_last() =~= faces);
        match pass {
            Pass::Opaque => self.opaque.push(q),
            Pass::Cutout => self.cutout.push(q),
            Pass::Blend => self.blend.push(q),
        }
    }
}

/// A mesh without faces.
pub fn new_chunk_mesh_data() -> (m: ChunkMeshData)
    ensures
        m.holds(Seq::empty()),
{
    ChunkMeshData { opaque: Vec::new(), cutout: Vec::new(), blend: Vec::new() }
}

/// The near side of a rectangle, or the far one for a corner component of one.
pub open spec fn far_side(near: usize, c: u8, extent: usize) -> int {
    if c == 0 {
        near as int
    } else {
        near + extent
    }
}

/// Corner `i` of a rectangle in slice `n`.
pub open spec fn vertex_spec(
    tables: HotTables,
    normal: Face,
    n: int,
    r: Rect,
    s: FaceSample,
    i: int,
) -> MeshVertex {
    let c = corner_spec(normal, i);
    let p = point_spec(normal, n + c.0, far_side(r.u0, c.1, r.w), far_side(r.v0, c.2, r.h));
    MeshVertex {
        x: p.0 as u8,
        y: p.1 as u8,
        z: p.2 as u8,
        normal,
        layer: (s.id.0 % tables.layer_cap) as u16,
        ao: s.ao.of(i),
        sky: s.sky.of(i),
        block: s.block.of(i),
        fluid: tables.fluid_surface@[s.id.0 as int],
    }
}

/// Whether the diagonal moves to the second and fourth corner, so that it joins the pair
/// that is less shaded.
pub open spec fn is_flipped(s: FaceSample) -> bool {
    s.ao.c0 + s.ao.c2 < s.ao.c1 + s.ao.c3
}

/// The face of a rectangle in slice `n`.
pub open spec fn quad_spec(tables: HotTables, normal: Face, n: int, r: Rect) -> Quad {
    let s = unpack_spec(r.key);
    let (a, b, c, d) = (
        vertex_spec(tables, normal, n, r, s, 0),
        vertex_spec(tables, normal, n, r, s, 1),
        vertex_spec(tables, normal, n, r, s, 2),
        vertex_spec(tables, normal, n, r, s, 3),
    );
    if is_flipped(s) {
        Quad { a: b, b: c, c: d, d: a }
    } else {
        Quad { a, b, c, d }
    }
}

/// A slice's faces before merging: packed samples, and the empty word elsewhere.
pub open spec fn slice_spec(scene: Scene, normal: Face, n: int) -> Seq<u64> {
    Seq::new(
        MASK_CAP as nat,
        |i: int|
            if scene.exposed(normal, n, i % 16, i / 16) {
                pack_spec(scene.sample(normal, n, i % 16, i / 16))
            } else {
                NO_FACE
            },
    )
}

/// The face that is drawn for a rectangle, with its pass.
pub open spec fn emitted(tables: HotTables, normal: Face, n: int, r: Rect) -> (Pass, Quad) {
    (tables.layer@[unpack_spec(r.key).id.0 as int], quad_spec(tables, normal, n, r))
}

/// The faces of a slice.
pub open spec fn slice_faces(scene: Scene, normal: Face, n: int) -> Seq<(Pass, Quad)> {
    rects(slice_spec(scene, normal, n), 0).map_values(
        |r: Rect| emitted(*scene.tables, normal, n, r),
    )
}

/// The slice that borders the neighbour in a direction.
pub open spec fn edge_slice(normal: Face) -> int {
    if step_of(normal) > 0 {
        15
    } else {
        0
    }
}

/// The faces of the slices before `n`.
pub open spec fn faces_before(scene: Scene, normal: Face, n: int) -> Seq<(Pass, Quad)>
    decreases n,
{
    if n <= 0 {
        Seq::empty()
    } else {
        faces_before(scene, normal, n - 1) + slice_faces(scene, normal, n - 1)
    }
}

/// The faces of a direction: all slices, or its edge slice alone.
pub open spec fn direction_faces(scene: Scene, edge_only: bool, normal: Face) -> Seq<(Pass, Quad)> {
    if edge_only {
        slice_faces(scene, normal, edge_slice(normal))
    } else {
        faces_before(scene, normal, 16)
    }
}

/// The faces of the first `d` directions.
pub open spec fn sweep_spec(scene: Scene, edge_only: bool, d: int) -> Seq<(Pass, Quad)>
    decreases d,
{
    if d <= 0 {
        Seq::empty()
    } else {
        sweep_spec(scene, edge_only, d - 1) + direction_faces(scene, edge_only, dir_face(d - 1))
    }
}

/// The faces of a chunk, where `uniform` is the block that fills it, if one does.
pub open spec fn mesh_spec(scene: Scene, uniform: Option<BlockId>) -> Seq<(Pass, Quad)> {
    match uniform {
        Some(id) => if scene.tables.solid_spec(id) {
            sweep_spec(scene, true, 6)
        } else {
            Seq::empty()
        },
        None => sweep_spec(scene, false, 6),
    }
}

fn vertex(tables: &HotTables, dir: &Dir, n: usize, r: &Rect, s: &FaceSample, i: usize) -> (v: MeshVertex)
    requires
        tables.wf(),
        dir.wf(),
        n < 16,
        r.u0 + r.w <= 16,
        r.v0 + r.h <= 16,
        s.id.0 < tables.count(),
        i < 4,
    ensures
        v == vertex_spec(*tables, dir.normal, n as int, *r, *s, i as int),
{
    let c: [u8; 3] = dir.corners[i];
    proof {
        assert(dir.corners@[i as int]@ == c@);
        assert(c@[0] <= 1 && c@[1] <= 1 && c@[2] <= 1);
    }
    let pn: i32 = n as i32 + c[0] as i32;
    let pu: i32 = r.u0 as i32 + (if c[1] == 1 {
        r.w as i32
    } else {
        0
    });
    let pv: i32 = r.v0 as i32 + (if c[2] == 1 {
        r.h as i32
    } else {
        0
    });
    let (x, y, z) = point(dir, pn, pu, pv);
    MeshVertex {
        x: x as u8,
        y: y as u8,
        z: z as u8,
        normal: dir.normal,
        layer: s.id.0 % tables.layer_cap,
        ao: s.ao.get(i),
        sky: s.sky.get(i),
        block: s.block.get(i),
        fluid: tables.fluid_surface[s.id.0 as usize],
    }
}

/// The face of a rectangle in slice `n`.
fn emit_rect(tables: &HotTables, dir: &Dir, n: usize, r: &Rect) -> (q: Quad)
    requires
        tables.wf(),
        dir.wf(),
        n < 16,
        r.u0 + r.w <= 16,
        r.v0 + r.h <= 16,
        unpack_spec(r.key).id.0 < tables.count(),
        unpack_spec(r.key).wf(),
    ensures
        q == quad_spec(*tables, dir.normal, n as int, *r),
{
    let s = unpack_sample(r.key);
    let a = vertex(tables, dir, n, r, &s, 0);
    let b = vertex(tables, dir, n, r, &s, 1);
    let c = vertex(tables, dir, n, r, &s, 2);
    let d = vertex(tables, dir, n, r, &s, 3);
    if s.ao.c0 + s.ao.c2 < s.ao.c1 + s.ao.c3 {
        Quad { a: b, b: c, c: d, d: a }
    } else {
        Quad { a, b, c, d }
    }
}

/// The rectangles of a slice lie in it and hold samples of its faces.
spec fn rects_fit(mask: Seq<u64>, rs: Seq<Rect>) -> bool {
    forall|k: int|
        0 <= k < rs.len() ==> {
            let r = #[trigger] rs[k];
            &&& r.u0 + r.w <= 16
            &&& r.v0 + r.h <= 16
            &&& r.key != NO_FACE
            &&& exists|c: int| 0 <= c < MASK_CAP && #[trigger] mask[c] == r.key
        }
}

proof fn lemma_rects_fit(mask: Seq<u64>, i: int)
    requires
        mask.len() == MASK_CAP,
        0 <= i <= MASK_CAP,
    ensures
        rects_fit(mask, rects(mask, i)),
    decreases MASK_CAP - i,
{
    if i < MASK_CAP {
        if mask[i] == NO_FACE {
            lemma_rects_fit(mask, i + 1);
        } else {
            let r = crate::world::mesh::greedy::grown(mask, i);
            let next = crate::world::mesh::greedy::cleared(mask, r);
            lemma_grown(mask, i);
            lemma_rects_fit(next, i + 1);
            let rest = rects(next, i + 1);
            let all = rects(mask, i);
            assert(all =~= seq![r] + rest);
            assert forall|k: int| 0 <= k < all.len() implies {
                let q = #[trigger] all[k];
                &&& q.u0 + q.w <= 16
                &&& q.v0 + q.h <= 16
                &&& q.key != NO_FACE
                &&& exists|c: int| 0 <= c < MASK_CAP && #[trigger] mask[c] == q.key
            } by {
                if k == 0 {
                    assert(mask[i] == all[0].key);
                } else {
                    assert(all[k] == rest[k - 1]);
                    let c = choose|c: int| 0 <= c < MASK_CAP && #[trigger] next[c] == rest[k - 1].key;
                    assert(mask[c] == all[k].key);
                }
            }
        }
    }
}

fn slice_of(scene: &Scene, dir: &Dir, n: usize) -> (mask: Vec<u64>)
    requires
        scene.wf(),
        dir.wf(),
        n < 16,
    ensures
        mask@ == slice_spec(*scene, dir.normal, n as int),
        forall|i: int|
            0 <= i < MASK_CAP && scene.exposed(dir.normal, n as int, i % 16, i / 16)
                ==> (#[trigger] scene.sample(dir.normal, n as int, i % 16, i / 16)).wf(),
{
    let mut mask: Vec<u64> = Vec::with_capacity(MASK_CAP);
    while mask.len() < MASK_CAP
        invariant
            scene.wf(),
            dir.wf(),
            n < 16,
            mask@.len() <= MASK_CAP,
            forall|i: int|
                0 <= i < mask@.len() ==> #[trigger] mask@[i] == slice_spec(
                    *scene,
                    dir.normal,
                    n as int,
                )[i],
            forall|i: int|
                0 <= i < mask@.len() && scene.exposed(dir.normal, n as int, i % 16, i / 16)
                    ==> (#[trigger] scene.sample(dir.normal, n as int, i % 16, i / 16)).wf(),
        decreases MASK_CAP - mask@.len(),
    {
        let i: usize = mask.len();
        let w: u64 = scene.face_sample(dir, n as i32, (i % 16) as i32, (i / 16) as i32);
        mask.push(w);
    }
    assert(mask@ =~= slice_spec(*scene, dir.normal, n as int));
    mask
}

/// Adds the faces of a slice.
fn sweep_slice(
    scene: &Scene,
    dir: &Dir,
    n: usize,
    out: &mut ChunkMeshData,
    Ghost(done): Ghost<Seq<(Pass, Quad)>>,
)
    requires
        scene.wf(),
        dir.wf(),
        n < 16,
        old(out).holds(done),
    ensures
        final(out).holds(done + slice_faces(*scene, dir.normal, n as int)),
{
    let mask = slice_of(scene, dir, n);
    let ghost slice = mask@;
    let list = merge(mask);
    let ghost faces = slice_faces(*scene, dir.normal, n as int);
    proof {
        lemma_rects_fit(slice, 0);
        assert(done + faces.take(0) =~= done);
    }
    let mut k: usize = 0;
    while k < list.len()
        invariant
            scene.wf(),
            dir.wf(),
            n < 16,
            k <= list@.len(),
            slice == slice_spec(*scene, dir.normal, n as int),
            list@ == rects(slice, 0),
            rects_fit(slice, list@),
            faces == slice_faces(*scene, dir.normal, n as int),
            forall|i: int|
                0 <= i < MASK_CAP && scene.exposed(dir.normal, n as int, i % 16, i / 16)
                    ==> (#[trigger] scene.sample(dir.normal, n as int, i % 16, i / 16)).wf(),
            out.holds(done + faces.take(k as int)),
        decreases list@.len() - k,
    {
        let r = list[k];
        proof {
            assert(list@[k as int] == r);
            let c = choose|c: int| 0 <= c < MASK_CAP && #[trigger] slice[c] == r.key;
            let s = scene.sample(dir.normal, n as int, c % 16, c / 16);
            assert(scene.exposed(dir.normal, n as int, c % 16, c / 16));
            assert(s.wf());
            lemma_pack_round_trip(s);
            let p = point_spec(dir.normal, n as int, c % 16, c / 16);
            assert(scene.cells.inner.cell(p.0, p.1, p.2).0 < scene.tables.count());
        }
        let s = unpack_sample(r.key);
        let pass = scene.tables.layer[s.id.0 as usize];
        let q = emit_rect(scene.tables, dir, n, &r);
        out.add_quad(pass, q, Ghost(done + faces.take(k as int)));
        proof {
            assert(faces[k as int] == (pass, q));
            assert((done + faces.take(k as int)).push((pass, q)) =~= done + faces.take(k + 1));
        }
        k = k + 1;
    }
    assert(faces.take(k as int) =~= faces);
}

/// Adds the faces of all six directions.
fn sweep(scene: &Scene, edge_only: bool, out: &mut ChunkMeshData)
    requires
        scene.wf(),
        old(out).holds(Seq::empty()),
    ensures
        final(out).holds(sweep_spec(*scene, edge_only, 6)),
{
    let mut d: usize = 0;
    while d < 6
        invariant
            d <= 6,
            scene.wf(),
            out.holds(sweep_spec(*scene, edge_only, d as int)),
        decreases 6 - d,
    {
        let dir = Dir::at(d);
        let ghost done = sweep_spec(*scene, edge_only, d as int);
        if edge_only {
            let n: usize = if dir.step > 0 {
                15
            } else {
                0
            };
            sweep_slice(scene, &dir, n, out, Ghost(done));
        } else {
            let mut n: usize = 0;
            assert(done + faces_before(*scene, dir.normal, 0) =~= done);
            while n < 16
                invariant
                    n <= 16,
                    scene.wf(),
                    dir.wf(),
                    out.holds(done + faces_before(*scene, dir.normal, n as int)),
                decreases 16 - n,
            {
                sweep_slice(
                    scene,
                    &dir,
                    n,
                    out,
                    Ghost(done + faces_before(*scene, dir.normal, n as int)),
                );
                assert(done + faces_before(*scene, dir.normal, n + 1) =~= (done + faces_before(
                    *scene,
                    dir.normal,
                    n as int,
                )) + slice_faces(*scene, dir.normal, n as int));
                n = n + 1;
            }
        }
        d = d + 1;
    }
}

/// Builds a chunk's mesh with smooth light. A uniform chunk that is not solid has no
/// faces, and a uniform solid one only those at its borders.
pub fn build_chunk_mesh(
    padded: &Padded,
    uniform: Option<BlockId>,
    tables: &HotTables,
    light: &PaddedLight,
    out: &mut ChunkMeshData,
)
    requires
        (Scene { cells: padded, light: Some(light), tables }).wf(),
        uniform matches Some(id) ==> id.0 < tables.count(),
    ensures
        final(out).holds(
            mesh_spec((Scene { cells: padded, light: Some(light), tables }), uniform),
        ),
{
    let scene = Scene { cells: padded, light: Some(light), tables };
    build_chunk_mesh_inner(&scene, uniform, out);
}

/// Builds a chunk's mesh at constant full light.
pub fn build_chunk_mesh_unlit(
    padded: &Padded,
    uniform: Option<BlockId>,
    tables: &HotTables,
    out: &mut ChunkMeshData,
)
    requires
        (Scene { cells: padded, light: None, tables }).wf(),
        uniform matches Some(id) ==> id.0 < tables.count(),
    ensures
        final(out).holds(mesh_spec((Scene { cells: padded, light: None, tables }), uniform)),
{
    let scene = Scene { cells: padded, light: None, tables };
    build_chunk_mesh_inner(&scene, uniform, out);
}

fn build_chunk_mesh_inner(scene: &Scene, uniform: Option<BlockId>, out: &mut ChunkMeshData)
    requires
        scene.wf(),
        uniform matches Some(id) ==> id.0 < scene.tables.count(),
    ensures
        final(out).holds(mesh_spec(*scene, uniform)),
{
    *out = new_chunk_mesh_data();
    match uniform {
        Some(id) => {
            if scene.tables.solid(id) {
                sweep(scene, true, out);
            }
        },
        None => sweep(scene, false, out),
    }
}

/// Whether the chunk holds one block throughout.
pub open spec fn is_uniform(scene: Scene, id: BlockId) -> bool {
    forall|x: int, y: int, z: int|
        0 <= x < 16 && 0 <= y < 16 && 0 <= z < 16 ==> #[trigger] scene.cells.inner.cell(x, y, z)
            == id
}

/// The shortcuts for uniform chunks change nothing: they give the faces of the full
/// sweep.
pub proof fn lemma_uniform_mesh(scene: Scene, id: BlockId)
    requires
        is_uniform(scene, id),
    ensures
        mesh_spec(scene, Some(id)) == sweep_spec(scene, false, 6),
{
    lemma_uniform_sweep(scene, id, 6);
}

proof fn lemma_uniform_sweep(scene: Scene, id: BlockId, d: int)
    requires
        is_uniform(scene, id),
        0 <= d <= 6,
    ensures
        scene.tables.solid_spec(id) ==> sweep_spec(scene, true, d) == sweep_spec(scene, false, d),
        !scene.tables.solid_spec(id) ==> sweep_spec(scene, false, d) == Seq::<(Pass, Quad)>::empty(),
    decreases d,
{
    if d > 0 {
        lemma_uniform_sweep(scene, id, d - 1);
        lemma_uniform_direction(scene, id, dir_face(d - 1), 16);
        assert(Seq::<(Pass, Quad)>::empty() + Seq::<(Pass, Quad)>::empty() =~= Seq::<
            (Pass, Quad),
        >::empty());
    }
}

proof fn lemma_uniform_direction(scene: Scene, id: BlockId, normal: Face, n: int)
    requires
        is_uniform(scene, id),
        0 <= n <= 16,
    ensures
        faces_before(scene, normal, n) == (if scene.tables.solid_spec(id) && edge_slice(normal)
            < n {
            slice_faces(scene, normal, edge_slice(normal))
        } else {
            Seq::empty()
        }),
    decreases n,
{
    if n > 0 {
        lemma_uniform_direction(scene, id, normal, n - 1);
        if !(scene.tables.solid_spec(id) && n - 1 == edge_slice(normal)) {
            lemma_uniform_slice(scene, id, normal, n - 1);
        }
        let before = faces_before(scene, normal, n - 1);
        assert(before + Seq::empty() =~= before);
        assert(Seq::empty() + slice_faces(scene, normal, n - 1) =~= slice_faces(
            scene,
            normal,
            n - 1,
        ));
    }
}

proof fn lemma_uniform_slice(scene: Scene, id: BlockId, normal: Face, n: int)
    requires
        is_uniform(scene, id),
        0 <= n < 16,
        !(scene.tables.solid_spec(id) && n == edge_slice(normal)),
    ensures
        slice_faces(scene, normal, n) == Seq::<(Pass, Quad)>::empty(),
{
    let mask = slice_spec(scene, normal, n);
    assert forall|i: int| 0 <= i < MASK_CAP implies #[trigger] mask[i] == NO_FACE by {
        let p = point_spec(normal, n, i % 16, i / 16);
        assert(scene.cells.inner.cell(p.0, p.1, p.2) == id);
        if n != edge_slice(normal) {
            let q = point_spec(normal, n + step_of(normal), i % 16, i / 16);
            assert(scene.cells.inner.cell(q.0, q.1, q.2) == id);
        }
        assert(!scene.exposed(normal, n, i % 16, i / 16));
    }
    lemma_empty_slice(mask, 0);
    assert(slice_faces(scene, normal, n) =~= Seq::empty());
}

} // verus!
