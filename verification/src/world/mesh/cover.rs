//! What a mesh shows in space: which unit squares its quads cover, which way they face,
//! and what their corners see.
use vstd::prelude::*;

use crate::block::{BlockId, HotTables, Pass};
use crate::coord::Face;
use crate::world::mesh::face::{corner_spec, dir_face, point_spec, sign, step_of};
use crate::world::mesh::greedy::{
    cleared, grown, is_cover, lemma_grown, lemma_rects_cover, rects, Rect, MASK_CAP, NO_FACE,
};
use crate::world::mesh::sample::{
    lemma_pack_round_trip, pack_spec, unpack_spec, word, FaceSample, Scene,
};
use crate::world::mesh::sweep::{
    direction_faces, emitted, faces_before, is_uniform, lemma_uniform_mesh, mesh_spec, picked,
    quad_spec, slice_faces, slice_spec, sweep_spec, vertex_spec, ChunkMeshData, MeshVertex, Quad,
};

verus! {

/// The least of four coordinates.
pub open spec fn least(a: u8, b: u8, c: u8, d: u8) -> u8 {
    let e = if a <= b {
        a
    } else {
        b
    };
    let f = if c <= d {
        c
    } else {
        d
    };
    if e <= f {
        e
    } else {
        f
    }
}

/// The greatest of four coordinates.
pub open spec fn most(a: u8, b: u8, c: u8, d: u8) -> u8 {
    let e = if a >= b {
        a
    } else {
        b
    };
    let f = if c >= d {
        c
    } else {
        d
    };
    if e >= f {
        e
    } else {
        f
    }
}

impl Quad {
    /// The corner of the bounding box with the least coordinates.
    pub open spec fn low(self) -> (int, int, int) {
        (
            least(self.a.x, self.b.x, self.c.x, self.d.x) as int,
            least(self.a.y, self.b.y, self.c.y, self.d.y) as int,
            least(self.a.z, self.b.z, self.c.z, self.d.z) as int,
        )
    }

    /// The corner of the bounding box with the greatest coordinates.
    pub open spec fn high(self) -> (int, int, int) {
        (
            most(self.a.x, self.b.x, self.c.x, self.d.x) as int,
            most(self.a.y, self.b.y, self.c.y, self.d.y) as int,
            most(self.a.z, self.b.z, self.c.z, self.d.z) as int,
        )
    }

    /// Whether the quad covers the unit square that is the given side of the cell at
    /// `x, y, z`, facing out of it.
    pub open spec fn covers(self, face: Face, x: int, y: int, z: int) -> bool {
        let (d, lo, hi) = (face.offset_spec(), self.low(), self.high());
        &&& self.a.normal == face
        &&& reaches_over(lo.0, hi.0, x, d.0)
        &&& reaches_over(lo.1, hi.1, y, d.1)
        &&& reaches_over(lo.2, hi.2, z, d.2)
    }

    /// The corner with a number.
    pub open spec fn corner(self, i: int) -> MeshVertex {
        if i == 0 {
            self.a
        } else if i == 1 {
            self.b
        } else if i == 2 {
            self.c
        } else {
            self.d
        }
    }
}

/// Whether an extent along one axis holds a cell's side: all of it where the side lies
/// along the axis, and the border in the side's direction where it stands across.
pub open spec fn reaches_over(lo: int, hi: int, at: int, dir: i32) -> bool {
    if dir == 0 {
        lo <= at && at + 1 <= hi
    } else if dir > 0 {
        lo == at + 1 && hi == at + 1
    } else {
        lo == at && hi == at
    }
}

/// How many of some quads cover a side of a cell.
pub open spec fn times_covered(quads: Seq<Quad>, face: Face, x: int, y: int, z: int) -> nat
    decreases quads.len(),
{
    if quads.len() == 0 {
        0
    } else {
        times_covered(quads.drop_last(), face, x, y, z) + (if quads.last().covers(face, x, y, z) {
            1nat
        } else {
            0
        })
    }
}

/// Whether a side of a cell can be seen: the cell's block is solid, and the cell beyond
/// holds another block, one that is not opaque.
pub open spec fn is_seen(scene: Scene, face: Face, x: int, y: int, z: int) -> bool {
    let d = face.offset_spec();
    let here = scene.cells.inner.cell(x, y, z);
    let next = scene.cells.inner.cell(x + d.0, y + d.1, z + d.2);
    &&& scene.tables.solid@[here.0 as int]
    &&& !scene.tables.opaque@[next.0 as int]
    &&& next != here
}

/// How many faces of one pass cover a side of a cell.
spec fn times_in(faces: Seq<(Pass, Quad)>, pass: Pass, face: Face, x: int, y: int, z: int) -> nat
    decreases faces.len(),
{
    if faces.len() == 0 {
        0
    } else {
        times_in(faces.drop_last(), pass, face, x, y, z) + (if faces.last().0 == pass
            && faces.last().1.covers(face, x, y, z) {
            1nat
        } else {
            0
        })
    }
}

proof fn lemma_times_picked(faces: Seq<(Pass, Quad)>, pass: Pass, face: Face, x: int, y: int, z: int)
    ensures
        times_covered(picked(faces, pass), face, x, y, z) == times_in(faces, pass, face, x, y, z),
    decreases faces.len(),
{
    if faces.len() > 0 {
        lemma_times_picked(faces.drop_last(), pass, face, x, y, z);
        let rest = picked(faces.drop_last(), pass);
        if faces.last().0 == pass {
            assert(rest.push(faces.last().1).drop_last() =~= rest);
        }
    }
}

proof fn lemma_times_add(
    a: Seq<(Pass, Quad)>,
    b: Seq<(Pass, Quad)>,
    pass: Pass,
    face: Face,
    x: int,
    y: int,
    z: int,
)
    ensures
        times_in(a + b, pass, face, x, y, z) == times_in(a, pass, face, x, y, z) + times_in(
            b,
            pass,
            face,
            x,
            y,
            z,
        ),
    decreases b.len(),
{
    if b.len() == 0 {
        assert(a + b =~= a);
    } else {
        lemma_times_add(a, b.drop_last(), pass, face, x, y, z);
        assert((a + b).drop_last() =~= a + b.drop_last());
    }
}

/// No face that counts, none counted.
proof fn lemma_times_none(faces: Seq<(Pass, Quad)>, pass: Pass, face: Face, x: int, y: int, z: int)
    requires
        forall|k: int|
            0 <= k < faces.len() ==> !((#[trigger] faces[k]).0 == pass && faces[k].1.covers(
                face,
                x,
                y,
                z,
            )),
    ensures
        times_in(faces, pass, face, x, y, z) == 0,
    decreases faces.len(),
{
    if faces.len() > 0 {
        let rest = faces.drop_last();
        assert forall|k: int| 0 <= k < rest.len() implies !((#[trigger] rest[k]).0 == pass
            && rest[k].1.covers(face, x, y, z)) by {
            assert(rest[k] == faces[k]);
        }
        lemma_times_none(rest, pass, face, x, y, z);
        assert(faces[faces.len() - 1] == faces.last());
    }
}

/// One face that counts, one counted.
proof fn lemma_times_one(
    faces: Seq<(Pass, Quad)>,
    pass: Pass,
    face: Face,
    x: int,
    y: int,
    z: int,
    at: int,
)
    requires
        0 <= at < faces.len(),
        forall|k: int|
            0 <= k < faces.len() ==> ((#[trigger] faces[k]).0 == pass && faces[k].1.covers(
                face,
                x,
                y,
                z,
            ) <==> k == at),
    ensures
        times_in(faces, pass, face, x, y, z) == 1,
    decreases faces.len(),
{
    let rest = faces.drop_last();
    assert forall|k: int| 0 <= k < rest.len() implies #[trigger] rest[k] == faces[k] by {}
    assert(faces[faces.len() - 1] == faces.last());
    if at == faces.len() - 1 {
        lemma_times_none(rest, pass, face, x, y, z);
    } else {
        lemma_times_one(rest, pass, face, x, y, z, at);
    }
}

/// The components of a cell along a direction's axes: normal, u and v.
spec fn along(face: Face, x: int, y: int, z: int) -> (int, int, int) {
    match face {
        Face::NegX | Face::PosX => (x, z, y),
        Face::NegY | Face::PosY => (y, x, z),
        Face::NegZ | Face::PosZ => (z, x, y),
    }
}

proof fn lemma_along(face: Face, x: int, y: int, z: int)
    ensures
        ({
            let (n, u, v) = along(face, x, y, z);
            point_spec(face, n, u, v) == (x, y, z)
        }),
{
}

/// The quad of a rectangle covers the sides of the cells that the rectangle covers in its
/// slice, and no others.
proof fn lemma_quad_covers(
    tables: HotTables,
    normal: Face,
    n: int,
    r: Rect,
    face: Face,
    x: int,
    y: int,
    z: int,
)
    requires
        0 <= n < 16,
        r.u0 + r.w <= 16,
        r.v0 + r.h <= 16,
        r.w >= 1,
        r.h >= 1,
    ensures
        quad_spec(tables, normal, n, r).covers(face, x, y, z) <==> ({
            let (m, u, v) = along(face, x, y, z);
            face == normal && m == n && r.u0 <= u < r.u0 + r.w && r.v0 <= v < r.v0 + r.h
        }),
{
    let q = quad_spec(tables, normal, n, r);
    assert(q.a.normal == normal);
    if face == normal {
        lemma_quad_extent(tables, normal, n, r);
    }
}

proof fn lemma_quad_extent(tables: HotTables, normal: Face, n: int, r: Rect)
    requires
        0 <= n < 16,
        r.u0 + r.w <= 16,
        r.v0 + r.h <= 16,
        r.w >= 1,
        r.h >= 1,
    ensures
        ({
            let q = quad_spec(tables, normal, n, r);
            let m = match normal {
                Face::PosX | Face::PosY | Face::PosZ => n + 1,
                _ => n,
            };
            &&& q.low() == point_spec(normal, m, r.u0 as int, r.v0 as int)
            &&& q.high() == point_spec(normal, m, r.u0 + r.w, r.v0 + r.h)
        }),
{
}

/// A sample's word tells its block, and is never the empty one.
proof fn lemma_word_id(
    id: u64,
    a0: u64,
    a1: u64,
    a2: u64,
    a3: u64,
    s0: u64,
    s1: u64,
    s2: u64,
    s3: u64,
    b0: u64,
    b1: u64,
    b2: u64,
    b3: u64,
)
    by (bit_vector)
    requires
        id <= 0xFFFF,
        a0 <= 255,
        a1 <= 255,
        a2 <= 255,
        a3 <= 255,
        s0 <= 255,
        s1 <= 255,
        s2 <= 255,
        s3 <= 255,
        b0 <= 255,
        b1 <= 255,
        b2 <= 255,
        b3 <= 255,
    ensures
        word(id, a0, a1, a2, a3, s0, s1, s2, s3, b0, b1, b2, b3) & 0xFFFF == id,
        word(id, a0, a1, a2, a3, s0, s1, s2, s3, b0, b1, b2, b3) != 0xFFFF_FFFF_FFFF_FFFF,
{
}

proof fn lemma_pack_id(s: FaceSample)
    ensures
        unpack_spec(pack_spec(s)).id == s.id,
        pack_spec(s) != NO_FACE,
{
    lemma_word_id(
        s.id.0 as u64,
        s.ao.c0 as u64,
        s.ao.c1 as u64,
        s.ao.c2 as u64,
        s.ao.c3 as u64,
        s.sky.c0 as u64,
        s.sky.c1 as u64,
        s.sky.c2 as u64,
        s.sky.c3 as u64,
        s.block.c0 as u64,
        s.block.c1 as u64,
        s.block.c2 as u64,
        s.block.c3 as u64,
    );
}

/// The rectangles of a slice are not empty and lie in it.
proof fn lemma_rects_lie(mask: Seq<u64>, i: int, k: int)
    requires
        mask.len() == MASK_CAP,
        0 <= i <= MASK_CAP,
        0 <= k < rects(mask, i).len(),
    ensures
        ({
            let r = rects(mask, i)[k];
            &&& r.w >= 1
            &&& r.h >= 1
            &&& r.u0 + r.w <= 16
            &&& r.v0 + r.h <= 16
        }),
    decreases MASK_CAP - i,
{
    if i < MASK_CAP {
        if mask[i] == NO_FACE {
            lemma_rects_lie(mask, i + 1, k);
        } else {
            lemma_grown(mask, i);
            let next = cleared(mask, grown(mask, i));
            assert(rects(mask, i) =~= seq![grown(mask, i)] + rects(next, i + 1));
            if k > 0 {
                lemma_rects_lie(next, i + 1, k - 1);
                assert(rects(mask, i)[k] == rects(next, i + 1)[k - 1]);
            }
        }
    }
}

/// A rectangle's quad stands in its slice's faces at the rectangle's place.
proof fn lemma_slice_face(
    scene: Scene,
    normal: Face,
    n: int,
    face: Face,
    x: int,
    y: int,
    z: int,
    k: int,
)
    requires
        0 <= n < 16,
        0 <= k < rects(slice_spec(scene, normal, n), 0).len(),
    ensures
        ({
            let r = rects(slice_spec(scene, normal, n), 0)[k];
            let (m, u, v) = along(face, x, y, z);
            let f = slice_faces(scene, normal, n)[k];
            &&& f.0 == scene.tables.layer@[unpack_spec(r.key).id.0 as int]
            &&& f.1.covers(face, x, y, z) <==> face == normal && m == n && r.u0 <= u < r.u0 + r.w
                && r.v0 <= v < r.v0 + r.h
        }),
{
    let mask = slice_spec(scene, normal, n);
    let rs = rects(mask, 0);
    lemma_rects_lie(mask, 0, k);
    lemma_quad_covers(*scene.tables, normal, n, rs[k], face, x, y, z);
    assert(slice_faces(scene, normal, n)[k] == emitted(*scene.tables, normal, n, rs[k]));
}

/// What a slice holds at a place tells whether the side there is seen, and its block.
proof fn lemma_slice_place(scene: Scene, face: Face, x: int, y: int, z: int)
    requires
        0 <= x < 16,
        0 <= y < 16,
        0 <= z < 16,
    ensures
        ({
            let (n, u, v) = along(face, x, y, z);
            let key = slice_spec(scene, face, n)[u + v * 16];
            &&& (key != NO_FACE) == is_seen(scene, face, x, y, z)
            &&& key != NO_FACE ==> unpack_spec(key).id == scene.cells.inner.cell(x, y, z)
        }),
{
    let (n, u, v) = along(face, x, y, z);
    let c = u + v * 16;
    assert(c % 16 == u && c / 16 == v);
    lemma_along(face, x, y, z);
    assert(scene.exposed(face, n, u, v) == is_seen(scene, face, x, y, z));
    lemma_pack_id(scene.sample(face, n, u, v));
}

/// Where rectangles cover a place as they should, so do their faces.
proof fn lemma_count_cover(
    faces: Seq<(Pass, Quad)>,
    rs: Seq<Rect>,
    mask: Seq<u64>,
    c: int,
    pass: Pass,
    want: Pass,
    face: Face,
    x: int,
    y: int,
    z: int,
)
    requires
        faces.len() == rs.len(),
        is_cover(rs, mask, c),
        forall|k: int|
            0 <= k < rs.len() ==> (#[trigger] faces[k]).1.covers(face, x, y, z) == rs[k].covers(c)
                && (rs[k].covers(c) ==> faces[k].0 == want),
    ensures
        times_in(faces, pass, face, x, y, z) == (if mask[c] != NO_FACE && pass == want {
            1nat
        } else {
            0
        }),
{
    if mask[c] != NO_FACE && pass == want {
        let at = choose|k: int| 0 <= k < rs.len() && (#[trigger] rs[k]).covers(c);
        assert forall|k: int| 0 <= k < faces.len() implies ((#[trigger] faces[k]).0 == pass
            && faces[k].1.covers(face, x, y, z) <==> k == at) by {
            assert(rs[at].covers(c));
            if rs[k].covers(c) {
                assert(k == at);
            }
            assert(faces[at].0 == want);
        }
        lemma_times_one(faces, pass, face, x, y, z, at);
    } else {
        assert forall|k: int| 0 <= k < faces.len() implies !((#[trigger] faces[k]).0 == pass
            && faces[k].1.covers(face, x, y, z)) by {
            if rs[k].covers(c) {
                assert(mask[c] != NO_FACE);
            }
        }
        lemma_times_none(faces, pass, face, x, y, z);
    }
}

/// A slice covers the seen sides of its own cells once, in the pass of their block.
proof fn lemma_slice_covers(
    scene: Scene,
    normal: Face,
    n: int,
    pass: Pass,
    face: Face,
    x: int,
    y: int,
    z: int,
)
    requires
        0 <= n < 16,
        0 <= x < 16,
        0 <= y < 16,
        0 <= z < 16,
    ensures
        times_in(slice_faces(scene, normal, n), pass, face, x, y, z) == (if normal == face && along(
            face,
            x,
            y,
            z,
        ).0 == n && is_seen(scene, face, x, y, z) && pass
            == scene.tables.layer@[scene.cells.inner.cell(x, y, z).0 as int] {
            1nat
        } else {
            0
        }),
{
    let mask = slice_spec(scene, normal, n);
    let rs = rects(mask, 0);
    let faces = slice_faces(scene, normal, n);
    let (m, u, v) = along(face, x, y, z);
    let c = u + v * 16;
    assert(c % 16 == u && c / 16 == v);
    if face == normal && m == n {
        let want = scene.tables.layer@[scene.cells.inner.cell(x, y, z).0 as int];
        lemma_rects_cover(mask, c);
        lemma_slice_place(scene, face, x, y, z);
        assert forall|k: int| 0 <= k < rs.len() implies (#[trigger] faces[k]).1.covers(
            face,
            x,
            y,
            z,
        ) == rs[k].covers(c) && (rs[k].covers(c) ==> faces[k].0 == want) by {
            lemma_slice_face(scene, normal, n, face, x, y, z, k);
            if rs[k].covers(c) {
                assert(rs[k].key == mask[c]);
            }
        }
        lemma_count_cover(faces, rs, mask, c, pass, want, face, x, y, z);
    } else {
        assert forall|k: int| 0 <= k < faces.len() implies !((#[trigger] faces[k]).0 == pass
            && faces[k].1.covers(face, x, y, z)) by {
            lemma_slice_face(scene, normal, n, face, x, y, z, k);
        }
        lemma_times_none(faces, pass, face, x, y, z);
    }
}

proof fn lemma_slices_cover(
    scene: Scene,
    normal: Face,
    n: int,
    pass: Pass,
    face: Face,
    x: int,
    y: int,
    z: int,
)
    requires
        0 <= n <= 16,
        0 <= x < 16,
        0 <= y < 16,
        0 <= z < 16,
    ensures
        times_in(faces_before(scene, normal, n), pass, face, x, y, z) == (if normal == face && along(
            face,
            x,
            y,
            z,
        ).0 < n && is_seen(scene, face, x, y, z) && pass
            == scene.tables.layer@[scene.cells.inner.cell(x, y, z).0 as int] {
            1nat
        } else {
            0
        }),
    decreases n,
{
    if n > 0 {
        lemma_slices_cover(scene, normal, n - 1, pass, face, x, y, z);
        lemma_slice_covers(scene, normal, n - 1, pass, face, x, y, z);
        lemma_times_add(
            faces_before(scene, normal, n - 1),
            slice_faces(scene, normal, n - 1),
            pass,
            face,
            x,
            y,
            z,
        );
    }
}

/// The place of a direction in the sweep.
spec fn dir_no(face: Face) -> int {
    match face {
        Face::PosX => 0,
        Face::NegX => 1,
        Face::PosY => 2,
        Face::NegY => 3,
        Face::PosZ => 4,
        Face::NegZ => 5,
    }
}

proof fn lemma_sweep_covers(
    scene: Scene,
    d: int,
    pass: Pass,
    face: Face,
    x: int,
    y: int,
    z: int,
)
    requires
        0 <= d <= 6,
        0 <= x < 16,
        0 <= y < 16,
        0 <= z < 16,
    ensures
        times_in(sweep_spec(scene, false, d), pass, face, x, y, z) == (if dir_no(face) < d
            && is_seen(scene, face, x, y, z) && pass
            == scene.tables.layer@[scene.cells.inner.cell(x, y, z).0 as int] {
            1nat
        } else {
            0
        }),
    decreases d,
{
    if d > 0 {
        lemma_sweep_covers(scene, d - 1, pass, face, x, y, z);
        lemma_slices_cover(scene, dir_face(d - 1), 16, pass, face, x, y, z);
        lemma_times_add(
            sweep_spec(scene, false, d - 1),
            direction_faces(scene, false, dir_face(d - 1)),
            pass,
            face,
            x,
            y,
            z,
        );
        assert((dir_face(d - 1) == face) == (dir_no(face) == d - 1));
    }
}

/// The quads of a chunk cover exactly what can be seen of it. Every side of every cell
/// lies in the rectangle between the corners of exactly one quad that faces the same way
/// if it can be seen, and of none if it cannot; and the quad is drawn in the pass of the
/// cell's block.
pub proof fn lemma_mesh_covers_what_is_seen(
    scene: Scene,
    uniform: Option<BlockId>,
    mesh: ChunkMeshData,
    face: Face,
    x: int,
    y: int,
    z: int,
)
    requires
        mesh.holds(mesh_spec(scene, uniform)),
        uniform is Some ==> is_uniform(scene, uniform->0),
        0 <= x < 16,
        0 <= y < 16,
        0 <= z < 16,
    ensures
        ({
            let pass = scene.tables.layer@[scene.cells.inner.cell(x, y, z).0 as int];
            let once = |p: Pass|
                if is_seen(scene, face, x, y, z) && p == pass {
                    1nat
                } else {
                    0
                };
            &&& times_covered(mesh.opaque@, face, x, y, z) == once(Pass::Opaque)
            &&& times_covered(mesh.cutout@, face, x, y, z) == once(Pass::Cutout)
            &&& times_covered(mesh.blend@, face, x, y, z) == once(Pass::Blend)
        }),
{
    let faces = mesh_spec(scene, uniform);
    if uniform is Some {
        lemma_uniform_mesh(scene, uniform->0);
    }
    assert(faces == sweep_spec(scene, false, 6));
    lemma_sweep_covers(scene, 6, Pass::Opaque, face, x, y, z);
    lemma_sweep_covers(scene, 6, Pass::Cutout, face, x, y, z);
    lemma_sweep_covers(scene, 6, Pass::Blend, face, x, y, z);
    lemma_times_picked(faces, Pass::Opaque, face, x, y, z);
    lemma_times_picked(faces, Pass::Cutout, face, x, y, z);
    lemma_times_picked(faces, Pass::Blend, face, x, y, z);
}

/// Every face of a direction's first slices is that of a rectangle in one of them.
proof fn lemma_slice_origin(scene: Scene, normal: Face, n: int, k: int) -> (from: (int, int))
    requires
        0 <= n <= 16,
        0 <= k < faces_before(scene, normal, n).len(),
    ensures
        0 <= from.0 < n,
        0 <= from.1 < rects(slice_spec(scene, normal, from.0), 0).len(),
        faces_before(scene, normal, n)[k] == emitted(
            *scene.tables,
            normal,
            from.0,
            rects(slice_spec(scene, normal, from.0), 0)[from.1],
        ),
    decreases n,
{
    let before = faces_before(scene, normal, n - 1);
    if k < before.len() {
        lemma_slice_origin(scene, normal, n - 1, k)
    } else {
        (n - 1, k - before.len())
    }
}

/// Every face of a sweep is that of a rectangle in a slice of one direction.
proof fn lemma_face_origin(scene: Scene, d: int, k: int) -> (from: (Face, int, int))
    requires
        0 <= d <= 6,
        0 <= k < sweep_spec(scene, false, d).len(),
    ensures
        0 <= from.1 < 16,
        0 <= from.2 < rects(slice_spec(scene, from.0, from.1), 0).len(),
        sweep_spec(scene, false, d)[k] == emitted(
            *scene.tables,
            from.0,
            from.1,
            rects(slice_spec(scene, from.0, from.1), 0)[from.2],
        ),
    decreases d,
{
    let before = sweep_spec(scene, false, d - 1);
    if k < before.len() {
        lemma_face_origin(scene, d - 1, k)
    } else {
        let r = lemma_slice_origin(scene, dir_face(d - 1), 16, k - before.len());
        (dir_face(d - 1), r.0, r.1)
    }
}

/// Every face of a pass is one of all faces.
proof fn lemma_picked_from(faces: Seq<(Pass, Quad)>, pass: Pass, k: int) -> (at: int)
    requires
        0 <= k < picked(faces, pass).len(),
    ensures
        0 <= at < faces.len(),
        faces[at] == (pass, picked(faces, pass)[k]),
    decreases faces.len(),
{
    let rest = picked(faces.drop_last(), pass);
    if k < rest.len() {
        let at = lemma_picked_from(faces.drop_last(), pass, k);
        assert(faces.drop_last()[at] == faces[at]);
        at
    } else {
        faces.len() - 1
    }
}

/// The sign of a number.
pub open spec fn signum(v: int) -> int {
    if v > 0 {
        1
    } else if v < 0 {
        -1
    } else {
        0
    }
}

/// Where a turn from one direction into another points by the right-hand rule, for
/// directions along axes.
pub open spec fn turn(a: (int, int, int), b: (int, int, int)) -> (int, int, int) {
    (
        a.1 * b.2 - a.2 * b.1,
        a.2 * b.0 - a.0 * b.2,
        a.0 * b.1 - a.1 * b.0,
    )
}

/// The direction from one corner to another.
pub open spec fn heading(a: MeshVertex, b: MeshVertex) -> (int, int, int) {
    (signum(b.x - a.x), signum(b.y - a.y), signum(b.z - a.z))
}

/// Whether a quad is a proper face of a chunk: a rectangle with sides along two axes and
/// flat across its normal, inside the chunk's box and on a border of one of its cells, one
/// texture throughout, corners in order counter-clockwise seen from the side that its
/// normal points to, and its diagonal from the first corner to the third between the two
/// that are less shaded together.
pub open spec fn is_proper(q: Quad) -> bool {
    let (d, lo, hi) = (q.a.normal.offset_spec(), q.low(), q.high());
    &&& 0 <= lo.0 <= hi.0 <= 16 && 0 <= lo.1 <= hi.1 <= 16 && 0 <= lo.2 <= hi.2 <= 16
    &&& (lo.0 == hi.0) == (d.0 != 0) && (lo.1 == hi.1) == (d.1 != 0) && (lo.2 == hi.2) == (d.2 != 0)
    &&& d.0 > 0 ==> lo.0 >= 1
    &&& d.1 > 0 ==> lo.1 >= 1
    &&& d.2 > 0 ==> lo.2 >= 1
    &&& d.0 < 0 ==> hi.0 <= 15
    &&& d.1 < 0 ==> hi.1 <= 15
    &&& d.2 < 0 ==> hi.2 <= 15
    &&& q.a.x + q.c.x == q.b.x + q.d.x && q.a.y + q.c.y == q.b.y + q.d.y && q.a.z + q.c.z == q.b.z
        + q.d.z
    &&& turn(heading(q.a, q.b), heading(q.b, q.c)) == (d.0 as int, d.1 as int, d.2 as int)
    &&& q.b.normal == q.a.normal && q.c.normal == q.a.normal && q.d.normal == q.a.normal
    &&& q.b.layer == q.a.layer && q.c.layer == q.a.layer && q.d.layer == q.a.layer
    &&& q.b.fluid == q.a.fluid && q.c.fluid == q.a.fluid && q.d.fluid == q.a.fluid
    &&& q.a.ao + q.c.ao >= q.b.ao + q.d.ao
}

proof fn lemma_unit_product(a: int, b: int)
    by (nonlinear_arith)
    ensures
        a == 0 ==> a * b == 0,
        a == 1 ==> a * b == b,
        a == -1 ==> a * b == -b,
{
}

#[verifier::spinoff_prover]
proof fn lemma_quad_proper(tables: HotTables, normal: Face, n: int, r: Rect)
    requires
        0 <= n < 16,
        r.u0 + r.w <= 16,
        r.v0 + r.h <= 16,
        r.w >= 1,
        r.h >= 1,
    ensures
        is_proper(quad_spec(tables, normal, n, r)),
{
    lemma_quad_extent(tables, normal, n, r);
    let q = quad_spec(tables, normal, n, r);
    let (e, f) = (heading(q.a, q.b), heading(q.b, q.c));
    lemma_unit_product(e.1, f.2);
    lemma_unit_product(e.2, f.1);
    lemma_unit_product(e.2, f.0);
    lemma_unit_product(e.0, f.2);
    lemma_unit_product(e.0, f.1);
    lemma_unit_product(e.1, f.0);
}

/// Every quad of a chunk's mesh is a proper face of the chunk, so that it covers nothing
/// but sides of the chunk's own cells.
pub proof fn lemma_quads_are_proper(
    scene: Scene,
    uniform: Option<BlockId>,
    mesh: ChunkMeshData,
    q: Quad,
)
    requires
        mesh.holds(mesh_spec(scene, uniform)),
        uniform is Some ==> is_uniform(scene, uniform->0),
        mesh.opaque@.contains(q) || mesh.cutout@.contains(q) || mesh.blend@.contains(q),
    ensures
        is_proper(q),
{
    let (normal, n, r) = lemma_quad_origin(scene, uniform, mesh, q);
    lemma_quad_proper(*scene.tables, normal, n, r);
}

/// Every quad of a mesh is that of a rectangle in a slice.
proof fn lemma_quad_origin(
    scene: Scene,
    uniform: Option<BlockId>,
    mesh: ChunkMeshData,
    q: Quad,
) -> (from: (Face, int, Rect))
    requires
        mesh.holds(mesh_spec(scene, uniform)),
        uniform is Some ==> is_uniform(scene, uniform->0),
        mesh.opaque@.contains(q) || mesh.cutout@.contains(q) || mesh.blend@.contains(q),
    ensures
        0 <= from.1 < 16,
        rects(slice_spec(scene, from.0, from.1), 0).contains(from.2),
        from.2.w >= 1,
        from.2.h >= 1,
        from.2.u0 + from.2.w <= 16,
        from.2.v0 + from.2.h <= 16,
        q == quad_spec(*scene.tables, from.0, from.1, from.2),
{
    let faces = mesh_spec(scene, uniform);
    if uniform is Some {
        lemma_uniform_mesh(scene, uniform->0);
    }
    let pass = if mesh.opaque@.contains(q) {
        Pass::Opaque
    } else if mesh.cutout@.contains(q) {
        Pass::Cutout
    } else {
        Pass::Blend
    };
    let k = choose|k: int| 0 <= k < picked(faces, pass).len() && picked(faces, pass)[k] == q;
    let at = lemma_picked_from(faces, pass, k);
    let (normal, n, j) = lemma_face_origin(scene, 6, at);
    lemma_rects_lie(slice_spec(scene, normal, n), 0, j);
    (normal, n, rects(slice_spec(scene, normal, n), 0)[j])
}

/// Which side of an extent a corner is on: one for the far side, minus one for the near
/// side, and zero where there is no extent.
pub open spec fn side(at: u8, lo: int, hi: int) -> int {
    if lo == hi {
        0
    } else if at == hi {
        1
    } else {
        -1
    }
}

/// Whether every level of the light is in range.
pub open spec fn levels_in_range(scene: Scene) -> bool {
    scene.light is Some ==> forall|x: int, y: int, z: int|
        #![trigger scene.light->0.inner.cell(x, y, z)]
        scene.light->0.inner.cell(x, y, z).sky.value() <= 15 && scene.light->0.inner.cell(
            x,
            y,
            z,
        ).block.value() <= 15
}

/// The steps from the cell in front of a face to the three other cells that touch a
/// corner of the face: along one axis, along the other, and along both.
pub open spec fn around(face: Face, s: (int, int, int)) -> Seq<(int, int, int)> {
    let d = face.offset_spec();
    if d.0 != 0 {
        seq![(0, s.1, 0), (0, 0, s.2), (0, s.1, s.2)]
    } else if d.1 != 0 {
        seq![(s.0, 0, 0), (0, 0, s.2), (s.0, 0, s.2)]
    } else {
        seq![(s.0, 0, 0), (0, s.1, 0), (s.0, s.1, 0)]
    }
}

/// One for an opaque cell, else zero.
pub open spec fn blocks(scene: Scene, x: int, y: int, z: int) -> int {
    if scene.tables.opaque@[scene.cells.inner.cell(x, y, z).0 as int] {
        1
    } else {
        0
    }
}

/// The light of a kind in a cell, none where it is opaque.
pub open spec fn shows(scene: Scene, sky: bool, x: int, y: int, z: int) -> int {
    let c = scene.light->0.inner.cell(x, y, z);
    if blocks(scene, x, y, z) == 1 {
        0
    } else if sky {
        c.sky.value() as int
    } else {
        c.block.value() as int
    }
}

/// Whether a corner of a quad sees what touches it in space, in front of the cell at
/// `x, y, z`: it is shaded by the opaque ones among the three cells beside it, fully
/// where those along both axes are opaque, and has the mean light of the cells that are
/// not.
pub open spec fn sees_its_corner(
    scene: Scene,
    q: Quad,
    w: MeshVertex,
    x: int,
    y: int,
    z: int,
) -> bool {
    let (lo, hi, d) = (q.low(), q.high(), q.a.normal.offset_spec());
    let s = (side(w.x, lo.0, hi.0), side(w.y, lo.1, hi.1), side(w.z, lo.2, hi.2));
    let t = around(q.a.normal, s);
    let (ox, oy, oz) = (x + d.0, y + d.1, z + d.2);
    let b1 = blocks(scene, ox + t[0].0, oy + t[0].1, oz + t[0].2);
    let b2 = blocks(scene, ox + t[1].0, oy + t[1].1, oz + t[1].2);
    let b3 = blocks(scene, ox + t[2].0, oy + t[2].1, oz + t[2].2);
    let sum = |sky: bool|
        shows(scene, sky, ox, oy, oz) + shows(scene, sky, ox + t[0].0, oy + t[0].1, oz + t[0].2)
            + shows(scene, sky, ox + t[1].0, oy + t[1].1, oz + t[1].2) + shows(
            scene,
            sky,
            ox + t[2].0,
            oy + t[2].1,
            oz + t[2].2,
        );
    &&& !scene.tables.ao ==> w.ao == 3
    &&& scene.tables.ao && b1 == 1 && b2 == 1 ==> w.ao == 0
    &&& scene.tables.ao && !(b1 == 1 && b2 == 1) ==> w.ao == 3 - b1 - b2 - b3
    &&& scene.light is None ==> w.sky == 15 && w.block == 15
    &&& scene.light is Some ==> w.sky == sum(true) / (4 - b1 - b2 - b3) && w.block == sum(false)
        / (4 - b1 - b2 - b3)
}

proof fn lemma_mean(sum: int, count: int)
    by (nonlinear_arith)
    requires
        1 <= count,
        0 <= sum <= 15 * count,
    ensures
        0 <= sum / count <= 15,
{
}

/// A seen face's sample is in range.
proof fn lemma_light_in_range(
    scene: Scene,
    sky: bool,
    face: Face,
    m: int,
    u: int,
    v: int,
    i: int,
)
    requires
        levels_in_range(scene),
        !scene.opaque_at(face, m, u, v),
    ensures
        scene.corner_light(sky, face, m, u, v, i) <= 15,
        scene.light is Some ==> ({
            let c = corner_spec(face, i);
            let (su, sv) = (sign(c.1), sign(c.2));
            let l = *scene.light->0;
            let a = scene.share(l, sky, face, m, u, v);
            let b = scene.share(l, sky, face, m, u + su, v);
            let d = scene.share(l, sky, face, m, u, v + sv);
            let e = scene.share(l, sky, face, m, u + su, v + sv);
            scene.corner_light(sky, face, m, u, v, i) == (a.0 + b.0 + d.0 + e.0) / (a.1 + b.1 + d.1
                + e.1)
        }),
{
    if scene.light is Some {
        let c = corner_spec(face, i);
        let (su, sv) = (sign(c.1), sign(c.2));
        let l = *scene.light->0;
        lemma_share_in_range(scene, sky, face, m, u, v);
        lemma_share_in_range(scene, sky, face, m, u + su, v);
        lemma_share_in_range(scene, sky, face, m, u, v + sv);
        lemma_share_in_range(scene, sky, face, m, u + su, v + sv);
        let a = scene.share(l, sky, face, m, u, v);
        let b = scene.share(l, sky, face, m, u + su, v);
        let d = scene.share(l, sky, face, m, u, v + sv);
        let e = scene.share(l, sky, face, m, u + su, v + sv);
        lemma_mean(a.0 + b.0 + d.0 + e.0, a.1 + b.1 + d.1 + e.1);
    }
}

proof fn lemma_share_in_range(scene: Scene, sky: bool, face: Face, m: int, u: int, v: int)
    requires
        levels_in_range(scene),
        scene.light is Some,
    ensures
        ({
            let s = scene.share(*scene.light->0, sky, face, m, u, v);
            0 <= s.1 <= 1 && 0 <= s.0 <= 15 * s.1
        }),
{
    let p = point_spec(face, m, u, v);
    assert(scene.light->0.inner.cell(p.0, p.1, p.2).sky.value() <= 15);
}

/// What a cell of a face's layer adds to a corner, in space.
proof fn lemma_share_in_space(scene: Scene, sky: bool, face: Face, m: int, u: int, v: int)
    requires
        scene.light is Some,
    ensures
        ({
            let p = point_spec(face, m, u, v);
            scene.share(*scene.light->0, sky, face, m, u, v) == (
                shows(scene, sky, p.0, p.1, p.2),
                1 - blocks(scene, p.0, p.1, p.2),
            )
        }),
{
}

/// A seen face's sample comes back from its rectangle's word.
proof fn lemma_sample_back(scene: Scene, face: Face, n: int, u: int, v: int)
    requires
        levels_in_range(scene),
        scene.exposed(face, n, u, v),
    ensures
        unpack_spec(pack_spec(scene.sample(face, n, u, v))) == scene.sample(face, n, u, v),
{
    let m = n + step_of(face);
    assert(!scene.opaque_at(face, m, u, v));
    lemma_light_in_range(scene, true, face, m, u, v, 0);
    lemma_light_in_range(scene, true, face, m, u, v, 1);
    lemma_light_in_range(scene, true, face, m, u, v, 2);
    lemma_light_in_range(scene, true, face, m, u, v, 3);
    lemma_light_in_range(scene, false, face, m, u, v, 0);
    lemma_light_in_range(scene, false, face, m, u, v, 1);
    lemma_light_in_range(scene, false, face, m, u, v, 2);
    lemma_light_in_range(scene, false, face, m, u, v, 3);
    lemma_pack_round_trip(scene.sample(face, n, u, v));
}

/// A corner of a face is on the sides of its quad that its components say.
proof fn lemma_vertex_sides(tables: HotTables, face: Face, n: int, r: Rect, j: int)
    requires
        0 <= n < 16,
        r.u0 + r.w <= 16,
        r.v0 + r.h <= 16,
        r.w >= 1,
        r.h >= 1,
        0 <= j < 4,
    ensures
        ({
            let q = quad_spec(tables, face, n, r);
            let w = vertex_spec(tables, face, n, r, unpack_spec(r.key), j);
            let (lo, hi, c) = (q.low(), q.high(), corner_spec(face, j));
            (side(w.x, lo.0, hi.0), side(w.y, lo.1, hi.1), side(w.z, lo.2, hi.2)) == point_spec(
                face,
                0,
                sign(c.1) as int,
                sign(c.2) as int,
            )
        }),
{
    lemma_quad_extent(tables, face, n, r);
}

/// The cells that touch a corner, along a direction's axes and in space.
proof fn lemma_around(face: Face, n: int, u: int, v: int, su: int, sv: int)
    ensures
        ({
            let (p, d) = (point_spec(face, n, u, v), face.offset_spec());
            let o = (p.0 + d.0, p.1 + d.1, p.2 + d.2);
            let m = n + step_of(face);
            let t = around(face, point_spec(face, 0, su, sv));
            let q1 = (o.0 + t[0].0, o.1 + t[0].1, o.2 + t[0].2);
            let q2 = (o.0 + t[1].0, o.1 + t[1].1, o.2 + t[1].2);
            let q3 = (o.0 + t[2].0, o.1 + t[2].1, o.2 + t[2].2);
            let (pu, pv) = (point_spec(face, m, u + su, v), point_spec(face, m, u, v + sv));
            &&& o == point_spec(face, m, u, v)
            &&& (q1 == pu && q2 == pv) || (q1 == pv && q2 == pu)
            &&& q3 == point_spec(face, m, u + su, v + sv)
        }),
{
}

/// Corner `j` of a face sees what touches it in space.
#[verifier::spinoff_prover]
proof fn lemma_vertex_sees(
    scene: Scene,
    face: Face,
    n: int,
    r: Rect,
    u: int,
    v: int,
    q: Quad,
    w: MeshVertex,
    j: int,
)
    requires
        levels_in_range(scene),
        scene.exposed(face, n, u, v),
        q.a.normal == face,
        ({
            let (lo, hi, c) = (q.low(), q.high(), corner_spec(face, j));
            (side(w.x, lo.0, hi.0), side(w.y, lo.1, hi.1), side(w.z, lo.2, hi.2)) == point_spec(
                face,
                0,
                sign(c.1) as int,
                sign(c.2) as int,
            )
        }),
        w.ao == scene.corner_ao(face, n + step_of(face), u, v, j),
        w.sky == scene.corner_light(true, face, n + step_of(face), u, v, j),
        w.block == scene.corner_light(false, face, n + step_of(face), u, v, j),
    ensures
        ({
            let p = point_spec(face, n, u, v);
            sees_its_corner(scene, q, w, p.0, p.1, p.2)
        }),
{
    let c = corner_spec(face, j);
    let (su, sv) = (sign(c.1) as int, sign(c.2) as int);
    let m = n + step_of(face);
    lemma_around(face, n, u, v, su, sv);
    assert(!scene.opaque_at(face, m, u, v));
    if scene.light is Some {
        lemma_light_in_range(scene, true, face, m, u, v, j);
        lemma_light_in_range(scene, false, face, m, u, v, j);
        lemma_share_in_space(scene, true, face, m, u, v);
        lemma_share_in_space(scene, true, face, m, u + su, v);
        lemma_share_in_space(scene, true, face, m, u, v + sv);
        lemma_share_in_space(scene, true, face, m, u + su, v + sv);
        lemma_share_in_space(scene, false, face, m, u, v);
        lemma_share_in_space(scene, false, face, m, u + su, v);
        lemma_share_in_space(scene, false, face, m, u, v + sv);
        lemma_share_in_space(scene, false, face, m, u + su, v + sv);
    }
}

/// A corner of a face has the shade and light of its sample there.
proof fn lemma_vertex_values(tables: HotTables, face: Face, n: int, r: Rect, s: FaceSample, j: int)
    requires
        0 <= j < 4,
        unpack_spec(r.key) == s,
    ensures
        ({
            let w = vertex_spec(tables, face, n, r, unpack_spec(r.key), j);
            w.ao == s.ao.of(j) && w.sky == s.sky.of(j) && w.block == s.block.of(j)
        }),
        quad_spec(tables, face, n, r).a.normal == face,
{
}

#[verifier::spinoff_prover]
proof fn lemma_corner_sees(scene: Scene, face: Face, n: int, r: Rect, u: int, v: int, j: int)
    requires
        0 <= n < 16,
        r.u0 + r.w <= 16,
        r.v0 + r.h <= 16,
        r.w >= 1,
        r.h >= 1,
        0 <= j < 4,
        levels_in_range(scene),
        scene.exposed(face, n, u, v),
        unpack_spec(r.key) == scene.sample(face, n, u, v),
    ensures
        ({
            let p = point_spec(face, n, u, v);
            sees_its_corner(
                scene,
                quad_spec(*scene.tables, face, n, r),
                vertex_spec(*scene.tables, face, n, r, unpack_spec(r.key), j),
                p.0,
                p.1,
                p.2,
            )
        }),
{
    let q = quad_spec(*scene.tables, face, n, r);
    let w = vertex_spec(*scene.tables, face, n, r, unpack_spec(r.key), j);
    lemma_vertex_sides(*scene.tables, face, n, r, j);
    lemma_vertex_values(*scene.tables, face, n, r, scene.sample(face, n, u, v), j);
    assert(w.ao == scene.corner_ao(face, n + step_of(face), u, v, j));
    assert(w.sky == scene.corner_light(true, face, n + step_of(face), u, v, j));
    assert(w.block == scene.corner_light(false, face, n + step_of(face), u, v, j));
    lemma_vertex_sees(scene, face, n, r, u, v, q, w, j);
}

/// Every corner of every quad sees the cells that touch it in space, in front of each cell
/// that the quad covers a side of, and the quad has that cell's texture.
pub proof fn lemma_corners_see_what_touches_them(
    scene: Scene,
    uniform: Option<BlockId>,
    mesh: ChunkMeshData,
    q: Quad,
    x: int,
    y: int,
    z: int,
)
    requires
        mesh.holds(mesh_spec(scene, uniform)),
        uniform is Some ==> is_uniform(scene, uniform->0),
        mesh.opaque@.contains(q) || mesh.cutout@.contains(q) || mesh.blend@.contains(q),
        scene.tables.wf(),
        levels_in_range(scene),
        0 <= x < 16,
        0 <= y < 16,
        0 <= z < 16,
        q.covers(q.a.normal, x, y, z),
    ensures
        sees_its_corner(scene, q, q.a, x, y, z),
        sees_its_corner(scene, q, q.b, x, y, z),
        sees_its_corner(scene, q, q.c, x, y, z),
        sees_its_corner(scene, q, q.d, x, y, z),
        q.a.layer == scene.cells.inner.cell(x, y, z).0 % scene.tables.layer_cap,
        q.a.fluid == scene.tables.fluid_surface@[scene.cells.inner.cell(x, y, z).0 as int],
{
    let (face, n, r) = lemma_quad_origin(scene, uniform, mesh, q);
    let mask = slice_spec(scene, face, n);
    lemma_quad_covers(*scene.tables, face, n, r, face, x, y, z);
    let (m, u, v) = along(face, x, y, z);
    let c = u + v * 16;
    assert(c % 16 == u && c / 16 == v);
    lemma_along(face, x, y, z);
    lemma_rects_cover(mask, c);
    let k = choose|k: int| 0 <= k < rects(mask, 0).len() && rects(mask, 0)[k] == r;
    assert(rects(mask, 0)[k].covers(c));
    assert(r.key == mask[c]);
    assert(scene.exposed(face, n, u, v));
    lemma_sample_back(scene, face, n, u, v);
    lemma_corner_sees(scene, face, n, r, u, v, 0);
    lemma_corner_sees(scene, face, n, r, u, v, 1);
    lemma_corner_sees(scene, face, n, r, u, v, 2);
    lemma_corner_sees(scene, face, n, r, u, v, 3);
}

} // verus!
