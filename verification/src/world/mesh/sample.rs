//! What one face looks like: its block and, at each corner, its shade and light.
use vstd::prelude::*;

use crate::block::{BlockId, HotTables};
use crate::coord::Face;
use crate::world::chunk::Chunk;
use crate::world::light::{LightGrid, LightLevel, Lumel, MAX_LIGHT};
use crate::world::mesh::face::{
    corner_spec, corner_uv, covered, covered_spec, point, point_spec, sign, step_of, vertex_ao,
    vertex_ao_spec, Dir,
};
use crate::world::mesh::greedy::NO_FACE;
use crate::world::neighborhood::{answered, padded, shown, Neighborhood};

verus! {

/// A chunk's blocks with a shell of its neighbours' blocks.
pub struct Padded {
    pub inner: Neighborhood<BlockId>,
}

impl Padded {
    /// Copies a chunk and its shell from the 27 chunks around it; a missing chunk
    /// shows air.
    pub fn capture<'a, F: Fn(i32, i32, i32) -> Option<&'a Chunk>>(chunk_at: F) -> (p: Self)
        requires
            forall|dx: i32, dy: i32, dz: i32|
                -1 <= dx <= 1 && -1 <= dy <= 1 && -1 <= dz <= 1 ==> #[trigger] call_requires(
                    chunk_at,
                    (dx, dy, dz),
                ),
            forall|dx: i32, dy: i32, dz: i32, c: &Chunk| #[trigger]
                call_ensures(chunk_at, (dx, dy, dz), Some(c)) ==> c.wf(),
        ensures
            p.inner.wf(),
            exists|boxes: Seq<Option<&'a Chunk>>| #[trigger]
                answered(chunk_at, boxes) && forall|x: int, y: int, z: int|
                    padded(x) && padded(y) && padded(z) ==> #[trigger] p.inner.cell(x, y, z)
                        == shown(BlockId::air_spec(), boxes, x, y, z),
    {
        Padded { inner: Neighborhood::capture(BlockId::air(), chunk_at) }
    }
}

/// A chunk's light with a shell of its neighbours' light.
pub struct PaddedLight {
    pub inner: Neighborhood<Lumel>,
}

impl PaddedLight {
    /// Whether every cell has the same two levels.
    pub open spec fn is_flat(self, v: (u8, u8)) -> bool {
        forall|x: int, y: int, z: int|
            padded(x) && padded(y) && padded(z) ==> (#[trigger] self.inner.cell(x, y, z))@ == v
    }

    /// No light anywhere.
    pub fn dark() -> (p: Self)
        ensures
            p.inner.wf(),
            p.is_flat((0u8, 0u8)),
    {
        PaddedLight { inner: Neighborhood::filled(Lumel::dark()) }
    }

    /// The brightest light of both kinds everywhere.
    pub fn full() -> (p: Self)
        ensures
            p.inner.wf(),
            p.is_flat((MAX_LIGHT, MAX_LIGHT)),
    {
        PaddedLight { inner: Neighborhood::filled(Lumel::full()) }
    }

    /// Full sky light and no block light everywhere.
    pub fn open_sky() -> (p: Self)
        ensures
            p.inner.wf(),
            p.is_flat((MAX_LIGHT, 0u8)),
    {
        PaddedLight {
            inner: Neighborhood::filled(
                Lumel { sky: LightLevel::full(), block: LightLevel::dark() },
            ),
        }
    }

    /// The light that `f` gives at each of `-1..=16` along the axes.
    pub fn from_fn<F: Fn(i32, i32, i32) -> Lumel>(f: F) -> (p: Self)
        requires
            forall|x: i32, y: i32, z: i32|
                padded(x as int) && padded(y as int) && padded(z as int)
                    ==> #[trigger] call_requires(f, (x, y, z)),
        ensures
            p.inner.wf(),
            forall|x: i32, y: i32, z: i32|
                padded(x as int) && padded(y as int) && padded(z as int) ==> call_ensures(
                    f,
                    (x, y, z),
                    #[trigger] p.inner.cell(x as int, y as int, z as int),
                ),
    {
        PaddedLight { inner: Neighborhood::from_fn(f) }
    }

    /// The light at `x, y, z`, each in `-1..=16`.
    pub fn at(&self, x: i32, y: i32, z: i32) -> (l: Lumel)
        requires
            self.inner.wf(),
            padded(x as int),
            padded(y as int),
            padded(z as int),
        ensures
            l == self.inner.cell(x as int, y as int, z as int),
    {
        self.inner.at(x, y, z)
    }

    /// Copies a chunk's light and its shell from the 27 grids around it; a missing grid
    /// is dark.
    pub fn capture<'a, F: Fn(i32, i32, i32) -> Option<&'a LightGrid>>(grid_at: F) -> (p: Self)
        requires
            forall|dx: i32, dy: i32, dz: i32|
                -1 <= dx <= 1 && -1 <= dy <= 1 && -1 <= dz <= 1 ==> #[trigger] call_requires(
                    grid_at,
                    (dx, dy, dz),
                ),
            forall|dx: i32, dy: i32, dz: i32, g: &LightGrid| #[trigger]
                call_ensures(grid_at, (dx, dy, dz), Some(g)) ==> g.wf(),
        ensures
            p.inner.wf(),
            exists|boxes: Seq<Option<&'a LightGrid>>, dark: Lumel|
                #![trigger answered(grid_at, boxes), dark@]
                answered(grid_at, boxes) && dark@ == (0u8, 0u8) && forall|x: int, y: int, z: int|
                    padded(x) && padded(y) && padded(z) ==> #[trigger] p.inner.cell(x, y, z)
                        == shown(dark, boxes, x, y, z),
    {
        let dark = Lumel::dark();
        let inner = Neighborhood::capture(dark, grid_at);
        proof {
            assert(dark@ == (0u8, 0u8));
        }
        PaddedLight { inner }
    }
}

/// A value for each corner of a face.
#[derive(Clone, Copy, PartialEq, Eq, Debug, Structural)]
pub struct Four {
    pub c0: u8,
    pub c1: u8,
    pub c2: u8,
    pub c3: u8,
}

impl Four {
    /// The value of a corner.
    pub open spec fn of(self, i: int) -> u8 {
        if i == 0 {
            self.c0
        } else if i == 1 {
            self.c1
        } else if i == 2 {
            self.c2
        } else {
            self.c3
        }
    }

    /// The value of a corner.
    pub fn get(&self, i: usize) -> (v: u8)
        ensures
            v == self.of(i as int),
    {
        if i == 0 {
            self.c0
        } else if i == 1 {
            self.c1
        } else if i == 2 {
            self.c2
        } else {
            self.c3
        }
    }

    /// Whether no value is above `max`.
    pub open spec fn at_most(self, max: u8) -> bool {
        self.c0 <= max && self.c1 <= max && self.c2 <= max && self.c3 <= max
    }
}

/// What faces must share to merge: the block and each corner's shade, sky light and
/// block light.
#[derive(Clone, Copy, PartialEq, Eq, Debug, Structural)]
pub struct FaceSample {
    pub id: BlockId,
    pub ao: Four,
    pub sky: Four,
    pub block: Four,
}

impl FaceSample {
    pub open spec fn wf(self) -> bool {
        self.ao.at_most(3) && self.sky.at_most(15) && self.block.at_most(15)
    }
}

/// A word made of a block id and corner values.
pub open spec fn word(
    id: u64,
    a0: u64,
    a1: u64,
    a2: u64,
    a3: u64,
    s0: u64,
    s1: u64,
    s2: u64,
    s3: u64,
    b0: u64,
    b1: u64,
    b2: u64,
    b3: u64,
) -> u64 {
    id | (a0 << 16) | (a1 << 18) | (a2 << 20) | (a3 << 22) | (s0 << 24) | (s1 << 28) | (s2 << 32)
        | (s3 << 36) | (b0 << 40) | (b1 << 44) | (b2 << 48) | (b3 << 52)
}

proof fn lemma_word(
    id: u64,
    a0: u64,
    a1: u64,
    a2: u64,
    a3: u64,
    s0: u64,
    s1: u64,
    s2: u64,
    s3: u64,
    b0: u64,
    b1: u64,
    b2: u64,
    b3: u64,
)
    by (bit_vector)
    requires
        id <= 0xFFFF,
        a0 <= 3,
        a1 <= 3,
        a2 <= 3,
        a3 <= 3,
        s0 <= 15,
        s1 <= 15,
        s2 <= 15,
        s3 <= 15,
        b0 <= 15,
        b1 <= 15,
        b2 <= 15,
        b3 <= 15,
    ensures
        ({
            let w = word(id, a0, a1, a2, a3, s0, s1, s2, s3, b0, b1, b2, b3);
            &&& w & 0xFFFF == id
            &&& (w >> 16) & 3 == a0
            &&& (w >> 18) & 3 == a1
            &&& (w >> 20) & 3 == a2
            &&& (w >> 22) & 3 == a3
            &&& (w >> 24) & 15 == s0
            &&& (w >> 28) & 15 == s1
            &&& (w >> 32) & 15 == s2
            &&& (w >> 36) & 15 == s3
            &&& (w >> 40) & 15 == b0
            &&& (w >> 44) & 15 == b1
            &&& (w >> 48) & 15 == b2
            &&& (w >> 52) & 15 == b3
            &&& w != 0xFFFF_FFFF_FFFF_FFFF
        }),
{
}

/// A sample as one word.
pub open spec fn pack_spec(s: FaceSample) -> u64 {
    word(
        s.id.0 as u64,
        s.ao.c0 as u64,
        s.ao.c1 as u64,
        s.ao.c2 as u64,
        s.ao.c3 as u64,
        s.sky.c0 as u64,
        s.sky.c1 as u64,
        s.sky.c2 as u64,
        s.sky.c3 as u64,
        s.block.c0 as u64,
        s.block.c1 as u64,
        s.block.c2 as u64,
        s.block.c3 as u64,
    )
}

/// The sample of a word.
pub open spec fn unpack_spec(w: u64) -> FaceSample {
    FaceSample {
        id: BlockId((w & 0xFFFF) as u16),
        ao: Four {
            c0: ((w >> 16) & 3) as u8,
            c1: ((w >> 18) & 3) as u8,
            c2: ((w >> 20) & 3) as u8,
            c3: ((w >> 22) & 3) as u8,
        },
        sky: Four {
            c0: ((w >> 24) & 15) as u8,
            c1: ((w >> 28) & 15) as u8,
            c2: ((w >> 32) & 15) as u8,
            c3: ((w >> 36) & 15) as u8,
        },
        block: Four {
            c0: ((w >> 40) & 15) as u8,
            c1: ((w >> 44) & 15) as u8,
            c2: ((w >> 48) & 15) as u8,
            c3: ((w >> 52) & 15) as u8,
        },
    }
}

/// A sample comes back from its word, and no word is the empty one.
pub proof fn lemma_pack_round_trip(s: FaceSample)
    requires
        s.wf(),
    ensures
        unpack_spec(pack_spec(s)) == s,
        pack_spec(s) != NO_FACE,
{
    lemma_word(
        s.id.0 as u64,
        s.ao.c0 as u64,
        s.ao.c1 as u64,
        s.ao.c2 as u64,
        s.ao.c3 as u64,
        s.sky.c0 as u64,
        s.sky.c1 as u64,
        s.sky.c2 as u64,
        s.sky.c3 as u64,
        s.block.c0 as u64,
        s.block.c1 as u64,
        s.block.c2 as u64,
        s.block.c3 as u64,
    );
}

/// A sample as one word.
pub fn pack_sample(s: FaceSample) -> (w: u64)
    ensures
        w == pack_spec(s),
{
    (s.id.0 as u64) | ((s.ao.c0 as u64) << 16) | ((s.ao.c1 as u64) << 18) | ((s.ao.c2 as u64)
        << 20) | ((s.ao.c3 as u64) << 22) | ((s.sky.c0 as u64) << 24) | ((s.sky.c1 as u64) << 28)
        | ((s.sky.c2 as u64) << 32) | ((s.sky.c3 as u64) << 36) | ((s.block.c0 as u64) << 40) | ((
    s.block.c1 as u64) << 44) | ((s.block.c2 as u64) << 48) | ((s.block.c3 as u64) << 52)
}

/// The sample of a word.
pub fn unpack_sample(w: u64) -> (s: FaceSample)
    ensures
        s == unpack_spec(w),
{
    FaceSample {
        id: BlockId((w & 0xFFFF) as u16),
        ao: Four {
            c0: ((w >> 16) & 3) as u8,
            c1: ((w >> 18) & 3) as u8,
            c2: ((w >> 20) & 3) as u8,
            c3: ((w >> 22) & 3) as u8,
        },
        sky: Four {
            c0: ((w >> 24) & 15) as u8,
            c1: ((w >> 28) & 15) as u8,
            c2: ((w >> 32) & 15) as u8,
            c3: ((w >> 36) & 15) as u8,
        },
        block: Four {
            c0: ((w >> 40) & 15) as u8,
            c1: ((w >> 44) & 15) as u8,
            c2: ((w >> 48) & 15) as u8,
            c3: ((w >> 52) & 15) as u8,
        },
    }
}

/// The mean of `count` levels, rounded down.
pub fn avg_light(sum: u32, count: u32) -> (v: u8)
    requires
        1 <= count <= 4,
        sum <= 15 * count,
    ensures
        v == sum as int / count as int,
        v <= 15,
{
    if count == 1 {
        sum as u8
    } else if count == 2 {
        (sum / 2) as u8
    } else if count == 3 {
        (sum / 3) as u8
    } else {
        (sum / 4) as u8
    }
}

/// What a chunk is meshed from.
pub struct Scene<'a> {
    pub cells: &'a Padded,
    pub light: Option<&'a PaddedLight>,
    pub tables: &'a HotTables,
}

impl<'a> Scene<'a> {
    /// Whether the tables describe every block, and the light covers every cell.
    pub open spec fn wf(self) -> bool {
        &&& self.cells.inner.wf()
        &&& self.light matches Some(l) ==> l.inner.wf()
        &&& self.tables.wf()
        &&& forall|x: int, y: int, z: int|
            padded(x) && padded(y) && padded(z) ==> (#[trigger] self.cells.inner.cell(x, y, z)).0
                < self.tables.count()
    }

    /// The block at components along a direction's axes.
    pub open spec fn block(self, normal: Face, n: int, u: int, v: int) -> BlockId {
        let p = point_spec(normal, n, u, v);
        self.cells.inner.cell(p.0, p.1, p.2)
    }

    /// Whether the cell at components along a direction's axes is opaque.
    pub open spec fn opaque_at(self, normal: Face, n: int, u: int, v: int) -> bool {
        self.tables.opaque_spec(self.block(normal, n, u, v))
    }

    /// The light of a kind at components along a direction's axes.
    pub open spec fn level(self, l: PaddedLight, sky: bool, normal: Face, n: int, u: int, v: int) -> u8 {
        let p = point_spec(normal, n, u, v);
        let c = l.inner.cell(p.0, p.1, p.2);
        if sky {
            c.sky.value()
        } else {
            c.block.value()
        }
    }

    /// The shade of corner `i` of the face that opens into layer `m`.
    pub open spec fn corner_ao(self, normal: Face, m: int, u: int, v: int, i: int) -> u8 {
        if self.tables.ao {
            let c = corner_spec(normal, i);
            let (su, sv) = (sign(c.1), sign(c.2));
            vertex_ao_spec(
                self.opaque_at(normal, m, u + su, v),
                self.opaque_at(normal, m, u, v + sv),
                self.opaque_at(normal, m, u + su, v + sv),
            )
        } else {
            3
        }
    }

    /// The share of one cell in a corner's light: its level, and one where it counts.
    pub open spec fn share(
        self,
        l: PaddedLight,
        sky: bool,
        normal: Face,
        m: int,
        u: int,
        v: int,
    ) -> (int, int) {
        if self.opaque_at(normal, m, u, v) {
            (0, 0)
        } else {
            (self.level(l, sky, normal, m, u, v) as int, 1)
        }
    }

    /// The light of a kind at corner `i` of the face that opens into layer `m`: the mean
    /// over the four cells around the corner that are not opaque, and full light where
    /// no light is given.
    pub open spec fn corner_light(
        self,
        sky: bool,
        normal: Face,
        m: int,
        u: int,
        v: int,
        i: int,
    ) -> u8 {
        match self.light {
            None => 15,
            Some(l) => {
                let c = corner_spec(normal, i);
                let (su, sv) = (sign(c.1), sign(c.2));
                let a = self.share(*l, sky, normal, m, u, v);
                let b = self.share(*l, sky, normal, m, u + su, v);
                let d = self.share(*l, sky, normal, m, u, v + sv);
                let e = self.share(*l, sky, normal, m, u + su, v + sv);
                ((a.0 + b.0 + d.0 + e.0) / (a.1 + b.1 + d.1 + e.1)) as u8
            },
        }
    }

    /// Whether the face of a cell is drawn: the cell is solid and its face is not hidden.
    pub open spec fn exposed(self, normal: Face, n: int, u: int, v: int) -> bool {
        let id = self.block(normal, n, u, v);
        &&& self.tables.solid_spec(id)
        &&& !covered_spec(id, self.block(normal, n + step_of(normal), u, v), *self.tables)
    }

    /// The sample of a cell's face.
    pub open spec fn sample(self, normal: Face, n: int, u: int, v: int) -> FaceSample {
        let m = n + step_of(normal);
        FaceSample {
            id: self.block(normal, n, u, v),
            ao: Four {
                c0: self.corner_ao(normal, m, u, v, 0),
                c1: self.corner_ao(normal, m, u, v, 1),
                c2: self.corner_ao(normal, m, u, v, 2),
                c3: self.corner_ao(normal, m, u, v, 3),
            },
            sky: Four {
                c0: self.corner_light(true, normal, m, u, v, 0),
                c1: self.corner_light(true, normal, m, u, v, 1),
                c2: self.corner_light(true, normal, m, u, v, 2),
                c3: self.corner_light(true, normal, m, u, v, 3),
            },
            block: Four {
                c0: self.corner_light(false, normal, m, u, v, 0),
                c1: self.corner_light(false, normal, m, u, v, 1),
                c2: self.corner_light(false, normal, m, u, v, 2),
                c3: self.corner_light(false, normal, m, u, v, 3),
            },
        }
    }

    fn block_at(&self, dir: &Dir, n: i32, u: i32, v: i32) -> (id: BlockId)
        requires
            self.wf(),
            dir.wf(),
            padded(n as int),
            padded(u as int),
            padded(v as int),
        ensures
            id == self.block(dir.normal, n as int, u as int, v as int),
            id.0 < self.tables.count(),
    {
        let (x, y, z) = point(dir, n, u, v);
        self.cells.inner.at(x, y, z)
    }

    fn is_opaque(&self, dir: &Dir, n: i32, u: i32, v: i32) -> (b: bool)
        requires
            self.wf(),
            dir.wf(),
            padded(n as int),
            padded(u as int),
            padded(v as int),
        ensures
            b == self.opaque_at(dir.normal, n as int, u as int, v as int),
    {
        self.tables.opaque(self.block_at(dir, n, u, v))
    }

    fn shade(&self, dir: &Dir, m: i32, u: i32, v: i32, su: i32, sv: i32) -> (ao: u8)
        requires
            self.wf(),
            dir.wf(),
            padded(m as int),
            0 <= u < 16,
            0 <= v < 16,
            su == 1 || su == -1,
            sv == 1 || sv == -1,
        ensures
            ao == (if self.tables.ao {
                vertex_ao_spec(
                    self.opaque_at(dir.normal, m as int, u + su, v as int),
                    self.opaque_at(dir.normal, m as int, u as int, v + sv),
                    self.opaque_at(dir.normal, m as int, u + su, v + sv),
                )
            } else {
                3
            }),
            ao <= 3,
    {
        if !self.tables.ao {
            return 3;
        }
        vertex_ao(
            self.is_opaque(dir, m, u + su, v),
            self.is_opaque(dir, m, u, v + sv),
            self.is_opaque(dir, m, u + su, v + sv),
        )
    }

    fn part(&self, l: &PaddedLight, dir: &Dir, m: i32, u: i32, v: i32) -> (r: (u32, u32, u32))
        requires
            self.wf(),
            l.inner.wf(),
            dir.wf(),
            padded(m as int),
            padded(u as int),
            padded(v as int),
        ensures
            (r.0 as int, r.2 as int) == self.share(
                *l,
                true,
                dir.normal,
                m as int,
                u as int,
                v as int,
            ),
            (r.1 as int, r.2 as int) == self.share(
                *l,
                false,
                dir.normal,
                m as int,
                u as int,
                v as int,
            ),
            r.2 <= 1,
            r.0 <= 15 * r.2,
            r.1 <= 15 * r.2,
    {
        if self.is_opaque(dir, m, u, v) {
            (0, 0, 0)
        } else {
            let (x, y, z) = point(dir, m, u, v);
            let c = l.at(x, y, z);
            (c.sky.get() as u32, c.block.get() as u32, 1)
        }
    }

    fn corner_levels(&self, dir: &Dir, m: i32, u: i32, v: i32, su: i32, sv: i32) -> (r: (u8, u8))
        requires
            self.wf(),
            dir.wf(),
            padded(m as int),
            0 <= u < 16,
            0 <= v < 16,
            su == 1 || su == -1,
            sv == 1 || sv == -1,
            !self.opaque_at(dir.normal, m as int, u as int, v as int),
        ensures
            r.0 <= 15,
            r.1 <= 15,
            forall|i: int|
                su == sign((#[trigger] corner_spec(dir.normal, i)).1) && sv == sign(
                    corner_spec(dir.normal, i).2,
                ) ==> r.0 == self.corner_light(true, dir.normal, m as int, u as int, v as int, i)
                    && r.1 == self.corner_light(
                    false,
                    dir.normal,
                    m as int,
                    u as int,
                    v as int,
                    i,
                ),
    {
        match self.light {
            None => (MAX_LIGHT, MAX_LIGHT),
            Some(l) => {
                let a = self.part(l, dir, m, u, v);
                let b = self.part(l, dir, m, u + su, v);
                let c = self.part(l, dir, m, u, v + sv);
                let d = self.part(l, dir, m, u + su, v + sv);
                let count: u32 = a.2 + b.2 + c.2 + d.2;
                let sky: u8 = avg_light(a.0 + b.0 + c.0 + d.0, count);
                let block: u8 = avg_light(a.1 + b.1 + c.1 + d.1, count);
                (sky, block)
            },
        }
    }

    /// The packed sample of a cell's face, or the empty word where it is not drawn.
    pub fn face_sample(&self, dir: &Dir, n: i32, u: i32, v: i32) -> (w: u64)
        requires
            self.wf(),
            dir.wf(),
            0 <= n < 16,
            0 <= u < 16,
            0 <= v < 16,
        ensures
            w == (if self.exposed(dir.normal, n as int, u as int, v as int) {
                pack_spec(self.sample(dir.normal, n as int, u as int, v as int))
            } else {
                NO_FACE
            }),
            self.exposed(dir.normal, n as int, u as int, v as int) ==> self.sample(
                dir.normal,
                n as int,
                u as int,
                v as int,
            ).wf(),
    {
        let id = self.block_at(dir, n, u, v);
        if !self.tables.solid(id) {
            return NO_FACE;
        }
        let m: i32 = n + dir.step;
        let nbr = self.block_at(dir, m, u, v);
        if covered(id, nbr, self.tables) {
            return NO_FACE;
        }
        let signs: [[i32; 2]; 4] = corner_uv(&dir.corners);
        proof {
            assert(dir.corners@[0]@[1] == corner_spec(dir.normal, 0).1);
            assert(dir.corners@[1]@[1] == corner_spec(dir.normal, 1).1);
            assert(dir.corners@[2]@[1] == corner_spec(dir.normal, 2).1);
            assert(dir.corners@[3]@[1] == corner_spec(dir.normal, 3).1);
        }
        let c0: [i32; 2] = signs[0];
        let c1: [i32; 2] = signs[1];
        let c2: [i32; 2] = signs[2];
        let c3: [i32; 2] = signs[3];
        let ao = Four {
            c0: self.shade(dir, m, u, v, c0[0], c0[1]),
            c1: self.shade(dir, m, u, v, c1[0], c1[1]),
            c2: self.shade(dir, m, u, v, c2[0], c2[1]),
            c3: self.shade(dir, m, u, v, c3[0], c3[1]),
        };
        let l0 = self.corner_levels(dir, m, u, v, c0[0], c0[1]);
        let l1 = self.corner_levels(dir, m, u, v, c1[0], c1[1]);
        let l2 = self.corner_levels(dir, m, u, v, c2[0], c2[1]);
        let l3 = self.corner_levels(dir, m, u, v, c3[0], c3[1]);
        let sky = Four { c0: l0.0, c1: l1.0, c2: l2.0, c3: l3.0 };
        let block = Four { c0: l0.1, c1: l1.1, c2: l2.1, c3: l3.1 };
        let s = FaceSample { id, ao, sky, block };
        assert(s == self.sample(dir.normal, n as int, u as int, v as int));
        pack_sample(s)
    }
}

} // verus!
