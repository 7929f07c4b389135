//! Chunk coordinates, faces and boxes.
use vstd::prelude::*;

verus! {

/// A face of a cube.
#[derive(Clone, Copy, PartialEq, Eq, Debug, Hash, Structural)]
pub enum Face {
    NegX,
    PosX,
    NegZ,
    PosZ,
    NegY,
    PosY,
}

impl Face {
    pub open spec fn index_spec(self) -> usize {
        match self {
            Face::NegX => 0,
            Face::PosX => 1,
            Face::NegZ => 2,
            Face::PosZ => 3,
            Face::NegY => 4,
            Face::PosY => 5,
        }
    }

    /// The place of the face in [`Self::all`].
    pub fn index(self) -> (i: usize)
        ensures
            i == self.index_spec(),
            i < 6,
    {
        match self {
            Face::NegX => 0,
            Face::PosX => 1,
            Face::NegZ => 2,
            Face::PosZ => 3,
            Face::NegY => 4,
            Face::PosY => 5,
        }
    }

    /// The face at a place.
    pub open spec fn at_spec(i: int) -> Face {
        if i == 0 {
            Face::NegX
        } else if i == 1 {
            Face::PosX
        } else if i == 2 {
            Face::NegZ
        } else if i == 3 {
            Face::PosZ
        } else if i == 4 {
            Face::NegY
        } else {
            Face::PosY
        }
    }

    /// The face at a place.
    pub fn at(i: usize) -> (f: Face)
        requires
            i < 6,
        ensures
            f == Self::at_spec(i as int),
            f.index_spec() == i,
    {
        if i == 0 {
            Face::NegX
        } else if i == 1 {
            Face::PosX
        } else if i == 2 {
            Face::NegZ
        } else if i == 3 {
            Face::PosZ
        } else if i == 4 {
            Face::NegY
        } else {
            Face::PosY
        }
    }

    /// The six faces.
    pub fn all() -> (a: [Face; 6])
        ensures
            forall|i: int| 0 <= i < 6 ==> #[trigger] a@[i] == Self::at_spec(i),
    {
        [Face::NegX, Face::PosX, Face::NegZ, Face::PosZ, Face::NegY, Face::PosY]
    }

    pub open spec fn opposite_spec(self) -> Face {
        match self {
            Face::NegX => Face::PosX,
            Face::PosX => Face::NegX,
            Face::NegZ => Face::PosZ,
            Face::PosZ => Face::NegZ,
            Face::NegY => Face::PosY,
            Face::PosY => Face::NegY,
        }
    }

    /// The face on the other side.
    pub fn opposite(self) -> (f: Face)
        ensures
            f == self.opposite_spec(),
    {
        match self {
            Face::NegX => Face::PosX,
            Face::PosX => Face::NegX,
            Face::NegZ => Face::PosZ,
            Face::PosZ => Face::NegZ,
            Face::NegY => Face::PosY,
            Face::PosY => Face::NegY,
        }
    }

    /// The outward direction as (x, y, z).
    pub open spec fn offset_spec(self) -> (i32, i32, i32) {
        match self {
            Face::NegX => (-1i32, 0i32, 0i32),
            Face::PosX => (1i32, 0i32, 0i32),
            Face::NegZ => (0i32, 0i32, -1i32),
            Face::PosZ => (0i32, 0i32, 1i32),
            Face::NegY => (0i32, -1i32, 0i32),
            Face::PosY => (0i32, 1i32, 0i32),
        }
    }

    /// The outward direction as (x, y, z).
    pub fn offset(self) -> (d: (i32, i32, i32))
        ensures
            d == self.offset_spec(),
    {
        match self {
            Face::NegX => (-1, 0, 0),
            Face::PosX => (1, 0, 0),
            Face::NegZ => (0, 0, -1),
            Face::PosZ => (0, 0, 1),
            Face::NegY => (0, -1, 0),
            Face::PosY => (0, 1, 0),
        }
    }

    /// Whether the cell at local coordinates lies on this face of its chunk.
    pub open spec fn touches_spec(self, x: int, y: int, z: int) -> bool {
        match self {
            Face::NegX => x == 0,
            Face::PosX => x == 15,
            Face::NegZ => z == 0,
            Face::PosZ => z == 15,
            Face::NegY => y == 0,
            Face::PosY => y == 15,
        }
    }

    /// Whether the cell at local coordinates lies on this face of its chunk.
    pub fn touches(self, x: usize, y: usize, z: usize) -> (b: bool)
        ensures
            b == self.touches_spec(x as int, y as int, z as int),
    {
        match self {
            Face::NegX => x == 0,
            Face::PosX => x == 15,
            Face::NegZ => z == 0,
            Face::PosZ => z == 15,
            Face::NegY => y == 0,
            Face::PosY => y == 15,
        }
    }
}

/// The position of a chunk, in chunks.
#[derive(Clone, Copy, PartialEq, Eq, Debug, Hash, Structural)]
pub struct ChunkCoord {
    pub x: i32,
    pub y: i32,
    pub z: i32,
}

impl ChunkCoord {
    pub open spec fn new_spec(x: i32, y: i32, z: i32) -> ChunkCoord {
        ChunkCoord { x, y, z }
    }

    pub fn new(x: i32, y: i32, z: i32) -> (c: Self)
        ensures
            c == Self::new_spec(x, y, z),
    {
        ChunkCoord { x, y, z }
    }

    pub open spec fn step_spec(self, face: Face) -> ChunkCoord {
        let d = face.offset_spec();
        ChunkCoord {
            x: self.x.wrapping_add(d.0),
            y: self.y.wrapping_add(d.1),
            z: self.z.wrapping_add(d.2),
        }
    }

    /// The neighbour across a face. Coordinates wrap at the ends of their range.
    pub fn step(self, face: Face) -> (c: ChunkCoord)
        ensures
            c == self.step_spec(face),
    {
        let d = face.offset();
        ChunkCoord {
            x: self.x.wrapping_add(d.0),
            y: self.y.wrapping_add(d.1),
            z: self.z.wrapping_add(d.2),
        }
    }

    /// The horizontal distance in rings: the larger of the distances along x and z.
    pub fn ring(self, other: ChunkCoord) -> (r: i64)
        ensures
            r == ring_spec(self, other),
    {
        let dx: i64 = distance(self.x, other.x);
        let dz: i64 = distance(self.z, other.z);
        if dx > dz {
            dx
        } else {
            dz
        }
    }

    /// The vertical distance in layers.
    pub fn updown(self, other: ChunkCoord) -> (r: i64)
        ensures
            r == distance_spec(self.y, other.y),
    {
        distance(self.y, other.y)
    }
}

/// The distance between two numbers.
pub open spec fn distance_spec(a: i32, b: i32) -> int {
    if a < b {
        b - a
    } else {
        a - b
    }
}

fn distance(a: i32, b: i32) -> (r: i64)
    ensures
        r == distance_spec(a, b),
{
    if a < b {
        b as i64 - a as i64
    } else {
        a as i64 - b as i64
    }
}

/// The horizontal distance in rings.
pub open spec fn ring_spec(a: ChunkCoord, b: ChunkCoord) -> int {
    let dx = distance_spec(a.x, b.x);
    let dz = distance_spec(a.z, b.z);
    if dx > dz {
        dx
    } else {
        dz
    }
}

/// `x / n` rounded down.
pub fn floor_div(x: i32, n: i32) -> (q: i32)
    requires
        n > 0,
    ensures
        q == x as int / n as int,
{
    if x >= 0 {
        x / n
    } else {
        let a: i64 = -(x as i64);
        let m: i64 = n as i64;
        let up: i64 = (a + m - 1) / m;
        proof {
            lemma_floor_neg(a as int, m as int);
        }
        (0 - up) as i32
    }
}

proof fn lemma_floor_neg(a: int, m: int)
    requires
        a > 0,
        m > 0,
        a <= 0x8000_0000,
    ensures
        (-a) / m == -((a + m - 1) / m),
        0 <= (a + m - 1) / m <= 0x8000_0000,
{
    let up = (a + m - 1) / m;
    vstd::arithmetic::div_mod::lemma_fundamental_div_mod(a + m - 1, m);
    vstd::arithmetic::div_mod::lemma_fundamental_div_mod(-a, m);
    let q = (-a) / m;
    assert(q == -up) by (nonlinear_arith)
        requires
            m > 0,
            a + m - 1 == m * up + (a + m - 1) % m,
            0 <= (a + m - 1) % m < m,
            -a == m * q + (-a) % m,
            0 <= (-a) % m < m,
    ;
    assert(0 <= up <= a) by (nonlinear_arith)
        requires
            m > 0,
            a > 0,
            a + m - 1 == m * up + (a + m - 1) % m,
            0 <= (a + m - 1) % m < m,
    ;
}

/// What `x` leaves over a multiple of `n`, in `0..n`.
pub fn floor_rem(x: i32, n: i32) -> (r: i32)
    requires
        n > 0,
    ensures
        r == x as int % n as int,
        0 <= r < n,
{
    let q: i32 = floor_div(x, n);
    proof {
        vstd::arithmetic::div_mod::lemma_fundamental_div_mod(x as int, n as int);
        assert(n * q == q * n) by (nonlinear_arith);
        assert(-0x8000_0000 - n < q * n <= x) by (nonlinear_arith)
            requires
                x == n * q + x as int % n as int,
                0 <= x as int % n as int,
                (x as int % n as int) < n,
                x >= -0x8000_0000,
                n > 0,
        ;
    }
    (x as i64 - q as i64 * n as i64) as i32
}

/// The position of a block.
#[derive(Clone, Copy, PartialEq, Eq, Debug, Hash, Structural)]
pub struct BlockCoord {
    pub x: i32,
    pub y: i32,
    pub z: i32,
}

impl BlockCoord {
    /// The chunk that holds the block.
    pub open spec fn chunk_spec(self) -> ChunkCoord {
        ChunkCoord {
            x: (self.x as int / 16) as i32,
            y: (self.y as int / 16) as i32,
            z: (self.z as int / 16) as i32,
        }
    }

    /// The block's place in its chunk, as (x, y, z).
    pub open spec fn local_spec(self) -> (int, int, int) {
        (self.x as int % 16, self.y as int % 16, self.z as int % 16)
    }

    /// The chunk that holds the block, and the block's place in it.
    pub fn split(self) -> (r: (ChunkCoord, (usize, usize, usize)))
        ensures
            r.0 == self.chunk_spec(),
            (r.1.0 as int, r.1.1 as int, r.1.2 as int) == self.local_spec(),
            r.1.0 < 16 && r.1.1 < 16 && r.1.2 < 16,
    {
        let c = ChunkCoord {
            x: floor_div(self.x, 16),
            y: floor_div(self.y, 16),
            z: floor_div(self.z, 16),
        };
        let l: (usize, usize, usize) = (
            floor_rem(self.x, 16) as usize,
            floor_rem(self.y, 16) as usize,
            floor_rem(self.z, 16) as usize,
        );
        (c, l)
    }

    /// Whether a chunk holds blocks: its block coordinates do not run over.
    pub open spec fn in_world(c: ChunkCoord) -> bool {
        &&& -0x800_0000 <= c.x < 0x800_0000
        &&& -0x800_0000 <= c.y < 0x800_0000
        &&& -0x800_0000 <= c.z < 0x800_0000
    }

    /// The block at a place of a chunk.
    pub fn join(c: ChunkCoord, local: (usize, usize, usize)) -> (b: BlockCoord)
        requires
            Self::in_world(c),
            local.0 < 16,
            local.1 < 16,
            local.2 < 16,
        ensures
            b.chunk_spec() == c,
            b.local_spec() == (local.0 as int, local.1 as int, local.2 as int),
    {
        BlockCoord {
            x: c.x * 16 + local.0 as i32,
            y: c.y * 16 + local.1 as i32,
            z: c.z * 16 + local.2 as i32,
        }
    }
}

/// Splitting a block position loses nothing.
pub proof fn lemma_split_is_exact(a: BlockCoord, b: BlockCoord)
    requires
        a.chunk_spec() == b.chunk_spec(),
        a.local_spec() == b.local_spec(),
    ensures
        a == b,
        BlockCoord::in_world(a.chunk_spec()),
{
}

/// A box of chunks: its lowest corner and its extent along each axis.
#[derive(Clone, Copy, PartialEq, Eq, Debug, Structural)]
pub struct ChunkBox {
    pub low: ChunkCoord,
    pub nx: i32,
    pub ny: i32,
    pub nz: i32,
}

impl ChunkBox {
    /// The box of chunks within `h` rings and `v` layers of `center`.
    pub open spec fn new_spec(center: ChunkCoord, h: i32, v: i32) -> ChunkBox {
        ChunkBox {
            low: ChunkCoord {
                x: center.x.wrapping_sub(h),
                y: center.y.wrapping_sub(v),
                z: center.z.wrapping_sub(h),
            },
            nx: (2 * h + 1) as i32,
            ny: (2 * v + 1) as i32,
            nz: (2 * h + 1) as i32,
        }
    }

    /// The box of chunks within `h` rings and `v` layers of `center`.
    pub fn new(center: ChunkCoord, h: i32, v: i32) -> (b: Self)
        requires
            0 <= h < 0x4000_0000,
            0 <= v < 0x4000_0000,
        ensures
            b == Self::new_spec(center, h, v),
    {
        ChunkBox {
            low: ChunkCoord {
                x: center.x.wrapping_sub(h),
                y: center.y.wrapping_sub(v),
                z: center.z.wrapping_sub(h),
            },
            nx: 2 * h + 1,
            ny: 2 * v + 1,
            nz: 2 * h + 1,
        }
    }

    /// How many chunks the box holds.
    pub open spec fn volume_spec(self) -> int {
        self.nx * self.ny * self.nz
    }

    /// Whether the box's extents are at least zero and its chunks can be counted.
    pub open spec fn countable(self) -> bool {
        &&& self.nx >= 0 && self.ny >= 0 && self.nz >= 0
        &&& self.nx * self.ny <= i32::MAX
        &&& self.nx * self.nz <= i32::MAX
        &&& self.volume_spec() <= i32::MAX
    }

    /// Whether a chunk lies in the box.
    pub open spec fn contains_spec(self, c: ChunkCoord) -> bool {
        &&& 0 <= c.x.wrapping_sub(self.low.x) < self.nx
        &&& 0 <= c.y.wrapping_sub(self.low.y) < self.ny
        &&& 0 <= c.z.wrapping_sub(self.low.z) < self.nz
    }

    /// The place of a chunk of the box: x fastest, then z, then y.
    pub open spec fn place_spec(self, c: ChunkCoord) -> int {
        c.x.wrapping_sub(self.low.x) + self.nx * (c.z.wrapping_sub(self.low.z) + self.nz
            * c.y.wrapping_sub(self.low.y))
    }

    /// The place of a chunk, or `None` outside the box.
    pub fn place(&self, c: ChunkCoord) -> (r: Option<usize>)
        requires
            self.countable(),
        ensures
            r == (if self.contains_spec(c) {
                Some(self.place_spec(c) as usize)
            } else {
                None
            }),
            self.contains_spec(c) ==> 0 <= self.place_spec(c) < self.volume_spec(),
    {
        let dx: i32 = c.x.wrapping_sub(self.low.x);
        let dy: i32 = c.y.wrapping_sub(self.low.y);
        let dz: i32 = c.z.wrapping_sub(self.low.z);
        if dx < 0 || dy < 0 || dz < 0 || dx >= self.nx || dy >= self.ny || dz >= self.nz {
            return None;
        }
        proof {
            lemma_place_bounds(
                dx as int,
                dy as int,
                dz as int,
                self.nx as int,
                self.ny as int,
                self.nz as int,
            );
        }
        let layer: i32 = self.nz * dy + dz;
        Some((dx + self.nx * layer) as usize)
    }
}

proof fn lemma_place_bounds(dx: int, dy: int, dz: int, nx: int, ny: int, nz: int)
    by (nonlinear_arith)
    requires
        0 <= dx < nx,
        0 <= dy < ny,
        0 <= dz < nz,
    ensures
        0 <= nz * dy,
        0 <= nz * dy + dz < ny * nz,
        ny * nz <= nx * ny * nz,
        0 <= nx * (dz + nz * dy),
        nz * dy + dz == dz + nz * dy,
        0 <= dx + nx * (dz + nz * dy) < nx * ny * nz,
{
}

/// A chunk of a box has a place in it.
pub proof fn lemma_place_in(b: ChunkBox, c: ChunkCoord)
    requires
        b.contains_spec(c),
    ensures
        0 <= b.place_spec(c) < b.volume_spec(),
{
    lemma_place_bounds(
        c.x.wrapping_sub(b.low.x) as int,
        c.y.wrapping_sub(b.low.y) as int,
        c.z.wrapping_sub(b.low.z) as int,
        b.nx as int,
        b.ny as int,
        b.nz as int,
    );
}

/// Two chunks of a box that share a place are one.
pub proof fn lemma_place_unique(b: ChunkBox, c: ChunkCoord, d: ChunkCoord)
    requires
        b.contains_spec(c),
        b.contains_spec(d),
        b.place_spec(c) == b.place_spec(d),
    ensures
        c == d,
{
    let (x1, y1, z1) = (
        c.x.wrapping_sub(b.low.x) as int,
        c.y.wrapping_sub(b.low.y) as int,
        c.z.wrapping_sub(b.low.z) as int,
    );
    let (x2, y2, z2) = (
        d.x.wrapping_sub(b.low.x) as int,
        d.y.wrapping_sub(b.low.y) as int,
        d.z.wrapping_sub(b.low.z) as int,
    );
    let nx = b.nx as int;
    let nz = b.nz as int;
    lemma_mixed_radix(x1, z1 + nz * y1, x2, z2 + nz * y2, nx);
    lemma_mixed_radix(z1, y1, z2, y2, nz);
}

proof fn lemma_mixed_radix(a: int, b: int, c: int, d: int, n: int)
    requires
        0 <= a < n,
        0 <= c < n,
        a + n * b == c + n * d,
    ensures
        a == c,
        b == d,
{
    assert(b == d) by (nonlinear_arith)
        requires
            0 <= a < n,
            0 <= c < n,
            a + n * b == c + n * d,
    ;
}

/// The six faces point one step out along an axis, each its own way, and a face and its
/// opposite point against each other. A cell lies on a face where a step through the face
/// leaves the chunk.
pub proof fn lemma_faces_point_out(f: Face, g: Face, x: int, y: int, z: int)
    requires
        0 <= x < 16,
        0 <= y < 16,
        0 <= z < 16,
    ensures
        Face::PosX.offset_spec() == (1i32, 0i32, 0i32),
        Face::PosY.offset_spec() == (0i32, 1i32, 0i32),
        Face::PosZ.offset_spec() == (0i32, 0i32, 1i32),
        f.offset_spec() == g.offset_spec() ==> f == g,
        f.opposite_spec().offset_spec().0 == -f.offset_spec().0,
        f.opposite_spec().offset_spec().1 == -f.offset_spec().1,
        f.opposite_spec().offset_spec().2 == -f.offset_spec().2,
        f.opposite_spec() != f,
        f.opposite_spec().opposite_spec() == f,
        f.touches_spec(x, y, z) <==> !(0 <= x + f.offset_spec().0 < 16 && 0 <= y
            + f.offset_spec().1 < 16 && 0 <= z + f.offset_spec().2 < 16),
        Face::NegX.offset_spec().0 == -1 && Face::NegY.offset_spec().1 == -1
            && Face::NegZ.offset_spec().2 == -1,
{
}

/// The faces are numbered: each has its own number below six, and the number finds it.
pub proof fn lemma_faces_are_numbered(f: Face, i: int)
    ensures
        f.index_spec() < 6,
        Face::at_spec(f.index_spec() as int) == f,
        0 <= i < 6 ==> Face::at_spec(i).index_spec() == i,
{
}

/// A step across a face is undone by a step across the opposite one, at the ends of the
/// range too, and inside the range it moves the chunk by the face's direction.
pub proof fn lemma_steps_undo(c: ChunkCoord, f: Face)
    ensures
        c.step_spec(f).step_spec(f.opposite_spec()) == c,
        c.step_spec(f) != c,
        i32::MIN < c.x < i32::MAX ==> c.step_spec(f).x == c.x + f.offset_spec().0,
        i32::MIN < c.y < i32::MAX ==> c.step_spec(f).y == c.y + f.offset_spec().1,
        i32::MIN < c.z < i32::MAX ==> c.step_spec(f).z == c.z + f.offset_spec().2,
{
}

/// A block lies in the chunk that spans it: sixteen times the chunk plus the place in it
/// is the block, and the place is inside.
pub proof fn lemma_split_adds_up(b: BlockCoord)
    ensures
        b.chunk_spec().x * 16 + b.local_spec().0 == b.x,
        b.chunk_spec().y * 16 + b.local_spec().1 == b.y,
        b.chunk_spec().z * 16 + b.local_spec().2 == b.z,
        0 <= b.local_spec().0 < 16,
        0 <= b.local_spec().1 < 16,
        0 <= b.local_spec().2 < 16,
{
}

/// Distances: they do not depend on which end is asked, two steps are never further than
/// their sum, rings look along x and z alone, and chunks of one column have no ring
/// between them.
pub proof fn lemma_distances(a: ChunkCoord, b: ChunkCoord, c: ChunkCoord)
    ensures
        ring_spec(a, b) == ring_spec(b, a) >= 0,
        distance_spec(a.y, b.y) == distance_spec(b.y, a.y) >= 0,
        ring_spec(a, c) <= ring_spec(a, b) + ring_spec(b, c),
        ring_spec(a, b) == 0 <==> a.x == b.x && a.z == b.z,
        distance_spec(a.y, b.y) == 0 <==> a.y == b.y,
        forall|r: int|
            #![trigger is_within(a, b, r)]
            ring_spec(a, b) <= r <==> is_within(a, b, r),
{
}

/// Whether a chunk's column is in the square of columns around another's.
pub open spec fn is_within(a: ChunkCoord, b: ChunkCoord, r: int) -> bool {
    a.x - r <= b.x <= a.x + r && a.z - r <= b.z <= a.z + r
}

/// A box holds exactly the chunks within its rings and layers of the centre.
pub proof fn lemma_box_is_within(center: ChunkCoord, h: i32, v: i32, c: ChunkCoord)
    requires
        0 <= h < 0x4000_0000,
        0 <= v < 0x4000_0000,
        -0x2000_0000 <= center.x < 0x2000_0000,
        -0x2000_0000 <= center.y < 0x2000_0000,
        -0x2000_0000 <= center.z < 0x2000_0000,
        -0x2000_0000 <= c.x < 0x2000_0000,
        -0x2000_0000 <= c.y < 0x2000_0000,
        -0x2000_0000 <= c.z < 0x2000_0000,
    ensures
        ChunkBox::new_spec(center, h, v).contains_spec(c) <==> ring_spec(center, c) <= h
            && distance_spec(center.y, c.y) <= v,
{
}

} // verus!
