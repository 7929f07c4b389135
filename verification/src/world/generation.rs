//! What a terrain generator promises, and the cell rolls that terrain is made of.
//!
//! Generation is a pure function of the seed and the place, so every worker and
//! every client produces the same chunks.
use vstd::prelude::*;

use crate::block::{BlockId, Detail, Rev};
use crate::coord::{BlockCoord, ChunkCoord};
use crate::hash::{splitmix_finish, splitmix_finish_spec, GOLDEN};
use crate::text::same_text;
use crate::world::chunk::{
    compact, lemma_packed, local_of_spec, packed, plain, stored, Chunk, ChunkData, CHUNK_VOLUME,
};

verus! {

/// The number of columns of a chunk.
pub const CHUNK_COLUMNS: usize = 256;

/// Ground height per column of a chunk, at `x + z * 16`.
pub type ColumnHeights = [i32; CHUNK_COLUMNS];

/// Which generator a world is built with. Part of the content fingerprint.
#[derive(Clone, Copy, PartialEq, Eq, Debug, Structural)]
pub enum WorldgenKind {
    Classic,
    Diffusion,
}

impl WorldgenKind {
    /// The stable name of a kind.
    pub open spec fn id_spec(self) -> Seq<char> {
        match self {
            WorldgenKind::Classic => "classic"@,
            WorldgenKind::Diffusion => "diffusion"@,
        }
    }

    /// The wire byte of a kind.
    pub open spec fn wire_spec(self) -> u8 {
        match self {
            WorldgenKind::Classic => 0,
            WorldgenKind::Diffusion => 1,
        }
    }

    /// The stable name that fingerprints and saves use.
    pub fn id(self) -> (s: &'static str)
        ensures
            s@ == self.id_spec(),
    {
        match self {
            WorldgenKind::Classic => "classic",
            WorldgenKind::Diffusion => "diffusion",
        }
    }

    /// The kind with the given name.
    pub fn from_id(id: &str) -> (r: Option<WorldgenKind>)
        ensures
            match r {
                Some(k) => k.id_spec() == id@,
                None => forall|k: WorldgenKind| k.id_spec() != id@,
            },
    {
        if same_text(id, "classic") {
            Some(WorldgenKind::Classic)
        } else if same_text(id, "diffusion") {
            Some(WorldgenKind::Diffusion)
        } else {
            None
        }
    }

    /// The byte that stands for this kind on the wire.
    pub fn wire(self) -> (v: u8)
        ensures
            v == self.wire_spec(),
    {
        match self {
            WorldgenKind::Classic => 0,
            WorldgenKind::Diffusion => 1,
        }
    }

    /// The kind that a wire byte stands for.
    pub fn from_wire(v: u8) -> (r: Option<WorldgenKind>)
        ensures
            match r {
                Some(k) => k.wire_spec() == v,
                None => forall|k: WorldgenKind| k.wire_spec() != v,
            },
    {
        match v {
            0 => Some(WorldgenKind::Classic),
            1 => Some(WorldgenKind::Diffusion),
            _ => None,
        }
    }
}

impl Default for WorldgenKind {
    fn default() -> (k: Self)
        ensures
            k == WorldgenKind::Classic,
    {
        WorldgenKind::Classic
    }
}

/// No two kinds share a name or a wire byte, so both readings are unambiguous.
pub proof fn lemma_kind_round_trip(a: WorldgenKind, b: WorldgenKind)
    ensures
        a.id_spec() == b.id_spec() ==> a == b,
        a.wire_spec() == b.wire_spec() ==> a == b,
{
    reveal_strlit("classic");
    reveal_strlit("diffusion");
    assert("classic"@.len() == 7);
    assert("diffusion"@.len() == 9);
}

/// The word that a place of a seed scrambles from.
pub open spec fn cell_word(seed: i64, x: i32, y: i32, z: i32) -> u64 {
    ((seed as u64) ^ 0x517C_C1B7_2722_0A95u64) ^ ((x as u32) as u64).wrapping_mul(GOLDEN)
        ^ ((y as u32) as u64).wrapping_mul(0xC2B2_AE3D_27D4_EB4F) ^ ((z as u32) as u64).wrapping_mul(
        0x1656_67B1_9E37_79F9,
    )
}

/// The roll of a place: the high half of the scrambled word.
pub open spec fn cell_hash_spec(seed: i64, x: i32, y: i32, z: i32) -> u32 {
    (splitmix_finish_spec(cell_word(seed, x, y, z)) >> 32u64) as u32
}

/// The roll of a place under a seed.
pub fn cell_hash(seed: i64, x: i32, y: i32, z: i32) -> (roll: u32)
    ensures
        roll == cell_hash_spec(seed, x, y, z),
{
    let h: u64 = ((seed as u64) ^ 0x517C_C1B7_2722_0A95u64) ^ ((x as u32) as u64).wrapping_mul(
        GOLDEN,
    ) ^ ((y as u32) as u64).wrapping_mul(0xC2B2_AE3D_27D4_EB4F) ^ ((z as u32) as u64).wrapping_mul(
        0x1656_67B1_9E37_79F9,
    );
    (splitmix_finish(h) >> 32u64) as u32
}

/// A world seed, from which all hash streams derive.
#[derive(Clone, Copy, PartialEq, Eq, Debug, Structural)]
pub struct Seed(pub i64);

/// A hash stream, independent of the others of its seed.
#[derive(Clone, Copy, PartialEq, Eq, Debug, Structural)]
pub struct Stream(pub u64);

impl Seed {
    /// The stream with the given salt.
    pub fn stream(self, salt: u64) -> (s: Stream)
        ensures
            s.0 == (self.0 as u64).wrapping_mul(GOLDEN) ^ salt,
    {
        Stream((self.0 as u64).wrapping_mul(GOLDEN) ^ salt)
    }
}

impl Stream {
    /// The lattice seed of one octave.
    pub fn octave(self, octave: u64) -> (s: u64)
        ensures
            s == self.0 ^ octave.wrapping_mul(0xD1B5_4A32_D192_ED03),
    {
        self.0 ^ octave.wrapping_mul(0xD1B5_4A32_D192_ED03)
    }
}

/// The block of a column of ground: its surface block on top, deep block below,
/// and nothing from `height` up.
pub open spec fn layered_spec(surface: BlockId, deep: BlockId, wy: i32, height: i32) -> BlockId {
    if wy >= height {
        BlockId::air_spec()
    } else if wy == height - 1 {
        surface
    } else {
        deep
    }
}

/// The block of a column of ground: its surface block on top, deep block below,
/// and nothing from `height` up.
pub fn layered(surface: BlockId, deep: BlockId, wy: i32, height: i32) -> (id: BlockId)
    ensures
        id == layered_spec(surface, deep, wy, height),
{
    if wy >= height {
        BlockId::air()
    } else if wy >= height - 1 {
        surface
    } else {
        deep
    }
}

/// Whether every cell of the chunk column has 32-bit coordinates.
pub open spec fn column_in_world(cx: i32, cz: i32) -> bool {
    BlockCoord::in_world(ChunkCoord { x: cx, y: 0, z: cz })
}

/// Whether every cell of the chunk layer has 32-bit coordinates.
pub open spec fn layer_in_world(cy: i32) -> bool {
    BlockCoord::in_world(ChunkCoord { x: 0, y: cy, z: 0 })
}

/// The ground height of every column of a world.
pub type HeightFn = spec_fn(i32, i32) -> i32;

/// The block of every cell of a world, given its column's ground height.
pub type BlockFn = spec_fn(i32, i32, i32, i32) -> BlockId;

/// The block that a terrain puts into cell `i` of a chunk.
pub open spec fn generated(height: HeightFn, block: BlockFn, c: (i32, i32, i32), i: int) -> BlockId {
    let (lx, ly, lz) = local_of_spec(i);
    let wx = (c.0 * 16 + lx) as i32;
    let wz = (c.2 * 16 + lz) as i32;
    block(wx, (c.1 * 16 + ly) as i32, wz, height(wx, wz))
}

/// Whether `data` is what a terrain puts into a chunk, in the cheapest form.
pub open spec fn is_generated(
    height: HeightFn,
    block: BlockFn,
    c: (i32, i32, i32),
    data: ChunkData,
) -> bool {
    data.cheapest(Seq::new(CHUNK_VOLUME as nat, |i: int| generated(height, block, c, i)))
}

/// A chunk is generated one way: alone or in a run of its column, it holds the same cells
/// in the same form.
pub proof fn lemma_generated_alike(
    height: HeightFn,
    block: BlockFn,
    c: (i32, i32, i32),
    a: ChunkData,
    b: ChunkData,
)
    requires
        is_generated(height, block, c, a),
        is_generated(height, block, c, b),
    ensures
        a@ == b@,
        stored(a) == stored(b),
        a is Uniform == b is Uniform,
        a is Paletted == b is Paletted,
{
    lemma_packed(a, a@);
    lemma_packed(b, b@);
}

/// The ground heights of a chunk column.
pub open spec fn column_heights(height: HeightFn, cx: i32, cz: i32) -> Seq<i32> {
    Seq::new(
        CHUNK_COLUMNS as nat,
        |k: int| height((cx * 16 + k % 16) as i32, (cz * 16 + k / 16) as i32),
    )
}

/// Produces terrain for absolute world coordinates.
pub trait TerrainGenerator {
    /// Whether the generator can answer.
    spec fn ready(&self) -> bool;

    /// Whether the generator can answer for the cells of a height.
    spec fn reaches(&self, wy: i32) -> bool;

    /// The ground height of a column: its lowest cell that is not ground.
    spec fn height_spec(&self, wx: i32, wz: i32) -> i32;

    /// The surface block of a column.
    spec fn surface_spec(&self, wx: i32, wz: i32) -> BlockId;

    /// The block underground.
    spec fn deep_spec(&self) -> BlockId;

    /// The block of a cell, given its column's ground height.
    spec fn block_spec(&self, wx: i32, wy: i32, wz: i32, height: i32) -> BlockId;

    /// The block that a coarse far tile shows at a cell.
    spec fn lod_spec(&self, wx: i32, wy: i32, wz: i32) -> BlockId;

    /// The world seed that this generator was built from.
    fn seed(&self) -> (s: i64)
        default_ensures
            s == 0,
    {
        0
    }

    /// Sea level in blocks.
    fn sea_level(&self) -> (y: i32)
        default_ensures
            y == 20,
    {
        20
    }

    /// The stable name folded into the content fingerprint.
    fn kind(&self) -> (s: &'static str)
        default_ensures
            s@ == "classic"@,
    {
        "classic"
    }

    /// The ground height of a column.
    fn height(&self, wx: i32, wz: i32) -> (h: i32)
        requires
            self.ready(),
        ensures
            h == self.height_spec(wx, wz),
    ;

    /// The surface block of a column.
    fn surface_at(&self, wx: i32, wz: i32) -> (id: BlockId)
        requires
            self.ready(),
        ensures
            id == self.surface_spec(wx, wz),
    ;

    /// The block underground.
    fn deep(&self) -> (id: BlockId)
        ensures
            id == self.deep_spec(),
    ;

    /// The block of a cell, given its column's ground height. A generator with
    /// plain ground answers with [`layered`].
    fn block_at(&self, wx: i32, wy: i32, wz: i32, height: i32) -> (id: BlockId)
        requires
            self.ready(),
            self.reaches(wy),
        ensures
            id == self.block_spec(wx, wy, wz, height),
    ;

    /// The block that a coarse far tile shows at a cell. A tile samples at a wide
    /// stride, so only the silhouette matters.
    fn lod_block_at(&self, wx: i32, wy: i32, wz: i32) -> (id: BlockId)
        requires
            self.ready(),
            self.reaches(wy),
        ensures
            id == self.lod_spec(wx, wy, wz),
    ;

    /// The ground heights of a chunk column.
    fn heights_16(&self, cx: i32, cz: i32) -> (heights: ColumnHeights)
        requires
            self.ready(),
            column_in_world(cx, cz),
        ensures
            heights@ == column_heights(|x: i32, z: i32| self.height_spec(x, z), cx, cz),
    {
        let x0: i32 = cx * 16;
        let z0: i32 = cz * 16;
        let mut heights: ColumnHeights = [0i32;CHUNK_COLUMNS];
        let mut k: usize = 0;
        while k < CHUNK_COLUMNS
            invariant
                self.ready(),
                k <= CHUNK_COLUMNS,
                column_in_world(cx, cz),
                x0 == cx * 16,
                z0 == cz * 16,
                forall|j: int|
                    0 <= j < k ==> (#[trigger] heights@[j]) == column_heights(
                        |x: i32, z: i32| self.height_spec(x, z),
                        cx,
                        cz,
                    )[j],
            decreases CHUNK_COLUMNS - k,
        {
            let h: i32 = self.height(x0 + (k % 16) as i32, z0 + (k / 16) as i32);
            heights[k] = h;
            k = k + 1;
        }
        assert(heights@ =~= column_heights(|x: i32, z: i32| self.height_spec(x, z), cx, cz));
        heights
    }

    /// Fills a vertical run of far-tile cells: the cell at `ys[k]` goes to
    /// `out[k]`, as far as both reach.
    fn lod_column(&self, wx: i32, wz: i32, ys: &[i32], out: &mut [BlockId])
        requires
            self.ready(),
            forall|k: int| 0 <= k < ys@.len() ==> self.reaches(#[trigger] ys@[k]),
        ensures
            final(out)@.len() == old(out)@.len(),
            forall|k: int|
                0 <= k < old(out)@.len() ==> (#[trigger] final(out)@[k]) == (if k < ys@.len() {
                    self.lod_spec(wx, ys@[k], wz)
                } else {
                    old(out)@[k]
                }),
    {
        let mut k: usize = 0;
        while k < ys.len() && k < out.len()
            invariant
                self.ready(),
                forall|k: int| 0 <= k < ys@.len() ==> self.reaches(#[trigger] ys@[k]),
                k <= ys@.len(),
                k <= out@.len(),
                out@.len() == old(out)@.len(),
                forall|j: int|
                    0 <= j < out@.len() ==> (#[trigger] out@[j]) == (if j < k {
                        self.lod_spec(wx, ys@[j], wz)
                    } else {
                        old(out)@[j]
                    }),
            decreases ys@.len() - k,
        {
            out[k] = self.lod_block_at(wx, ys[k], wz);
            k = k + 1;
        }
    }

    /// The contents of one chunk.
    fn generate(&self, cx: i32, cy: i32, cz: i32) -> (data: ChunkData)
        requires
            self.ready(),
            column_in_world(cx, cz),
            layer_in_world(cy),
            forall|y: i32| cy * 16 <= y < cy * 16 + 16 ==> #[trigger] self.reaches(y),
        ensures
            is_generated(
                |x: i32, z: i32| self.height_spec(x, z),
                |x: i32, y: i32, z: i32, h: i32| self.block_spec(x, y, z, h),
                (cx, cy, cz),
                data,
            ),
    {
        let mut cells: Box<[BlockId; CHUNK_VOLUME]> = Box::new([BlockId::air();CHUNK_VOLUME]);
        let mut i: usize = 0;
        while i < CHUNK_VOLUME
            invariant
                self.ready(),
                i <= CHUNK_VOLUME,
                column_in_world(cx, cz),
                layer_in_world(cy),
                forall|y: i32| cy * 16 <= y < cy * 16 + 16 ==> #[trigger] self.reaches(y),
                forall|j: int|
                    0 <= j < i ==> (#[trigger] cells@[j]) == generated(
                        |x: i32, z: i32| self.height_spec(x, z),
                        |x: i32, y: i32, z: i32, h: i32| self.block_spec(x, y, z, h),
                        (cx, cy, cz),
                        j,
                    ),
            decreases CHUNK_VOLUME - i,
        {
            let (lx, ly, lz) = Chunk::local_of(i);
            let wx: i32 = cx * 16 + lx as i32;
            let wy: i32 = cy * 16 + ly as i32;
            let wz: i32 = cz * 16 + lz as i32;
            let h: i32 = self.height(wx, wz);
            let id = self.block_at(wx, wy, wz, h);
            cells[i] = id;
            i = i + 1;
        }
        assert(cells@ =~= Seq::new(
            CHUNK_VOLUME as nat,
            |i: int|
                generated(
                    |x: i32, z: i32| self.height_spec(x, z),
                    |x: i32, y: i32, z: i32, h: i32| self.block_spec(x, y, z, h),
                    (cx, cy, cz),
                    i,
                ),
        ));
        ChunkData::from_cells(cells)
    }

    /// The chunks of a vertical run, bottom first, and the ground heights of their
    /// column. Heights come even with an empty run.
    fn generate_column(&self, cx: i32, cz: i32, low: i32, high: i32) -> (r: (
        Vec<(i32, ChunkData)>,
        ColumnHeights,
    ))
        requires
            self.ready(),
            column_in_world(cx, cz),
            low <= high ==> layer_in_world(low) && layer_in_world(high),
            forall|y: i32| low * 16 <= y < high * 16 + 16 ==> #[trigger] self.reaches(y),
        ensures
            r.1@ == column_heights(|x: i32, z: i32| self.height_spec(x, z), cx, cz),
            r.0@.len() == (if low <= high {
                high - low + 1
            } else {
                0
            }),
            forall|k: int|
                0 <= k < r.0@.len() ==> (#[trigger] r.0@[k]).0 == low + k && is_generated(
                    |x: i32, z: i32| self.height_spec(x, z),
                    |x: i32, y: i32, z: i32, h: i32| self.block_spec(x, y, z, h),
                    (cx, r.0@[k].0, cz),
                    r.0@[k].1,
                ),
    {
        let mut chunks: Vec<(i32, ChunkData)> = Vec::new();
        if low <= high {
            let mut cy: i32 = low;
            while cy <= high
                invariant
                    self.ready(),
                    low <= high,
                    low <= cy <= high + 1,
                    column_in_world(cx, cz),
                    layer_in_world(low),
                    layer_in_world(high),
                    forall|y: i32| low * 16 <= y < high * 16 + 16 ==> #[trigger] self.reaches(y),
                    chunks@.len() == cy - low,
                    forall|k: int|
                        0 <= k < chunks@.len() ==> (#[trigger] chunks@[k]).0 == low + k
                            && is_generated(
                            |x: i32, z: i32| self.height_spec(x, z),
                            |x: i32, y: i32, z: i32, h: i32| self.block_spec(x, y, z, h),
                            (cx, chunks@[k].0, cz),
                            chunks@[k].1,
                        ),
                decreases high + 1 - cy,
            {
                let data = self.generate(cx, cy, cz);
                chunks.push((cy, data));
                cy = cy + 1;
            }
        }
        (chunks, self.heights_16(cx, cz))
    }
}

impl Chunk {
    /// A chunk of generated terrain.
    pub fn new<G: TerrainGenerator>(cx: i32, cy: i32, cz: i32, terra: &G) -> (c: Chunk)
        requires
            terra.ready(),
            column_in_world(cx, cz),
            layer_in_world(cy),
            forall|y: i32| cy * 16 <= y < cy * 16 + 16 ==> #[trigger] terra.reaches(y),
        ensures
            c.wf(),
            c.coord() == (cx, cy, cz),
            c.stamp() == (Detail(0), Rev(0)),
            plain(c.payload()),
            compact(c.payload()),
            c.payload() == packed(c@),
            c@ == Seq::new(
                CHUNK_VOLUME as nat,
                |i: int|
                    generated(
                        |x: i32, z: i32| terra.height_spec(x, z),
                        |x: i32, y: i32, z: i32, h: i32| terra.block_spec(x, y, z, h),
                        (cx, cy, cz),
                        i,
                    ),
            ),
    {
        let data = terra.generate(cx, cy, cz);
        let c = Chunk::from_data(cx, cy, cz, data);
        proof {
            lemma_packed(data, c@);
        }
        c
    }
}

/// Layered ground: nothing from the height up, the surface right below it, and deep ground
/// below that.
pub proof fn lemma_layers(surface: BlockId, deep: BlockId, y: i32, height: i32)
    ensures
        y >= height ==> layered_spec(surface, deep, y, height) == BlockId(0),
        y == height - 1 ==> layered_spec(surface, deep, y, height) == surface,
        y < height - 1 ==> layered_spec(surface, deep, y, height) == deep,
{
}

/// A generated chunk holds the world's blocks at its place: the cell at `lx, ly, lz` of a
/// chunk is the block at sixteen times the chunk's coordinates plus its own, under the
/// ground height of its own column.
pub proof fn lemma_generated_at_its_place(
    height: HeightFn,
    block: BlockFn,
    c: (i32, i32, i32),
    data: ChunkData,
    lx: int,
    ly: int,
    lz: int,
)
    requires
        is_generated(height, block, c, data),
        0 <= lx < 16,
        0 <= ly < 16,
        0 <= lz < 16,
    ensures
        ({
            let (x, y, z) = (
                (c.0 * 16 + lx) as i32,
                (c.1 * 16 + ly) as i32,
                (c.2 * 16 + lz) as i32,
            );
            data@[lx + lz * 16 + ly * 256] == block(x, y, z, height(x, z))
        }),
        column_heights(height, c.0, c.2)[lx + lz * 16] == height(
            (c.0 * 16 + lx) as i32,
            (c.2 * 16 + lz) as i32,
        ),
{
    let i = lx + lz * 16 + ly * 256;
    crate::world::chunk::lemma_index_local_inverse(i, lx, ly, lz);
    assert(local_of_spec(i) == (lx, ly, lz));
    assert(0 <= i < CHUNK_VOLUME);
    assert(data@[i] == generated(height, block, c, i));
    assert((lx + lz * 16) % 16 == lx && (lx + lz * 16) / 16 == lz);
}

/// Kinds of worlds are numbered from nought without a gap, the classic one first, and no two
/// alike.
pub proof fn lemma_kinds_are_numbered(a: WorldgenKind, b: WorldgenKind)
    ensures
        WorldgenKind::Classic.wire_spec() == 0,
        a.wire_spec() < 2,
        a.wire_spec() == b.wire_spec() ==> a == b,
{
}

} // verus!
