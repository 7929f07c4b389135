//! The batched fill of classic chunks.
//!
//! A chunk is filled from its columns and, per column, masks of what is carved,
//! overhung or island. Chunks that are all stone, all water or all air by their
//! bounds alone are not walked at all. The outcome is that of asking cell by cell.
use vstd::prelude::*;

use crate::bits::{bit, lemma_set_bit, lemma_zero_bits};
use crate::block::BlockId;
use crate::world::chunk::{lemma_uniform_is_cheapest, ChunkData, CHUNK_VOLUME};
use crate::world::generation::{cell_hash, column_in_world, ColumnHeights, CHUNK_COLUMNS};
use crate::world::terrain::{
    ask, carved, carved_spec, hears, is_noise, island_spec, lemma_caves_are_hollow,
    overhang_solid, overhang_spec, y_in_reach, Column, NoiseFn, Probe, Terrain, CAVE_WALL_SALT, HEIGHT_LIMIT, OVERHANG_REACH,
};

verus! {

/// What the noise does to one column within one chunk, a bit per cell. Island bits
/// go four cells past the chunk's top.
#[derive(Clone, Copy, PartialEq, Eq, Debug, Structural)]
pub struct ColMask {
    pub wx: i32,
    pub wz: i32,
    pub carved: u64,
    pub overhang: u64,
    pub island: u64,
}

impl ColMask {
    /// Whether the mask says what the noise says.
    pub open spec fn tells(
        self,
        noise: NoiseFn,
        height: i32,
        y0: i32,
    ) -> bool {
        &&& forall|k: u64|
            k < 16 ==> #[trigger] bit(self.carved, k) == carved_spec(
                noise,
                self.wx,
                (y0 + k) as i32,
                self.wz,
                height,
            )
        &&& forall|k: u64|
            k < 16 ==> #[trigger] bit(self.overhang, k) == overhang_spec(
                noise,
                self.wx,
                (y0 + k) as i32,
                self.wz,
                height,
            )
        &&& forall|k: u64|
            k < 20 ==> #[trigger] bit(self.island, k) == island_spec(
                noise,
                self.wx,
                (y0 + k) as i32,
                self.wz,
            )
    }

    /// Whether the mask says what the noise says of the lowest `n` cells, and nothing
    /// of those above.
    spec fn tells_below(self, noise: NoiseFn, height: i32, y0: i32, n: int) -> bool {
        &&& forall|j: u64|
            j < 64 ==> #[trigger] bit(self.carved, j) == (j < n && j < 16 && carved_spec(
                noise,
                self.wx,
                (y0 + j) as i32,
                self.wz,
                height,
            ))
        &&& forall|j: u64|
            j < 64 ==> #[trigger] bit(self.overhang, j) == (j < n && j < 16 && overhang_spec(
                noise,
                self.wx,
                (y0 + j) as i32,
                self.wz,
                height,
            ))
        &&& forall|j: u64|
            j < 64 ==> #[trigger] bit(self.island, j) == (j < n && island_spec(
                noise,
                self.wx,
                (y0 + j) as i32,
                self.wz,
            ))
    }

    /// Whether the mask says what the noise says, and nothing is carved right past a rim
    /// that is claimed to be quiet.
    pub open spec fn bounded(
        self,
        noise: NoiseFn,
        height: i32,
        y0: i32,
        lo_quiet: bool,
        hi_quiet: bool,
    ) -> bool {
        &&& self.tells(noise, height, y0)
        &&& lo_quiet ==> !carved_spec(noise, self.wx, (y0 - 1) as i32, self.wz, height)
        &&& hi_quiet ==> !carved_spec(noise, self.wx, (y0 + 16) as i32, self.wz, height)
    }
}

fn holds(w: u64, k: usize) -> (b: bool)
    requires
        k < 64,
    ensures
        b == bit(w, k as u64),
{
    (w >> (k as u64)) & 1 == 1
}

/// Whether a chunk of the layer can be filled with 32-bit depths.
pub open spec fn layer_in_reach(cy: int) -> bool {
    y_in_reach(cy * 16 - 1) && y_in_reach(cy * 16 + 20)
}

/// Whether no cell of a column within a layer is carved.
pub open spec fn column_quiet(
    noise: NoiseFn,
    x: i32,
    z: i32,
    height: i32,
    y0: int,
) -> bool {
    forall|y: i32| y0 <= y < y0 + 16 ==> !#[trigger] carved_spec(noise, x, y, z, height)
}

/// World coordinates of column `k` of a chunk column.
pub open spec fn column_x(cx: i32, k: int) -> i32 {
    (cx * 16 + k % 16) as i32
}

/// World coordinates of column `k` of a chunk column.
pub open spec fn column_z(cz: i32, k: int) -> i32 {
    (cz * 16 + k / 16) as i32
}

/// Whether nothing is carved in a layer of a chunk column.
pub open spec fn layer_quiet(
    noise: NoiseFn,
    cx: i32,
    cz: i32,
    cols: Seq<Column>,
    cy: int,
) -> bool {
    forall|k: int|
        0 <= k < CHUNK_COLUMNS ==> column_quiet(
            noise,
            column_x(cx, k),
            column_z(cz, k),
            (#[trigger] cols[k]).height,
            cy * 16,
        )
}

/// Whether no island reaches into a chunk.
pub open spec fn island_free(
    noise: NoiseFn,
    cx: i32,
    cy: i32,
    cz: i32,
) -> bool {
    forall|k: int, y: i32|
        0 <= k < CHUNK_COLUMNS && cy * 16 <= y < cy * 16 + 16 ==> !#[trigger] island_spec(
            noise,
            column_x(cx, k),
            y,
            column_z(cz, k),
        )
}

/// The contents of a chunk, cell by cell.
pub open spec fn chunk_spec(
    t: Terrain,
    noise: NoiseFn,
    cols: Seq<Column>,
    c: (i32, i32, i32),
) -> Seq<BlockId> {
    Seq::new(
        CHUNK_VOLUME as nat,
        |i: int|
            t.cell_spec(
                noise,
                cols[i % 256],
                column_x(c.0, i % 256),
                (c.1 * 16 + i / 256) as i32,
                column_z(c.2, i % 256),
                true,
            ),
    )
}

/// What is known of a chunk from bounds alone. Each fact may be false for a chunk
/// of which it holds, and never the other way round.
#[derive(Clone, Copy, PartialEq, Eq, Debug, Structural)]
pub struct Bounds {
    /// Nothing is carved in the chunk.
    pub quiet: bool,
    /// Nothing is carved in the chunk below.
    pub quiet_below: bool,
    /// Nothing is carved in the chunk above.
    pub quiet_above: bool,
    /// No island reaches into the chunk.
    pub island_free: bool,
}

impl Bounds {
    /// Whether every fact that is claimed holds.
    pub open spec fn sound(
        self,
        noise: NoiseFn,
        cols: Seq<Column>,
        c: (i32, i32, i32),
    ) -> bool {
        &&& self.quiet ==> layer_quiet(noise, c.0, c.2, cols, c.1 as int)
        &&& self.quiet_below ==> layer_quiet(noise, c.0, c.2, cols, c.1 - 1)
        &&& self.quiet_above ==> layer_quiet(noise, c.0, c.2, cols, c.1 + 1)
        &&& self.island_free ==> island_free(noise, c.0, c.1, c.2)
    }
}

/// Whether every claim about a run of layers from `low` on holds: `quiet` ones, from the
/// layer below the run, that nothing is carved there; `clear` ones that no island is.
pub open spec fn claims_hold(
    noise: NoiseFn,
    cx: i32,
    cz: i32,
    cols: Seq<Column>,
    low: i32,
    quiet: Seq<bool>,
    clear: Seq<bool>,
) -> bool {
    &&& forall|j: int|
        0 <= j < quiet.len() && #[trigger] quiet[j] ==> layer_quiet(noise, cx, cz, cols, low - 1 + j)
    &&& forall|j: int|
        0 <= j < clear.len() && #[trigger] clear[j] ==> island_free(noise, cx, (low + j) as i32, cz)
}

/// A mask of a column within sound bounds is bounded.
proof fn lemma_bounded(
    noise: NoiseFn,
    cols: Seq<Column>,
    c: (i32, i32, i32),
    b: Bounds,
    m: ColMask,
    k: int,
)
    requires
        0 <= k < CHUNK_COLUMNS,
        layer_in_reach(c.1 as int),
        b.sound(noise, cols, c),
        m.wx == column_x(c.0, k),
        m.wz == column_z(c.2, k),
        m.tells(noise, cols[k].height, (c.1 * 16) as i32),
    ensures
        m.bounded(noise, cols[k].height, (c.1 * 16) as i32, b.quiet_below, b.quiet_above),
{
    if b.quiet_below {
        assert(column_quiet(noise, m.wx, m.wz, cols[k].height, (c.1 - 1) * 16));
    }
    if b.quiet_above {
        assert(column_quiet(noise, m.wx, m.wz, cols[k].height, (c.1 + 1) * 16));
    }
}

/// The least and greatest ground height and water level of a chunk column.
#[derive(Clone, Copy, PartialEq, Eq, Debug, Structural)]
pub struct Extents {
    pub h_min: i32,
    pub h_max: i32,
    pub w_min: i32,
    pub w_max: i32,
}

impl Extents {
    /// Whether the extents enclose the columns and are met.
    pub open spec fn of(self, cols: Seq<Column>) -> bool {
        &&& forall|k: int|
            0 <= k < cols.len() ==> self.h_min <= (#[trigger] cols[k]).height <= self.h_max
                && self.w_min <= cols[k].water_level <= self.w_max
        &&& exists|k: int| 0 <= k < cols.len() && (#[trigger] cols[k]).height == self.h_min
        &&& exists|k: int| 0 <= k < cols.len() && (#[trigger] cols[k]).height == self.h_max
        &&& exists|k: int| 0 <= k < cols.len() && (#[trigger] cols[k]).water_level == self.w_min
        &&& exists|k: int| 0 <= k < cols.len() && (#[trigger] cols[k]).water_level == self.w_max
    }
}

/// The extents of a chunk column.
pub fn column_extents(cols: &[Column; CHUNK_COLUMNS]) -> (e: Extents)
    ensures
        e.of(cols@),
{
    let first: Column = cols[0];
    let mut e = Extents {
        h_min: first.height,
        h_max: first.height,
        w_min: first.water_level,
        w_max: first.water_level,
    };
    let mut k: usize = 1;
    let ghost mut g: (int, int, int, int) = (0, 0, 0, 0);
    while k < CHUNK_COLUMNS
        invariant
            1 <= k <= CHUNK_COLUMNS,
            forall|j: int|
                0 <= j < k ==> e.h_min <= (#[trigger] cols@[j]).height <= e.h_max && e.w_min
                    <= cols@[j].water_level <= e.w_max,
            0 <= g.0 < k && cols@[g.0].height == e.h_min,
            0 <= g.1 < k && cols@[g.1].height == e.h_max,
            0 <= g.2 < k && cols@[g.2].water_level == e.w_min,
            0 <= g.3 < k && cols@[g.3].water_level == e.w_max,
        decreases CHUNK_COLUMNS - k,
    {
        let c: Column = cols[k];
        if c.height < e.h_min {
            e.h_min = c.height;
            proof {
                g.0 = k as int;
            }
        }
        if c.height > e.h_max {
            e.h_max = c.height;
            proof {
                g.1 = k as int;
            }
        }
        if c.water_level < e.w_min {
            e.w_min = c.water_level;
            proof {
                g.2 = k as int;
            }
        }
        if c.water_level > e.w_max {
            e.w_max = c.water_level;
            proof {
                g.3 = k as int;
            }
        }
        k = k + 1;
    }
    e
}

/// The mask of one column within one chunk.
pub fn column_mask<N: Fn(Probe, i32, i32, i32, i32) -> bool>(
    noise: &N,
    p: &Column,
    wx: i32,
    wz: i32,
    y0: i32,
) -> (m: ColMask)
    requires
        is_noise(*noise),
        p.in_range(),
        y_in_reach(y0 - 1),
        y_in_reach(y0 + 20),
    ensures
        m.wx == wx,
        m.wz == wz,
        forall|said: NoiseFn| #[trigger] hears(*noise, said) ==> m.tells(said, p.height, y0),
{
    let mut m = ColMask { wx, wz, carved: 0, overhang: 0, island: 0 };
    let mut k: usize = 0;
    proof {
        lemma_zero_bits();
    }
    while k < 20
        invariant
            k <= 20,
            is_noise(*noise),
            p.in_range(),
            y_in_reach(y0 - 1),
            y_in_reach(y0 + 20),
            m.wx == wx,
            m.wz == wz,
            forall|said: NoiseFn| #[trigger]
                hears(*noise, said) ==> m.tells_below(said, p.height, y0, k as int),
        decreases 20 - k,
    {
        let ghost before = m;
        let wy: i32 = y0 + k as i32;
        proof {
            lemma_set_bit(m.carved, k as u64);
            lemma_set_bit(m.overhang, k as u64);
            lemma_set_bit(m.island, k as u64);
        }
        if k < 16 && carved(noise, wx, wy, wz, p.height) {
            m.carved = m.carved | (1u64 << (k as u64));
        }
        if k < 16 && overhang_solid(noise, wx, wy, wz, p.height) {
            m.overhang = m.overhang | (1u64 << (k as u64));
        }
        if ask(noise, Probe::Island, wx, wy, wz, 0) {
            m.island = m.island | (1u64 << (k as u64));
        }
        proof {
            assert forall|said: NoiseFn| #[trigger] hears(*noise, said) implies m.tells_below(
                said,
                p.height,
                y0,
                k + 1,
            ) by {
                assert(before.tells_below(said, p.height, y0, k as int));
                assert((y0 + k as u64) as i32 == wy);
            }
        }
        k = k + 1;
    }
    m
}

/// Whether a carved cell may stand over or under a cell: one in the mask, or one
/// past a rim behind which something may be carved.
pub open spec fn wall_adjacent_spec(m: ColMask, ly: int, lo_quiet: bool, hi_quiet: bool) -> bool {
    ||| ly > 0 && bit(m.carved, (ly - 1) as u64)
    ||| ly < 15 && bit(m.carved, (ly + 1) as u64)
    ||| ly == 0 && !lo_quiet
    ||| ly == 15 && !hi_quiet
}

/// Whether a carved cell may stand over or under a cell.
pub fn wall_adjacent(m: &ColMask, ly: usize, lo_quiet: bool, hi_quiet: bool) -> (b: bool)
    requires
        ly < 16,
    ensures
        b == wall_adjacent_spec(*m, ly as int, lo_quiet, hi_quiet),
{
    (ly > 0 && holds(m.carved, ly - 1)) || (ly + 1 < 16 && holds(m.carved, ly + 1)) || (ly == 0
        && !lo_quiet) || (ly + 1 == 16 && !hi_quiet)
}

impl Terrain {
    /// The cluster that grows on a cell of a masked column, if any.
    pub fn wall_cell<N: Fn(Probe, i32, i32, i32, i32) -> bool>(
        &self,
        noise: &N,
        p: &Column,
        m: &ColMask,
        y0: i32,
        ly: usize,
        lo_quiet: bool,
        hi_quiet: bool,
    ) -> (r: Option<BlockId>)
        requires
            is_noise(*noise),
            p.in_range(),
            ly < 16,
            y_in_reach(y0 - 1),
            y_in_reach(y0 + 20),
            y0 + ly < p.height,
        ensures
            forall|said: NoiseFn| #[trigger]
                hears(*noise, said) && m.bounded(said, p.height, y0, lo_quiet, hi_quiet) ==> r
                    == self.cave_wall_spec(said, *p, m.wx, (y0 + ly) as i32, m.wz),
    {
        let wy: i32 = y0 + ly as i32;
        proof {
            assert forall|said: NoiseFn| #[trigger] m.tells(said, p.height, y0) implies (ly > 0
                ==> bit(m.carved, (ly - 1) as u64) == carved_spec(
                said,
                m.wx,
                (wy - 1) as i32,
                m.wz,
                p.height,
            )) && (ly < 15 ==> bit(m.carved, (ly + 1) as u64) == carved_spec(
                said,
                m.wx,
                (wy + 1) as i32,
                m.wz,
                p.height,
            )) by {
                if ly > 0 {
                    assert((y0 + (ly - 1) as u64) as i32 == wy - 1);
                }
                if ly < 15 {
                    assert((y0 + (ly + 1) as u64) as i32 == wy + 1);
                }
            }
        }
        match &self.mat.cave_wall {
            Some(cw) => {
                let depth: i32 = p.height - wy;
                if depth < cw.min_depth || !wall_adjacent(m, ly, lo_quiet, hi_quiet) {
                    return None;
                }
                if cell_hash(self.seed ^ CAVE_WALL_SALT, m.wx, wy, m.wz) >= cw.width {
                    return None;
                }
                if (ly > 0 && holds(m.carved, ly - 1)) || (ly + 1 < 16 && holds(m.carved, ly + 1)) {
                    return Some(cw.id);
                }
                if carved(noise, m.wx, wy + 1, m.wz, p.height) || carved(
                    noise,
                    m.wx,
                    wy - 1,
                    m.wz,
                    p.height,
                ) {
                    Some(cw.id)
                } else {
                    None
                }
            },
            None => None,
        }
    }

    /// The block of a cell of a masked column.
    pub fn column_at<N: Fn(Probe, i32, i32, i32, i32) -> bool>(
        &self,
        noise: &N,
        p: &Column,
        m: &ColMask,
        y0: i32,
        ly: usize,
        lo_quiet: bool,
        hi_quiet: bool,
    ) -> (id: BlockId)
        requires
            self.wf(),
            is_noise(*noise),
            p.in_range(),
            ly < 16,
            y_in_reach(y0 - 1),
            y_in_reach(y0 + 20),
        ensures
            forall|said: NoiseFn| #[trigger]
                hears(*noise, said) && m.bounded(said, p.height, y0, lo_quiet, hi_quiet) ==> id
                    == self.cell_spec(said, *p, m.wx, (y0 + ly) as i32, m.wz, true),
    {
        let wy: i32 = y0 + ly as i32;
        let height: i32 = p.height;
        if wy < height {
            if wy >= height - 1 {
                p.dress
            } else if wy >= height - 3 {
                self.mat.crust[p.kind.index()]
            } else if holds(m.carved, ly) {
                BlockId::air()
            } else {
                let depth: i32 = height - wy;
                if depth <= self.mat.max_scattered_depth {
                    match self.ore_at(m.wx, wy, m.wz, depth) {
                        Some(id) => {
                            return id;
                        },
                        None => {},
                    }
                }
                match self.wall_cell(noise, p, m, y0, ly, lo_quiet, hi_quiet) {
                    Some(id) => id,
                    None => self.mat.stone,
                }
            }
        } else if wy < p.water_level {
            self.mat.water
        } else if holds(m.overhang, ly) {
            self.mat.stone
        } else if holds(m.island, ly) {
            let above: [bool; 4] = [
                holds(m.island, ly + 1),
                holds(m.island, ly + 2),
                holds(m.island, ly + 3),
                holds(m.island, ly + 4),
            ];
            proof {
                assert forall|said: NoiseFn| #[trigger] m.tells(said, height, y0) implies above@
                    == Terrain::island_above(said, m.wx, wy, m.wz) by {
                    assert forall|k: int| 0 <= k < 4 implies above@[k] == island_spec(
                        said,
                        m.wx,
                        (wy + 1 + k) as i32,
                        m.wz,
                    ) by {
                        assert(bit(m.island, (ly + 1 + k) as u64) == island_spec(
                            said,
                            m.wx,
                            (y0 + (ly + 1 + k) as u64) as i32,
                            m.wz,
                        ));
                    }
                    assert(above@ =~= Terrain::island_above(said, m.wx, wy, m.wz));
                }
            }
            self.island_block(m.wx, wy, m.wz, above)
        } else {
            BlockId::air()
        }
    }

    /// Whether a chunk up to `y1` is all stone by its bounds: it lies below the
    /// reach of every scattered rule, and nothing is carved in it, nor next to it
    /// where clusters grow on cave walls.
    pub fn deep_uniform(&self, y1: i32, h_min: i32, b: &Bounds) -> (r: bool)
        requires
            -HEIGHT_LIMIT <= h_min <= HEIGHT_LIMIT,
            0 <= self.mat.max_scattered_depth <= HEIGHT_LIMIT,
        ensures
            r == (y1 < h_min - self.mat.max_scattered_depth && b.quiet && (
            self.mat.cave_wall is None || (b.quiet_below && b.quiet_above))),
    {
        if y1 >= h_min - self.mat.max_scattered_depth || !b.quiet {
            return false;
        }
        if self.mat.cave_wall.is_none() {
            return true;
        }
        b.quiet_below && b.quiet_above
    }

    /// A quiet chunk below every scattered rule is stone.
    proof fn lemma_deep(
        self,
        noise: NoiseFn,
        cols: Seq<Column>,
        c: (i32, i32, i32),
        b: Bounds,
        h_min: i32,
        i: int,
    )
        requires
            self.wf(),
            cols.len() == CHUNK_COLUMNS,
            layer_in_reach(c.1 as int),
            b.sound(noise, cols, c),
            b.quiet,
            self.mat.cave_wall is None || (b.quiet_below && b.quiet_above),
            forall|k: int| 0 <= k < CHUNK_COLUMNS ==> h_min <= (#[trigger] cols[k]).height,
            c.1 * 16 + 15 < h_min - self.mat.max_scattered_depth,
            0 <= i < CHUNK_VOLUME,
        ensures
            chunk_spec(self, noise, cols, c)[i] == self.mat.stone,
    {
        let k = i % 256;
        let p = cols[k];
        let x = column_x(c.0, k);
        let z = column_z(c.2, k);
        let y = (c.1 * 16 + i / 256) as i32;
        assert(p.height >= h_min);
        assert(column_quiet(noise, x, z, p.height, c.1 * 16));
        assert(!carved_spec(noise, x, y, z, p.height));
        if self.mat.cave_wall is Some {
            assert(column_quiet(noise, x, z, p.height, (c.1 - 1) * 16));
            assert(column_quiet(noise, x, z, p.height, (c.1 + 1) * 16));
            assert(!carved_spec(noise, x, (y - 1) as i32, z, p.height));
            assert(!carved_spec(noise, x, (y + 1) as i32, z, p.height));
        }
    }

    /// A chunk above all ground and clear of islands holds water up to the table
    /// and nothing above it.
    proof fn lemma_sky(
        self,
        noise: NoiseFn,
        cols: Seq<Column>,
        c: (i32, i32, i32),
        e: Extents,
        i: int,
    )
        requires
            cols.len() == CHUNK_COLUMNS,
            layer_in_reach(c.1 as int),
            island_free(noise, c.0, c.1, c.2),
            e.of(cols),
            c.1 * 16 >= e.h_max + OVERHANG_REACH,
            0 <= i < CHUNK_VOLUME,
        ensures
            c.1 * 16 + 15 < e.w_min ==> chunk_spec(self, noise, cols, c)[i] == self.mat.water,
            c.1 * 16 >= e.w_max ==> chunk_spec(self, noise, cols, c)[i] == BlockId::air_spec(),
    {
        let k = i % 256;
        let p = cols[k];
        let x = column_x(c.0, k);
        let z = column_z(c.2, k);
        let y = (c.1 * 16 + i / 256) as i32;
        assert(p.height <= e.h_max && e.w_min <= p.water_level <= e.w_max);
        assert(!island_spec(noise, x, y, z));
    }

    /// One chunk from its columns. Bounds only spare work.
    pub fn fill_chunk<N: Fn(Probe, i32, i32, i32, i32) -> bool>(
        &self,
        noise: &N,
        cx: i32,
        cy: i32,
        cz: i32,
        cols: &[Column; CHUNK_COLUMNS],
        e: &Extents,
        b: &Bounds,
    ) -> (data: ChunkData)
        requires
            self.wf(),
            is_noise(*noise),
            column_in_world(cx, cz),
            layer_in_reach(cy as int),
            forall|k: int| 0 <= k < CHUNK_COLUMNS ==> (#[trigger] cols@[k]).in_range(),
            e.of(cols@),
        ensures
            data.wf(),
            forall|said: NoiseFn| #[trigger]
                hears(*noise, said) && b.sound(said, cols@, (cx, cy, cz)) ==> data.cheapest(
                    chunk_spec(*self, said, cols@, (cx, cy, cz)),
                ),
    {
        let y0: i32 = cy * 16;
        let ghost c = (cx, cy, cz);
        if self.deep_uniform(y0 + 15, e.h_min, b) {
            let data = ChunkData::Uniform(self.mat.stone);
            assert forall|said: NoiseFn| #[trigger] b.sound(said, cols@, c) implies data.cheapest(
                chunk_spec(*self, said, cols@, c),
            ) by {
                let want = chunk_spec(*self, said, cols@, c);
                assert forall|i: int| 0 <= i < CHUNK_VOLUME implies want[i] == self.mat.stone by {
                    self.lemma_deep(said, cols@, c, *b, e.h_min, i);
                }
                assert(data@ =~= want);
                lemma_uniform_is_cheapest(data, want);
            }
            return data;
        }
        if y0 >= e.h_max + OVERHANG_REACH && b.island_free {
            if y0 + 15 < e.w_min {
                let data = ChunkData::Uniform(self.mat.water);
                assert forall|said: NoiseFn| #[trigger] b.sound(said, cols@, c) implies data.cheapest(
                    chunk_spec(*self, said, cols@, c),
                ) by {
                    let want = chunk_spec(*self, said, cols@, c);
                    assert forall|i: int| 0 <= i < CHUNK_VOLUME implies want[i] == self.mat.water by {
                        self.lemma_sky(said, cols@, c, *e, i);
                    }
                    assert(data@ =~= want);
                    lemma_uniform_is_cheapest(data, want);
                }
                return data;
            }
            if y0 >= e.w_max {
                let data = ChunkData::Uniform(BlockId::air());
                assert forall|said: NoiseFn| #[trigger] b.sound(said, cols@, c) implies data.cheapest(
                    chunk_spec(*self, said, cols@, c),
                ) by {
                    let want = chunk_spec(*self, said, cols@, c);
                    assert forall|i: int| 0 <= i < CHUNK_VOLUME implies want[i]
                        == BlockId::air_spec() by {
                        self.lemma_sky(said, cols@, c, *e, i);
                    }
                    assert(data@ =~= want);
                    lemma_uniform_is_cheapest(data, want);
                }
                return data;
            }
        }
        let mut cells: Box<[BlockId; CHUNK_VOLUME]> = Box::new([BlockId::air();CHUNK_VOLUME]);
        let mut k: usize = 0;
        while k < CHUNK_COLUMNS
            invariant
                k <= CHUNK_COLUMNS,
                self.wf(),
                is_noise(*noise),
                column_in_world(cx, cz),
                layer_in_reach(cy as int),
                y0 == cy * 16,
                c == (cx, cy, cz),
                forall|k: int| 0 <= k < CHUNK_COLUMNS ==> (#[trigger] cols@[k]).in_range(),
                forall|said: NoiseFn| #[trigger]
                    hears(*noise, said) && b.sound(said, cols@, c) ==> self.filled(
                        said,
                        cols@,
                        c,
                        k as int,
                        cells@,
                    ),
            decreases CHUNK_COLUMNS - k,
        {
            let wx: i32 = cx * 16 + (k % 16) as i32;
            let wz: i32 = cz * 16 + (k / 16) as i32;
            let p: Column = cols[k];
            let m = column_mask(noise, &p, wx, wz, y0);
            let ghost before = cells@;
            self.fill_run(noise, &p, &m, y0, k, b, &mut cells);
            proof {
                assert forall|said: NoiseFn| #[trigger]
                    hears(*noise, said) && b.sound(said, cols@, c) implies self.filled(
                    said,
                    cols@,
                    c,
                    k + 1,
                    cells@,
                ) by {
                    assert(self.filled(said, cols@, c, k as int, before));
                    lemma_bounded(said, cols@, c, *b, m, k as int);
                    self.lemma_run(said, cols@, c, k as int, m, before, cells@);
                }
            }
            k = k + 1;
        }
        let ghost got = cells@;
        let data = ChunkData::from_cells(cells);
        proof {
            assert forall|said: NoiseFn| #[trigger]
                hears(*noise, said) && b.sound(said, cols@, c) implies data.cheapest(
                chunk_spec(*self, said, cols@, c),
            ) by {
                assert(self.filled(said, cols@, c, CHUNK_COLUMNS as int, got));
                assert(got =~= chunk_spec(*self, said, cols@, c));
            }
        }
        data
    }

    /// Whether the first `n` columns of a chunk are filled.
    spec fn filled(
        self,
        noise: NoiseFn,
        cols: Seq<Column>,
        c: (i32, i32, i32),
        n: int,
        cells: Seq<BlockId>,
    ) -> bool {
        forall|i: int|
            0 <= i < CHUNK_VOLUME && i % 256 < n ==> #[trigger] cells[i] == chunk_spec(
                self,
                noise,
                cols,
                c,
            )[i]
    }

    /// One more column is filled.
    proof fn lemma_run(
        self,
        noise: NoiseFn,
        cols: Seq<Column>,
        c: (i32, i32, i32),
        k: int,
        m: ColMask,
        before: Seq<BlockId>,
        after: Seq<BlockId>,
    )
        requires
            0 <= k < CHUNK_COLUMNS,
            self.filled(noise, cols, c, k, before),
            m.wx == column_x(c.0, k),
            m.wz == column_z(c.2, k),
            forall|i: int|
                0 <= i < CHUNK_VOLUME && i % 256 != k ==> #[trigger] after[i] == before[i],
            forall|ly: int|
                0 <= ly < 16 ==> #[trigger] after[ly * 256 + k] == self.cell_spec(
                    noise,
                    cols[k],
                    m.wx,
                    (c.1 * 16 + ly) as i32,
                    m.wz,
                    true,
                ),
        ensures
            self.filled(noise, cols, c, k + 1, after),
    {
        let want = chunk_spec(self, noise, cols, c);
        assert forall|i: int| 0 <= i < CHUNK_VOLUME && i % 256 < k + 1 implies #[trigger] after[i]
            == want[i] by {
            if i % 256 == k {
                let ly = i / 256;
                assert(ly * 256 + k == i);
                assert(after[ly * 256 + k] == want[i]);
            } else {
                assert(after[i] == before[i]);
            }
        }
    }

    /// The sixteen cells of one column.
    fn fill_run<N: Fn(Probe, i32, i32, i32, i32) -> bool>(
        &self,
        noise: &N,
        p: &Column,
        m: &ColMask,
        y0: i32,
        k: usize,
        b: &Bounds,
        cells: &mut Box<[BlockId; CHUNK_VOLUME]>,
    )
        requires
            self.wf(),
            is_noise(*noise),
            y_in_reach(y0 - 1),
            y_in_reach(y0 + 20),
            k < CHUNK_COLUMNS,
            p.in_range(),
        ensures
            forall|i: int|
                0 <= i < CHUNK_VOLUME && i % 256 != k ==> #[trigger] final(cells)@[i]
                    == old(cells)@[i],
            forall|said: NoiseFn, ly: int|
                #![trigger hears(*noise, said), final(cells)@[ly * 256 + k]]
                hears(*noise, said) && m.bounded(said, p.height, y0, b.quiet_below, b.quiet_above)
                    && 0 <= ly < 16 ==> final(cells)@[ly * 256 + k] == self.cell_spec(
                    said,
                    *p,
                    m.wx,
                    (y0 + ly) as i32,
                    m.wz,
                    true,
                ),
    {
        let mut ly: usize = 0;
        while ly < 16
            invariant
                ly <= 16,
                self.wf(),
                is_noise(*noise),
                y_in_reach(y0 - 1),
                y_in_reach(y0 + 20),
                k < CHUNK_COLUMNS,
                p.in_range(),
                forall|i: int|
                    0 <= i < CHUNK_VOLUME && i % 256 != k ==> #[trigger] cells@[i]
                        == old(cells)@[i],
                forall|said: NoiseFn, j: int|
                    #![trigger hears(*noise, said), cells@[j * 256 + k]]
                    hears(*noise, said) && m.bounded(
                        said,
                        p.height,
                        y0,
                        b.quiet_below,
                        b.quiet_above,
                    ) && 0 <= j < ly ==> cells@[j * 256 + k] == self.cell_spec(
                        said,
                        *p,
                        m.wx,
                        (y0 + j) as i32,
                        m.wz,
                        true,
                    ),
            decreases 16 - ly,
        {
            let id = self.column_at(noise, p, m, y0, ly, b.quiet_below, b.quiet_above);
            let at: usize = ly * 256 + k;
            assert(at as int % 256 == k);
            cells[at] = id;
            ly = ly + 1;
        }
    }

    /// The chunks of a vertical run, bottom first, and the ground heights of their
    /// column. `quiet` covers the run and one layer past either end, `clear` of islands
    /// the run.
    pub fn generate_column<N: Fn(Probe, i32, i32, i32, i32) -> bool>(
        &self,
        noise: &N,
        cx: i32,
        cz: i32,
        low: i32,
        high: i32,
        cols: &[Column; CHUNK_COLUMNS],
        quiet: &Vec<bool>,
        clear: &Vec<bool>,
    ) -> (r: (Vec<(i32, ChunkData)>, ColumnHeights))
        requires
            self.wf(),
            is_noise(*noise),
            column_in_world(cx, cz),
            low <= high ==> layer_in_reach(low as int) && layer_in_reach(high as int)
                && quiet@.len() == high - low + 3 && clear@.len() == high - low + 1,
            forall|k: int| 0 <= k < CHUNK_COLUMNS ==> (#[trigger] cols@[k]).in_range(),
        ensures
            forall|k: int| 0 <= k < CHUNK_COLUMNS ==> (#[trigger] r.1@[k]) == cols@[k].height,
            r.0@.len() == (if low <= high {
                high - low + 1
            } else {
                0
            }),
            forall|k: int|
                0 <= k < r.0@.len() ==> (#[trigger] r.0@[k]).0 == low + k && r.0@[k].1.wf(),
            forall|said: NoiseFn, k: int|
                #![trigger hears(*noise, said), r.0@[k]]
                hears(*noise, said) && claims_hold(said, cx, cz, cols@, low, quiet@, clear@) && 0
                    <= k < r.0@.len() ==> r.0@[k].1.cheapest(
                    chunk_spec(*self, said, cols@, (cx, r.0@[k].0, cz)),
                ),
    {
        let e = column_extents(cols);
        let mut heights: ColumnHeights = [0i32;CHUNK_COLUMNS];
        let mut k: usize = 0;
        while k < CHUNK_COLUMNS
            invariant
                k <= CHUNK_COLUMNS,
                forall|j: int| 0 <= j < k ==> (#[trigger] heights@[j]) == cols@[j].height,
            decreases CHUNK_COLUMNS - k,
        {
            heights[k] = cols[k].height;
            k = k + 1;
        }
        let mut chunks: Vec<(i32, ChunkData)> = Vec::new();
        if low <= high {
            let mut cy: i32 = low;
            let mut j: usize = 0;
            while cy <= high
                invariant
                    low <= high,
                    low <= cy <= high + 1,
                    j == cy - low,
                    self.wf(),
                    is_noise(*noise),
                    column_in_world(cx, cz),
                    layer_in_reach(low as int),
                    layer_in_reach(high as int),
                    quiet@.len() == high - low + 3,
                    clear@.len() == high - low + 1,
                    forall|k: int| 0 <= k < CHUNK_COLUMNS ==> (#[trigger] cols@[k]).in_range(),
                    e.of(cols@),
                    chunks@.len() == cy - low,
                    forall|k: int|
                        0 <= k < chunks@.len() ==> (#[trigger] chunks@[k]).0 == low + k
                            && chunks@[k].1.wf(),
                    forall|said: NoiseFn, k: int|
                        #![trigger hears(*noise, said), chunks@[k]]
                        hears(*noise, said) && claims_hold(said, cx, cz, cols@, low, quiet@, clear@)
                            && 0 <= k < chunks@.len() ==> chunks@[k].1.cheapest(
                            chunk_spec(*self, said, cols@, (cx, chunks@[k].0, cz)),
                        ),
                decreases high + 1 - cy,
            {
                let b = Bounds {
                    quiet_below: quiet[j],
                    quiet: quiet[j + 1],
                    quiet_above: quiet[j + 2],
                    island_free: clear[j],
                };
                let data = self.fill_chunk(noise, cx, cy, cz, cols, &e, &b);
                proof {
                    assert forall|said: NoiseFn| #[trigger]
                        claims_hold(said, cx, cz, cols@, low, quiet@, clear@) implies b.sound(
                        said,
                        cols@,
                        (cx, cy, cz),
                    ) by {
                        assert(b.quiet_below ==> quiet@[j as int]);
                        assert(b.quiet ==> quiet@[j + 1]);
                        assert(b.quiet_above ==> quiet@[j + 2]);
                        assert(b.island_free ==> clear@[j as int]);
                    }
                }
                chunks.push((cy, data));
                cy = cy + 1;
                j = j + 1;
            }
        }
        (chunks, heights)
    }
}

/// Deep cavern clusters hug carved cells: one grows only over or under a cell that
/// is carved.
pub proof fn lemma_clusters_hug_caves(
    t: Terrain,
    noise: NoiseFn,
    p: Column,
    wx: i32,
    wy: i32,
    wz: i32,
)
    requires
        t.cave_wall_spec(noise, p, wx, wy, wz) is Some,
    ensures
        carved_spec(noise, wx, (wy + 1) as i32, wz, p.height) || carved_spec(
            noise,
            wx,
            (wy - 1) as i32,
            wz,
            p.height,
        ),
        p.height - wy >= t.mat.cave_wall->0.min_depth,
{
}

/// The topmost ground cell of a column is never carved.
pub proof fn lemma_top_stays(
    t: Terrain,
    noise: NoiseFn,
    p: Column,
    wx: i32,
    wz: i32,
)
    requires
        p.in_range(),
    ensures
        t.cell_spec(noise, p, wx, (p.height - 1) as i32, wz, true) == p.dress,
{
}

/// A chunk is filled with the cells of its place in the world, whichever chunk they are
/// asked for in: the cell at `lx, ly, lz` of chunk `c` is the one at world coordinates
/// sixteen times the chunk's plus its own, under its own column.
pub proof fn lemma_chunk_is_its_place(
    t: Terrain,
    noise: NoiseFn,
    cols: Seq<Column>,
    c: (i32, i32, i32),
    lx: int,
    ly: int,
    lz: int,
)
    requires
        0 <= lx < 16,
        0 <= ly < 16,
        0 <= lz < 16,
    ensures
        chunk_spec(t, noise, cols, c)[lx + lz * 16 + ly * 256] == t.cell_spec(
            noise,
            cols[lx + lz * 16],
            (c.0 * 16 + lx) as i32,
            (c.1 * 16 + ly) as i32,
            (c.2 * 16 + lz) as i32,
            true,
        ),
{
    let i = lx + lz * 16 + ly * 256;
    assert(i % 256 == lx + lz * 16 && i / 256 == ly);
    assert((i % 256) % 16 == lx && (i % 256) / 16 == lz);
}

/// A filled chunk is hollow where the world is: a cell below the three top ground cells
/// of its column that a cave or a ravine takes is empty.
pub proof fn lemma_chunks_are_hollow(
    t: Terrain,
    noise: NoiseFn,
    cols: Seq<Column>,
    c: (i32, i32, i32),
    lx: int,
    ly: int,
    lz: int,
)
    requires
        0 <= lx < 16,
        0 <= ly < 16,
        0 <= lz < 16,
        layer_in_reach(c.1 as int),
        cols[lx + lz * 16].in_range(),
        c.1 * 16 + ly < cols[lx + lz * 16].height - 3,
        carved_spec(
            noise,
            (c.0 * 16 + lx) as i32,
            (c.1 * 16 + ly) as i32,
            (c.2 * 16 + lz) as i32,
            cols[lx + lz * 16].height,
        ),
    ensures
        chunk_spec(t, noise, cols, c)[lx + lz * 16 + ly * 256] == BlockId(0),
{
    lemma_chunk_is_its_place(t, noise, cols, c, lx, ly, lz);
    lemma_caves_are_hollow(
        t,
        noise,
        cols[lx + lz * 16],
        (c.0 * 16 + lx) as i32,
        (c.1 * 16 + ly) as i32,
        (c.2 * 16 + lz) as i32,
    );
}

} // verus!
