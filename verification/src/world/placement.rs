//! The resolved placement table: which block terrain puts where.
//!
//! Terrain speaks of elements; a table of placement rules turns the place of a
//! cell into a block. What is held here is that table with every block resolved.
use vstd::prelude::*;

use crate::block::BlockId;
use crate::world::generation::{cell_hash, cell_hash_spec};

verus! {

/// Salt of the second ore roll, so that the two rolls of a cell are independent.
pub const ORE_B_SALT: i64 = -7117300527739194069;

/// Salt of the roll for growth on the top ground cell.
pub const SURFACE_SCATTER_SALT: i64 = 0x3E7A_1B96_D4C8_205F;

/// How the top of a column is dressed.
#[derive(Clone, Copy, PartialEq, Eq, Debug, Structural)]
pub enum SurfaceKind {
    Grassy,
    Shore,
    BeachEdge,
    Snowy,
    Desert,
}

/// The number of surface kinds.
pub const SURFACE_KINDS: usize = 5;

impl SurfaceKind {
    /// The place of this kind in per-kind tables.
    pub open spec fn index_spec(self) -> usize {
        match self {
            SurfaceKind::Grassy => 0,
            SurfaceKind::Shore => 1,
            SurfaceKind::BeachEdge => 2,
            SurfaceKind::Snowy => 3,
            SurfaceKind::Desert => 4,
        }
    }

    /// The place of this kind in per-kind tables.
    #[verifier::when_used_as_spec(index_spec)]
    pub fn index(self) -> (i: usize)
        ensures
            i == self.index_spec(),
            i < SURFACE_KINDS,
    {
        match self {
            SurfaceKind::Grassy => 0,
            SurfaceKind::Shore => 1,
            SurfaceKind::BeachEdge => 2,
            SurfaceKind::Snowy => 3,
            SurfaceKind::Desert => 4,
        }
    }
}

/// One block's share of a roll, from a least depth on.
#[derive(Clone, Copy, PartialEq, Eq, Debug, Structural)]
pub struct Slice {
    pub min_depth: i32,
    /// The share of the 32-bit roll that this slice takes.
    pub width: u32,
    pub id: BlockId,
}

/// Where the first `n` slices of a table end on the roll.
pub open spec fn cut(slices: Seq<Slice>, n: int) -> u32
    decreases n,
{
    if n <= 0 {
        0
    } else {
        cut(slices, n - 1).wrapping_add(slices[n - 1].width)
    }
}

/// The first slice from `i` on that the roll falls into, among those before the
/// first that starts deeper.
pub open spec fn hit_from(slices: Seq<Slice>, depth: i32, roll: u32, i: int) -> Option<usize>
    decreases slices.len() - i,
{
    if i < 0 || i >= slices.len() || depth < slices[i].min_depth {
        None
    } else if roll < cut(slices, i + 1) {
        Some(i as usize)
    } else {
        hit_from(slices, depth, roll, i + 1)
    }
}

/// The slice that a roll falls into at a depth.
pub fn hit(slices: &Vec<Slice>, depth: i32, roll: u32) -> (r: Option<usize>)
    ensures
        r == hit_from(slices@, depth, roll, 0),
        r is Some ==> r->0 < slices@.len(),
{
    let mut end: u32 = 0;
    let mut i: usize = 0;
    while i < slices.len()
        invariant
            i <= slices@.len(),
            end == cut(slices@, i as int),
            hit_from(slices@, depth, roll, 0) == hit_from(slices@, depth, roll, i as int),
        decreases slices@.len() - i,
    {
        if depth < slices[i].min_depth {
            return None;
        }
        end = end.wrapping_add(slices[i].width);
        if roll < end {
            return Some(i);
        }
        i = i + 1;
    }
    None
}

/// The cluster that grows on carved floors and ceilings.
#[derive(Clone, Copy, PartialEq, Eq, Debug, Structural)]
pub struct CaveWall {
    pub min_depth: i32,
    /// The share of the 32-bit roll that grows the cluster.
    pub width: u32,
    pub id: BlockId,
}

/// A pair of ore rolls: what the two hits of a cell yield together. Distinct hits
/// yield the pair's own block.
#[derive(Clone)]
pub struct OreTable {
    pub seams: Vec<Slice>,
    /// The slices of the second roll, narrower than those of the first.
    pub seams_b: Vec<Slice>,
    /// The block of two distinct hits, at the larger index and then the smaller.
    pub pairs: Vec<Vec<BlockId>>,
}

impl OreTable {
    /// Whether every pair of hits has a block.
    pub open spec fn wf(self) -> bool {
        &&& self.seams_b@.len() <= self.seams@.len()
        &&& self.pairs@.len() == self.seams@.len()
        &&& forall|i: int| 0 <= i < self.pairs@.len() ==> (#[trigger] self.pairs@[i])@.len() >= i
    }

    /// What two hits yield.
    pub open spec fn yield_spec(self, a: Option<usize>, b: Option<usize>) -> Option<BlockId> {
        match (a, b) {
            (Some(i), Some(j)) => if i > j {
                Some(self.pairs@[i as int]@[j as int])
            } else if j > i {
                Some(self.pairs@[j as int]@[i as int])
            } else {
                Some(self.seams@[i as int].id)
            },
            (Some(i), None) => Some(self.seams@[i as int].id),
            (None, Some(j)) => Some(self.seams@[j as int].id),
            (None, None) => None,
        }
    }

    /// What two hits yield.
    pub fn yielded(&self, a: Option<usize>, b: Option<usize>) -> (r: Option<BlockId>)
        requires
            self.wf(),
            a is Some ==> a->0 < self.seams@.len(),
            b is Some ==> b->0 < self.seams_b@.len(),
        ensures
            r == self.yield_spec(a, b),
    {
        match (a, b) {
            (Some(i), Some(j)) => if i > j {
                Some(self.pairs[i][j])
            } else if j > i {
                Some(self.pairs[j][i])
            } else {
                Some(self.seams[i].id)
            },
            (Some(i), None) => Some(self.seams[i].id),
            (None, Some(j)) => Some(self.seams[j].id),
            (None, None) => None,
        }
    }

    /// The ore of a cell at a depth. The second roll is made only where it can
    /// land: from the depth of the shallowest slice on.
    pub open spec fn ore_spec(self, seed: i64, x: i32, y: i32, z: i32, depth: i32) -> Option<
        BlockId,
    > {
        let a = hit_from(self.seams@, depth, cell_hash_spec(seed, x, y, z), 0);
        let b = if self.seams@.len() > 0 && depth >= self.seams@[0].min_depth {
            hit_from(self.seams_b@, depth, cell_hash_spec(seed ^ ORE_B_SALT, x, y, z), 0)
        } else {
            None
        };
        self.yield_spec(a, b)
    }

    /// The ore of a cell at a depth.
    pub fn ore_at(&self, seed: i64, x: i32, y: i32, z: i32, depth: i32) -> (r: Option<BlockId>)
        requires
            self.wf(),
        ensures
            r == self.ore_spec(seed, x, y, z, depth),
    {
        let a = hit(&self.seams, depth, cell_hash(seed, x, y, z));
        let b = if self.seams.len() > 0 && depth >= self.seams[0].min_depth {
            hit(&self.seams_b, depth, cell_hash(seed ^ ORE_B_SALT, x, y, z))
        } else {
            None
        };
        self.yielded(a, b)
    }
}

/// A cell above the shallowest slice holds no ore.
pub proof fn lemma_no_ore_above_seams(t: OreTable, seed: i64, x: i32, y: i32, z: i32, depth: i32)
    requires
        t.seams@.len() > 0 ==> depth < t.seams@[0].min_depth,
    ensures
        t.ore_spec(seed, x, y, z, depth) is None,
{
}

/// The slices of a table lie end to end: each begins where the one before it ends and is
/// as wide as it says, as long as the table fits the roll.
pub proof fn lemma_slices_lie_end_to_end(slices: Seq<Slice>, n: int)
    requires
        0 <= n < slices.len(),
        cut(slices, n) + slices[n].width <= u32::MAX,
    ensures
        cut(slices, 0) == 0,
        cut(slices, n + 1) == cut(slices, n) + slices[n].width,
{
}

/// A roll hits the slice that it falls into. Where a slice is hit, the roll is before its
/// end, past the end of every slice before it, and all slices up to it reach the depth;
/// where none is hit, the roll is past the end of every slice above the first that lies
/// deeper.
pub proof fn lemma_roll_hits_its_slice(slices: Seq<Slice>, depth: i32, roll: u32)
    requires
        slices.len() <= usize::MAX,
    ensures
        match hit_from(slices, depth, roll, 0) {
            Some(i) => i < slices.len() && roll < cut(slices, i + 1) && (forall|k: int|
                0 <= k <= i ==> (#[trigger] slices[k]).min_depth <= depth) && (forall|k: int|
                0 <= k <= i ==> roll >= #[trigger] cut(slices, k)),
            None => forall|n: int|
                0 <= n < slices.len() && (forall|k: int|
                    0 <= k <= n ==> (#[trigger] slices[k]).min_depth <= depth) ==> roll
                    >= #[trigger] cut(slices, n + 1),
        },
{
    lemma_hit_from(slices, depth, roll, 0);
}

proof fn lemma_hit_from(slices: Seq<Slice>, depth: i32, roll: u32, i: int)
    requires
        0 <= i <= slices.len() <= usize::MAX,
        forall|k: int| 0 <= k < i ==> (#[trigger] slices[k]).min_depth <= depth,
        forall|k: int| 0 <= k <= i ==> roll >= #[trigger] cut(slices, k),
    ensures
        match hit_from(slices, depth, roll, i) {
            Some(j) => j < slices.len() && roll < cut(slices, j + 1) && (forall|k: int|
                0 <= k <= j ==> (#[trigger] slices[k]).min_depth <= depth) && (forall|k: int|
                0 <= k <= j ==> roll >= #[trigger] cut(slices, k)),
            None => forall|n: int|
                0 <= n < slices.len() && (forall|k: int|
                    0 <= k <= n ==> (#[trigger] slices[k]).min_depth <= depth) ==> roll
                    >= #[trigger] cut(slices, n + 1),
        },
    decreases slices.len() - i,
{
    if i < slices.len() && depth >= slices[i].min_depth && roll >= cut(slices, i + 1) {
        lemma_hit_from(slices, depth, roll, i + 1);
    }
}

/// The first slice of a table is hit by exactly the lowest values of the roll, as many
/// as it is wide, from its depth on.
pub proof fn lemma_first_slice(slices: Seq<Slice>, depth: i32, roll: u32)
    requires
        0 < slices.len() <= usize::MAX,
    ensures
        hit_from(slices, depth, roll, 0) == Some(0usize) <==> depth >= slices[0].min_depth && roll
            < slices[0].width,
{
    assert(cut(slices, 0) == 0);
    assert(cut(slices, 1) == slices[0].width);
    if depth >= slices[0].min_depth && roll >= slices[0].width {
        lemma_hit_past(slices, depth, roll, 1);
    }
}

proof fn lemma_hit_past(slices: Seq<Slice>, depth: i32, roll: u32, i: int)
    requires
        0 < i,
        slices.len() <= usize::MAX,
    ensures
        hit_from(slices, depth, roll, i) matches Some(j) ==> j >= i,
    decreases slices.len() - i,
{
    if i < slices.len() {
        lemma_hit_past(slices, depth, roll, i + 1);
    }
}

/// It does not matter which roll hit which seam: one seam, hit once or twice, yields its
/// own block, and two seams yield one block of their own, whichever came first.
pub proof fn lemma_rolls_are_alike(t: OreTable, i: usize, j: usize)
    ensures
        t.yield_spec(Some(i), Some(j)) == t.yield_spec(Some(j), Some(i)),
        t.yield_spec(Some(i), None) == Some(t.seams@[i as int].id),
        t.yield_spec(None, Some(i)) == Some(t.seams@[i as int].id),
        t.yield_spec(Some(i), Some(i)) == Some(t.seams@[i as int].id),
        j < i ==> t.yield_spec(Some(i), Some(j)) == Some(t.pairs@[i as int]@[j as int]),
        t.yield_spec(None, None) is None,
{
}

/// Growth stands on top of a column where the roll of the top cell falls into its kind's
/// slices, and leaves the given block elsewhere: a kind without growth shows its dress.
pub proof fn lemma_growth_or_dress(
    m: Resolved,
    seed: i64,
    kind: SurfaceKind,
    dress: BlockId,
    wx: i32,
    height: i32,
    wz: i32,
)
    ensures
        ({
            let slices = m.surface_scatter@[kind.index_spec() as int]@;
            let id = m.scatter_spec(seed, kind, dress, wx, height, wz);
            let roll = cell_hash_spec(seed ^ SURFACE_SCATTER_SALT, wx, height, wz);
            &&& slices.len() == 0 ==> id == dress
            &&& slices.len() == 1 ==> id == (if roll < slices[0].width {
                slices[0].id
            } else {
                dress
            })
        }),
{
    let slices = m.surface_scatter@[kind.index_spec() as int]@;
    let roll = cell_hash_spec(seed ^ SURFACE_SCATTER_SALT, wx, height, wz);
    if slices.len() == 1 {
        assert(cut(slices, 0) == 0);
        assert(cut(slices, 1) == slices[0].width);
        assert(hit_from(slices, i32::MAX, roll, 1) is None);
    }
}

/// Each surface kind has a place of its own in per-kind tables.
pub proof fn lemma_kinds_differ(a: SurfaceKind, b: SurfaceKind)
    ensures
        a.index_spec() < 5,
        a.index_spec() == b.index_spec() ==> a == b,
{
}

/// The placement table with every block resolved.
#[derive(Clone)]
pub struct Resolved {
    pub stone: BlockId,
    pub water: BlockId,
    /// The top ground cell, per surface kind.
    pub dress: [BlockId; SURFACE_KINDS],
    /// The two cells below it, per surface kind.
    pub crust: [BlockId; SURFACE_KINDS],
    /// Growth on the top ground cell, per surface kind.
    pub surface_scatter: [Vec<Slice>; SURFACE_KINDS],
    /// Ores of the ground.
    pub ores: OreTable,
    /// No scattered rule places anything deeper than this.
    pub max_scattered_depth: i32,
    pub cave_wall: Option<CaveWall>,
    pub island_grass: BlockId,
    pub island_ice: BlockId,
    pub island_crust: BlockId,
    /// Ores inside flying islands. Depths do not matter there.
    pub island_ores: OreTable,
}

impl Resolved {
    /// Whether every roll has a block.
    pub open spec fn wf(self) -> bool {
        self.ores.wf() && self.island_ores.wf()
    }

    /// The block on top of a column: its kind's growth where the roll of the top
    /// cell falls into one, else the block handed in.
    pub open spec fn scatter_spec(
        self,
        seed: i64,
        kind: SurfaceKind,
        dress: BlockId,
        wx: i32,
        height: i32,
        wz: i32,
    ) -> BlockId {
        let slices = self.surface_scatter@[kind.index_spec() as int]@;
        match hit_from(
            slices,
            i32::MAX,
            cell_hash_spec(seed ^ SURFACE_SCATTER_SALT, wx, height, wz),
            0,
        ) {
            Some(i) => slices[i as int].id,
            None => dress,
        }
    }

    /// The block on top of a column: its kind's growth where the roll of the top
    /// cell falls into one, else the block handed in.
    pub fn scatter(
        &self,
        seed: i64,
        kind: SurfaceKind,
        dress: BlockId,
        wx: i32,
        height: i32,
        wz: i32,
    ) -> (id: BlockId)
        ensures
            id == self.scatter_spec(seed, kind, dress, wx, height, wz),
    {
        let slices = &self.surface_scatter[kind.index()];
        if slices.len() == 0 {
            return dress;
        }
        let roll: u32 = cell_hash(seed ^ SURFACE_SCATTER_SALT, wx, height, wz);
        match hit(slices, i32::MAX, roll) {
            Some(i) => slices[i].id,
            None => dress,
        }
    }
}

} // verus!
