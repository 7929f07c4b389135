//! Classic terrain: the voxel rules over noise.
//!
//! A column's ground height, water table and climate come from real-valued noise,
//! as do the caves, ravines, overhangs and islands that cross it. The noise answers
//! yes-or-no questions; the rules that place blocks by those answers stand here,
//! both cell by cell and as the batched fill of whole chunks.
use vstd::prelude::*;

use crate::block::BlockId;
use crate::world::generation::{cell_hash, cell_hash_spec};
use crate::world::placement::{hit, hit_from, CaveWall, Resolved, SurfaceKind, ORE_B_SALT};

verus! {

/// Islands start above sea; no water interaction.
pub const ISLAND_MIN_Y: i32 = 112;

/// The shallowest cell that a cave takes, below the ground.
pub const CAVE_MIN_DEPTH: i32 = 6;

/// The shallowest cell that a ravine takes.
pub const RAVINE_MIN_DEPTH: i32 = 8;

/// Overhangs reach this far above the ground.
pub const OVERHANG_REACH: i32 = 8;

/// Island tops from here up are frozen.
pub const ICE_SURFACE_Y: i32 = 220;

/// Ground this far above the sea is snowy.
pub const SNOW_ABOVE_SEA: i32 = 55;

/// Salt of the roll that grows clusters on cave walls.
pub const CAVE_WALL_SALT: i64 = 0x2F8C_71A5_E9D0_63B7;

/// Salt of the roll that dithers beach edges.
pub const BEACH_SALT: i64 = 0x6B14_D8F3_2A79_C40D;

/// The largest distance of ground and water from zero.
pub const HEIGHT_LIMIT: i32 = 0x1000_0000;

/// A question to the noise about a cell.
#[derive(Clone, Copy, PartialEq, Eq, Debug, Structural)]
pub enum Probe {
    /// Does a cave run through a cell this deep below the ground?
    Cave,
    /// Does a ravine?
    Ravine,
    /// Does an overhang fill a cell this far above the ground?
    Overhang,
    /// Does an island fill the cell?
    Island,
}

/// The answer to every question about every cell.
pub type NoiseFn = spec_fn(Probe, i32, i32, i32, i32) -> bool;

/// Whether the noise answers what `said` says, wherever it answers.
pub open spec fn hears<N: Fn(Probe, i32, i32, i32, i32) -> bool>(noise: N, said: NoiseFn) -> bool {
    forall|p: Probe, x: i32, y: i32, z: i32, d: i32, b: bool| #[trigger]
        call_ensures(noise, (p, x, y, z, d), b) ==> b == said(p, x, y, z, d)
}

/// Whether the noise answers every question.
pub open spec fn is_noise<N: Fn(Probe, i32, i32, i32, i32) -> bool>(noise: N) -> bool {
    forall|p: Probe, x: i32, y: i32, z: i32, d: i32|
        #[trigger] call_requires(noise, (p, x, y, z, d))
}

/// Puts a question to the noise.
pub(crate) fn ask<N: Fn(Probe, i32, i32, i32, i32) -> bool>(
    noise: &N,
    p: Probe,
    x: i32,
    y: i32,
    z: i32,
    d: i32,
) -> (b: bool)
    requires
        is_noise(*noise),
    ensures
        forall|said: NoiseFn| #[trigger] hears(*noise, said) ==> b == said(p, x, y, z, d),
{
    let b: bool = noise(p, x, y, z, d);
    assert(call_ensures(*noise, (p, x, y, z, d), b));
    b
}

/// What a vertical run of cells shares.
#[derive(Clone, Copy, PartialEq, Eq, Debug, Structural)]
pub struct Column {
    /// The lowest cell that is not ground.
    pub height: i32,
    /// Water fills up to here: the sea, or a lake's surface.
    pub water_level: i32,
    pub kind: SurfaceKind,
    /// The top ground cell.
    pub dress: BlockId,
}

impl Column {
    /// Whether the column's numbers are in range.
    pub open spec fn in_range(self) -> bool {
        &&& -HEIGHT_LIMIT <= self.height <= HEIGHT_LIMIT
        &&& -HEIGHT_LIMIT <= self.water_level <= HEIGHT_LIMIT
    }
}

/// Whether depths at a cell, and at its neighbours, fit 32 bits.
pub open spec fn y_in_reach(y: int) -> bool {
    i32::MIN + HEIGHT_LIMIT + 1 < y <= i32::MAX - HEIGHT_LIMIT
}

/// Whether a cave or a ravine takes a ground cell.
pub open spec fn carved_spec(
    noise: NoiseFn,
    x: i32,
    y: i32,
    z: i32,
    height: i32,
) -> bool {
    let d = height - y;
    ||| d >= CAVE_MIN_DEPTH && noise(Probe::Cave, x, y, z, d as i32)
    ||| d >= RAVINE_MIN_DEPTH && noise(Probe::Ravine, x, y, z, d as i32)
}

/// Whether an overhang fills a cell above the ground.
pub open spec fn overhang_spec(
    noise: NoiseFn,
    x: i32,
    y: i32,
    z: i32,
    height: i32,
) -> bool {
    let up = y - height;
    0 <= up < OVERHANG_REACH && noise(Probe::Overhang, x, y, z, up as i32)
}

/// Whether an island fills a cell.
pub open spec fn island_spec(
    noise: NoiseFn,
    x: i32,
    y: i32,
    z: i32,
) -> bool {
    noise(Probe::Island, x, y, z, 0)
}

/// Whether a cave or a ravine takes a ground cell.
pub fn carved<N: Fn(Probe, i32, i32, i32, i32) -> bool>(
    noise: &N,
    x: i32,
    y: i32,
    z: i32,
    height: i32,
) -> (b: bool)
    requires
        is_noise(*noise),
        i32::MIN <= height - y <= i32::MAX,
    ensures
        forall|said: NoiseFn| #[trigger]
            hears(*noise, said) ==> b == carved_spec(said, x, y, z, height),
{
    let d: i32 = height - y;
    (d >= CAVE_MIN_DEPTH && ask(noise, Probe::Cave, x, y, z, d)) || (d >= RAVINE_MIN_DEPTH && ask(
        noise,
        Probe::Ravine,
        x,
        y,
        z,
        d,
    ))
}

/// Whether an overhang fills a cell above the ground.
pub fn overhang_solid<N: Fn(Probe, i32, i32, i32, i32) -> bool>(
    noise: &N,
    x: i32,
    y: i32,
    z: i32,
    height: i32,
) -> (b: bool)
    requires
        is_noise(*noise),
        i32::MIN <= y - height <= i32::MAX,
    ensures
        forall|said: NoiseFn| #[trigger]
            hears(*noise, said) ==> b == overhang_spec(said, x, y, z, height),
{
    let up: i32 = y - height;
    0 <= up && up < OVERHANG_REACH && ask(noise, Probe::Overhang, x, y, z, up)
}

/// The classic terrain of a seed.
pub struct Terrain {
    pub seed: i64,
    pub sea_level: i32,
    pub mat: Resolved,
}

impl Terrain {
    /// Whether the terrain can place blocks: its table is complete, and scattered
    /// rules reach below the crust.
    pub open spec fn wf(self) -> bool {
        &&& self.mat.wf()
        &&& 3 <= self.mat.max_scattered_depth <= HEIGHT_LIMIT
        &&& -HEIGHT_LIMIT <= self.sea_level <= HEIGHT_LIMIT
    }

    /// How the top of a column is dressed: shore at or under the water, snow on
    /// cold or high ground, desert on hot and dry ground, grass elsewhere. Half of
    /// the grass one block over the water and a quarter two blocks over it is
    /// beach edge.
    pub open spec fn kind_spec(
        self,
        height: i32,
        water_level: i32,
        cold: bool,
        arid: bool,
        wx: i32,
        wz: i32,
    ) -> SurfaceKind {
        let rim = height - water_level;
        let roll = cell_hash_spec(self.seed ^ BEACH_SALT, wx, 0, wz);
        if rim <= 0 {
            SurfaceKind::Shore
        } else if cold || height - self.sea_level > SNOW_ABOVE_SEA {
            SurfaceKind::Snowy
        } else if arid {
            SurfaceKind::Desert
        } else if (rim == 1 && roll < u32::MAX / 2) || (rim == 2 && roll < u32::MAX / 4) {
            SurfaceKind::BeachEdge
        } else {
            SurfaceKind::Grassy
        }
    }

    /// How the top of a column is dressed.
    pub fn surface_kind(
        &self,
        height: i32,
        water_level: i32,
        cold: bool,
        arid: bool,
        wx: i32,
        wz: i32,
    ) -> (k: SurfaceKind)
        requires
            -HEIGHT_LIMIT <= self.sea_level <= HEIGHT_LIMIT,
            -HEIGHT_LIMIT <= height <= HEIGHT_LIMIT,
            -HEIGHT_LIMIT <= water_level <= HEIGHT_LIMIT,
        ensures
            k == self.kind_spec(height, water_level, cold, arid, wx, wz),
    {
        if height <= water_level {
            SurfaceKind::Shore
        } else if cold || height - self.sea_level > SNOW_ABOVE_SEA {
            SurfaceKind::Snowy
        } else if arid {
            SurfaceKind::Desert
        } else {
            let rim: i32 = height - water_level;
            if rim <= 2 {
                let cut: u32 = u32::MAX / (if rim == 1 {
                    2
                } else {
                    4
                });
                if cell_hash(self.seed ^ BEACH_SALT, wx, 0, wz) < cut {
                    return SurfaceKind::BeachEdge;
                }
            }
            SurfaceKind::Grassy
        }
    }

    /// The block on top of a column: its kind's dress, or growth where the roll
    /// falls into one.
    pub fn dress(&self, kind: SurfaceKind, height: i32, wx: i32, wz: i32) -> (id: BlockId)
        ensures
            id == self.mat.scatter_spec(
                self.seed,
                kind,
                self.mat.dress@[kind.index_spec() as int],
                wx,
                height,
                wz,
            ),
    {
        let plain = self.mat.dress[kind.index()];
        self.mat.scatter(self.seed, kind, plain, wx, height, wz)
    }

    /// The column over ground of a height; ground never sinks below one.
    pub open spec fn column_spec(
        self,
        ground: i32,
        water_level: i32,
        cold: bool,
        arid: bool,
        wx: i32,
        wz: i32,
    ) -> Column {
        let height = if ground < 1 {
            1
        } else {
            ground
        };
        let kind = self.kind_spec(height, water_level, cold, arid, wx, wz);
        Column {
            height,
            water_level,
            kind,
            dress: self.mat.scatter_spec(
                self.seed,
                kind,
                self.mat.dress@[kind.index_spec() as int],
                wx,
                height,
                wz,
            ),
        }
    }

    /// The column over ground of a height; ground never sinks below one.
    pub fn column(
        &self,
        ground: i32,
        water_level: i32,
        cold: bool,
        arid: bool,
        wx: i32,
        wz: i32,
    ) -> (c: Column)
        requires
            -HEIGHT_LIMIT <= self.sea_level <= HEIGHT_LIMIT,
            ground <= HEIGHT_LIMIT,
            -HEIGHT_LIMIT <= water_level <= HEIGHT_LIMIT,
        ensures
            c == self.column_spec(ground, water_level, cold, arid, wx, wz),
            c.in_range(),
    {
        let height: i32 = if ground < 1 {
            1
        } else {
            ground
        };
        let kind = self.surface_kind(height, water_level, cold, arid, wx, wz);
        let dress = self.dress(kind, height, wx, wz);
        Column { height, water_level, kind, dress }
    }

    /// The ore of a stone cell.
    pub fn ore_at(&self, wx: i32, wy: i32, wz: i32, depth: i32) -> (r: Option<BlockId>)
        requires
            self.mat.ores.wf(),
        ensures
            r == self.mat.ores.ore_spec(self.seed, wx, wy, wz, depth),
    {
        self.mat.ores.ore_at(self.seed, wx, wy, wz, depth)
    }

    /// The block of an island cell, from which of the four cells above it are island
    /// too: a top, a crust of three, ores and stone inside.
    pub open spec fn island_block_spec(
        self,
        wx: i32,
        wy: i32,
        wz: i32,
        above: Seq<bool>,
    ) -> BlockId {
        if !above[0] {
            if wy >= ICE_SURFACE_Y {
                self.mat.island_ice
            } else {
                self.mat.island_grass
            }
        } else if !(above[1] && above[2] && above[3]) {
            self.mat.island_crust
        } else {
            let t = self.mat.island_ores;
            let a = hit_from(t.seams@, i32::MAX, cell_hash_spec(self.seed, wx, wy, wz), 0);
            let b = hit_from(
                t.seams_b@,
                i32::MAX,
                cell_hash_spec(self.seed ^ ORE_B_SALT, wx, wy, wz),
                0,
            );
            match t.yield_spec(a, b) {
                Some(id) => id,
                None => self.mat.stone,
            }
        }
    }

    /// The block of an island cell.
    pub fn island_block(&self, wx: i32, wy: i32, wz: i32, above: [bool; 4]) -> (id: BlockId)
        requires
            self.mat.island_ores.wf(),
        ensures
            id == self.island_block_spec(wx, wy, wz, above@),
    {
        if !above[0] {
            if wy >= ICE_SURFACE_Y {
                self.mat.island_ice
            } else {
                self.mat.island_grass
            }
        } else if !above[1] || !above[2] || !above[3] {
            self.mat.island_crust
        } else {
            let t = &self.mat.island_ores;
            let a = hit(&t.seams, i32::MAX, cell_hash(self.seed, wx, wy, wz));
            let b = hit(&t.seams_b, i32::MAX, cell_hash(self.seed ^ ORE_B_SALT, wx, wy, wz));
            match t.yielded(a, b) {
                Some(id) => id,
                None => self.mat.stone,
            }
        }
    }

    /// Whether a cluster may grow on a cell: deep enough, and its roll falls short.
    pub open spec fn cluster_rolls(
        self,
        cw: CaveWall,
        wx: i32,
        wy: i32,
        wz: i32,
        depth: int,
    ) -> bool {
        depth >= cw.min_depth && cell_hash_spec(self.seed ^ CAVE_WALL_SALT, wx, wy, wz) < cw.width
    }

    /// The cluster that grows on a cell, if any: one whose roll falls, under or over
    /// a carved cell.
    pub open spec fn cave_wall_spec(
        self,
        noise: NoiseFn,
        p: Column,
        wx: i32,
        wy: i32,
        wz: i32,
    ) -> Option<BlockId> {
        match self.mat.cave_wall {
            Some(cw) => if self.cluster_rolls(cw, wx, wy, wz, p.height - wy) && (carved_spec(
                noise,
                wx,
                (wy + 1) as i32,
                wz,
                p.height,
            ) || carved_spec(noise, wx, (wy - 1) as i32, wz, p.height)) {
                Some(cw.id)
            } else {
                None
            },
            None => None,
        }
    }

    /// The cluster that grows on a ground cell, if any.
    pub fn cave_wall_at<N: Fn(Probe, i32, i32, i32, i32) -> bool>(
        &self,
        noise: &N,
        p: &Column,
        wx: i32,
        wy: i32,
        wz: i32,
    ) -> (r: Option<BlockId>)
        requires
            is_noise(*noise),
            p.in_range(),
            wy < p.height,
            p.height - wy < i32::MAX,
            wy > i32::MIN,
        ensures
            forall|said: NoiseFn| #[trigger]
                hears(*noise, said) ==> r == self.cave_wall_spec(said, *p, wx, wy, wz),
    {
        match &self.mat.cave_wall {
            Some(cw) => {
                let depth: i32 = p.height - wy;
                if depth < cw.min_depth || cell_hash(self.seed ^ CAVE_WALL_SALT, wx, wy, wz)
                    >= cw.width {
                    return None;
                }
                if carved(noise, wx, wy + 1, wz, p.height) || carved(
                    noise,
                    wx,
                    wy - 1,
                    wz,
                    p.height,
                ) {
                    Some(cw.id)
                } else {
                    None
                }
            },
            None => None,
        }
    }

    /// A cell of stone ground: its ore, its cluster, or stone.
    pub open spec fn stone_spec(
        self,
        noise: NoiseFn,
        p: Column,
        wx: i32,
        wy: i32,
        wz: i32,
    ) -> BlockId {
        let depth = p.height - wy;
        let ore = if depth <= self.mat.max_scattered_depth {
            self.mat.ores.ore_spec(self.seed, wx, wy, wz, depth as i32)
        } else {
            None
        };
        match ore {
            Some(id) => id,
            None => match self.cave_wall_spec(noise, p, wx, wy, wz) {
                Some(id) => id,
                None => self.mat.stone,
            },
        }
    }

    /// A cell below the ground: dress, crust of two, then what is carved is empty
    /// and the rest is stone ground.
    pub open spec fn ground_spec(
        self,
        noise: NoiseFn,
        p: Column,
        wx: i32,
        wy: i32,
        wz: i32,
        carved: bool,
    ) -> BlockId {
        if wy >= p.height - 1 {
            p.dress
        } else if wy >= p.height - 3 {
            self.mat.crust@[p.kind.index_spec() as int]
        } else if carved {
            BlockId::air_spec()
        } else {
            self.stone_spec(noise, p, wx, wy, wz)
        }
    }

    /// A cell below the ground.
    pub fn ground<N: Fn(Probe, i32, i32, i32, i32) -> bool>(
        &self,
        noise: &N,
        p: &Column,
        wx: i32,
        wy: i32,
        wz: i32,
        carved: bool,
    ) -> (id: BlockId)
        requires
            self.wf(),
            is_noise(*noise),
            p.in_range(),
            wy < p.height,
            p.height - wy < i32::MAX,
            wy > i32::MIN,
        ensures
            forall|said: NoiseFn| #[trigger]
                hears(*noise, said) ==> id == self.ground_spec(said, *p, wx, wy, wz, carved),
    {
        if wy >= p.height - 1 {
            p.dress
        } else if wy >= p.height - 3 {
            self.mat.crust[p.kind.index()]
        } else if carved {
            BlockId::air()
        } else {
            let depth: i32 = p.height - wy;
            if depth <= self.mat.max_scattered_depth {
                match self.ore_at(wx, wy, wz, depth) {
                    Some(id) => {
                        return id;
                    },
                    None => {},
                }
            }
            match self.cave_wall_at(noise, p, wx, wy, wz) {
                Some(id) => id,
                None => self.mat.stone,
            }
        }
    }

    /// Which of the four cells above are island.
    pub open spec fn island_above(
        noise: NoiseFn,
        wx: i32,
        wy: i32,
        wz: i32,
    ) -> Seq<bool> {
        Seq::new(4, |k: int| island_spec(noise, wx, (wy + 1 + k) as i32, wz))
    }

    /// The block of a cell: ground below the surface, then water, an overhang, an
    /// island, or nothing. Far tiles leave caves out.
    pub open spec fn cell_spec(
        self,
        noise: NoiseFn,
        p: Column,
        wx: i32,
        wy: i32,
        wz: i32,
        caves: bool,
    ) -> BlockId {
        if wy < p.height {
            self.ground_spec(
                noise,
                p,
                wx,
                wy,
                wz,
                caves && carved_spec(noise, wx, wy, wz, p.height),
            )
        } else if wy < p.water_level {
            self.mat.water
        } else if overhang_spec(noise, wx, wy, wz, p.height) {
            self.mat.stone
        } else if island_spec(noise, wx, wy, wz) {
            self.island_block_spec(wx, wy, wz, Terrain::island_above(noise, wx, wy, wz))
        } else {
            BlockId::air_spec()
        }
    }

    /// The block of a cell.
    pub fn cell_base<N: Fn(Probe, i32, i32, i32, i32) -> bool>(
        &self,
        noise: &N,
        p: &Column,
        wx: i32,
        wy: i32,
        wz: i32,
        caves: bool,
    ) -> (id: BlockId)
        requires
            self.wf(),
            is_noise(*noise),
            p.in_range(),
            y_in_reach(wy as int),
        ensures
            forall|said: NoiseFn| #[trigger]
                hears(*noise, said) ==> id == self.cell_spec(said, *p, wx, wy, wz, caves),
    {
        if wy < p.height {
            let taken: bool = caves && carved(noise, wx, wy, wz, p.height);
            self.ground(noise, p, wx, wy, wz, taken)
        } else if wy < p.water_level {
            self.mat.water
        } else if overhang_solid(noise, wx, wy, wz, p.height) {
            self.mat.stone
        } else if ask(noise, Probe::Island, wx, wy, wz, 0) {
            let above: [bool; 4] = [
                ask(noise, Probe::Island, wx, wy + 1, wz, 0),
                ask(noise, Probe::Island, wx, wy + 2, wz, 0),
                ask(noise, Probe::Island, wx, wy + 3, wz, 0),
                ask(noise, Probe::Island, wx, wy + 4, wz, 0),
            ];
            assert forall|said: NoiseFn| #[trigger] hears(*noise, said) implies above@
                == Terrain::island_above(said, wx, wy, wz) by {
                assert(above@ =~= Terrain::island_above(said, wx, wy, wz));
            }
            self.island_block(wx, wy, wz, above)
        } else {
            BlockId::air()
        }
    }

    /// Fills a vertical run of far-tile cells, as far as both lists reach.
    pub fn lod_column<N: Fn(Probe, i32, i32, i32, i32) -> bool>(
        &self,
        noise: &N,
        p: &Column,
        wx: i32,
        wz: i32,
        ys: &[i32],
        out: &mut [BlockId],
    )
        requires
            self.wf(),
            is_noise(*noise),
            p.in_range(),
            forall|k: int|
                0 <= k < ys@.len() ==> y_in_reach(#[trigger] ys@[k] as int),
        ensures
            final(out)@.len() == old(out)@.len(),
            forall|k: int|
                ys@.len() <= k < old(out)@.len() ==> #[trigger] final(out)@[k] == old(out)@[k],
            forall|said: NoiseFn, k: int|
                #![trigger hears(*noise, said), final(out)@[k]]
                hears(*noise, said) && 0 <= k < ys@.len() && k < old(out)@.len()
                    ==> final(out)@[k] == self.cell_spec(said, *p, wx, ys@[k], wz, false),
    {
        let mut k: usize = 0;
        while k < ys.len() && k < out.len()
            invariant
                self.wf(),
                is_noise(*noise),
                p.in_range(),
                k <= ys@.len(),
                k <= out@.len(),
                out@.len() == old(out)@.len(),
                forall|j: int|
                    0 <= j < ys@.len() ==> y_in_reach(#[trigger] ys@[j] as int),
                forall|j: int| k <= j < out@.len() ==> #[trigger] out@[j] == old(out)@[j],
                forall|said: NoiseFn, j: int|
                    #![trigger hears(*noise, said), out@[j]]
                    hears(*noise, said) && 0 <= j < k ==> out@[j] == self.cell_spec(
                        said,
                        *p,
                        wx,
                        ys@[j],
                        wz,
                        false,
                    ),
            decreases ys@.len() - k,
        {
            out[k] = self.cell_base(noise, p, wx, ys[k], wz, false);
            k = k + 1;
        }
    }
}

/// Caves and ravines are hollow: below the three top ground cells a cell that one takes
/// is empty where caves are asked for, and one that none takes is not left to chance but
/// is what it would be without caves.
pub proof fn lemma_caves_are_hollow(t: Terrain, noise: NoiseFn, p: Column, x: i32, y: i32, z: i32)
    requires
        p.in_range(),
        y < p.height - 3,
    ensures
        carved_spec(noise, x, y, z, p.height) ==> t.cell_spec(noise, p, x, y, z, true)
            == BlockId(0),
        !carved_spec(noise, x, y, z, p.height) ==> t.cell_spec(noise, p, x, y, z, true)
            == t.cell_spec(noise, p, x, y, z, false),
{
}

/// What is carved: a cell from six below the ground down where the noise knows a cave,
/// and from eight down where it knows a ravine. The noise is asked about that very cell
/// at its depth, and nothing nearer to the ground is carved.
pub proof fn lemma_what_is_carved(noise: NoiseFn, x: i32, y: i32, z: i32, height: i32)
    requires
        -HEIGHT_LIMIT <= height <= HEIGHT_LIMIT,
        y_in_reach(y as int),
    ensures
        height - y >= 6 && noise(Probe::Cave, x, y, z, (height - y) as i32) ==> carved_spec(
            noise,
            x,
            y,
            z,
            height,
        ),
        height - y >= 8 && noise(Probe::Ravine, x, y, z, (height - y) as i32) ==> carved_spec(
            noise,
            x,
            y,
            z,
            height,
        ),
        carved_spec(noise, x, y, z, height) ==> height - y >= 6 && (noise(
            Probe::Cave,
            x,
            y,
            z,
            (height - y) as i32,
        ) || height - y >= 8 && noise(Probe::Ravine, x, y, z, (height - y) as i32)),
{
}

/// A column from the top down. Above ground and water nothing stands but overhangs, at
/// most eight cells over the ground, and islands; ground under water is flooded up to
/// the water level and no further; the ground is covered by its dress and two cells of
/// its kind's crust, which caves never take.
pub proof fn lemma_column_layers(
    t: Terrain,
    noise: NoiseFn,
    p: Column,
    x: i32,
    y: i32,
    z: i32,
    caves: bool,
)
    requires
        p.in_range(),
        y_in_reach(y as int),
    ensures
        ({
            let id = t.cell_spec(noise, p, x, y, z, caves);
            let up = y - p.height;
            &&& p.height <= y < p.water_level ==> id == t.mat.water
            &&& up >= 0 && y >= p.water_level && up < 8 && noise(Probe::Overhang, x, y, z, up as i32)
                ==> id == t.mat.stone
            &&& up >= 0 && y >= p.water_level && (up >= 8 || !noise(
                Probe::Overhang,
                x,
                y,
                z,
                up as i32,
            )) && !noise(Probe::Island, x, y, z, 0) ==> id == BlockId(0)
            &&& up == -1 ==> id == p.dress
            &&& up == -2 || up == -3 ==> id == t.mat.crust@[p.kind.index_spec() as int]
            &&& up < -3 && !caves && id != t.mat.stone ==> t.mat.ores.ore_spec(
                t.seed,
                x,
                y,
                z,
                (-up) as i32,
            ) == Some(id) || (t.mat.cave_wall is Some && id == t.mat.cave_wall->0.id)
        }),
{
}

/// Ore lies in stone ground down to the deepest scattered rule: where the table yields
/// one for an uncarved cell, that is the cell, and below the reach of every rule there
/// is none.
pub proof fn lemma_ore_in_stone(
    t: Terrain,
    noise: NoiseFn,
    p: Column,
    x: i32,
    y: i32,
    z: i32,
    caves: bool,
    ore: BlockId,
)
    requires
        p.in_range(),
        y < p.height - 3,
        caves ==> !carved_spec(noise, x, y, z, p.height),
    ensures
        p.height - y <= t.mat.max_scattered_depth && t.mat.ores.ore_spec(
            t.seed,
            x,
            y,
            z,
            (p.height - y) as i32,
        ) == Some(ore) ==> t.cell_spec(noise, p, x, y, z, caves) == ore,
        p.height - y > t.mat.max_scattered_depth && t.mat.cave_wall is None ==> t.cell_spec(
            noise,
            p,
            x,
            y,
            z,
            caves,
        ) == t.mat.stone,
{
}

/// An island wears grass, or ice from its frozen height up, exactly where nothing of it
/// lies on top; crust where the top is within three cells; and deeper in the ore that
/// the islands' table yields for the deepest of cells, or stone.
pub proof fn lemma_island_layers(t: Terrain, noise: NoiseFn, p: Column, x: i32, y: i32, z: i32)
    requires
        t.mat.wf(),
        p.in_range(),
        y_in_reach(y as int),
        y >= p.height + 8,
        y >= p.water_level,
        noise(Probe::Island, x, y, z, 0),
    ensures
        ({
            let id = t.cell_spec(noise, p, x, y, z, true);
            let over = |k: int| noise(Probe::Island, x, (y + k) as i32, z, 0);
            &&& !over(1) && y < 220 ==> id == t.mat.island_grass
            &&& !over(1) && y >= 220 ==> id == t.mat.island_ice
            &&& over(1) && (!over(2) || !over(3) || !over(4)) ==> id == t.mat.island_crust
            &&& over(1) && over(2) && over(3) && over(4) ==> id == (
            match t.mat.island_ores.ore_spec(t.seed, x, y, z, i32::MAX) {
                Some(ore) => ore,
                None => t.mat.stone,
            })
        }),
{
    let above = Terrain::island_above(noise, x, y, z);
    assert(above[0] == noise(Probe::Island, x, (y + 1) as i32, z, 0));
    assert(above[1] == noise(Probe::Island, x, (y + 2) as i32, z, 0));
    assert(above[2] == noise(Probe::Island, x, (y + 3) as i32, z, 0));
    assert(above[3] == noise(Probe::Island, x, (y + 4) as i32, z, 0));
}

/// How the top of a column looks: shore exactly at or under the water; over it snow
/// where it is cold or more than 55 over the sea, else desert where it is arid; and
/// grass, with a beach edge at most two over the water.
pub proof fn lemma_surface_by_place(
    t: Terrain,
    height: i32,
    water_level: i32,
    cold: bool,
    arid: bool,
    x: i32,
    z: i32,
)
    requires
        -HEIGHT_LIMIT <= t.sea_level <= HEIGHT_LIMIT,
        -HEIGHT_LIMIT <= height <= HEIGHT_LIMIT,
        -HEIGHT_LIMIT <= water_level <= HEIGHT_LIMIT,
    ensures
        ({
            let k = t.kind_spec(height, water_level, cold, arid, x, z);
            let frozen = cold || height > t.sea_level + 55;
            &&& k == SurfaceKind::Shore <==> height <= water_level
            &&& k == SurfaceKind::Snowy <==> height > water_level && frozen
            &&& k == SurfaceKind::Desert <==> height > water_level && !frozen && arid
            &&& k == SurfaceKind::BeachEdge ==> height == water_level + 1 || height == water_level
                + 2
            &&& k == SurfaceKind::Grassy ==> height > water_level && !frozen && !arid
        }),
{
}

/// A column stands on its ground, which never sinks below one, floods to its water level,
/// and looks as its place asks for: its kind's dress on top, or its kind's growth.
pub proof fn lemma_columns_keep_their_ground(
    t: Terrain,
    ground: i32,
    water_level: i32,
    cold: bool,
    arid: bool,
    x: i32,
    z: i32,
)
    ensures
        ({
            let c = t.column_spec(ground, water_level, cold, arid, x, z);
            let d = t.mat.dress@[c.kind.index_spec() as int];
            &&& ground >= 1 ==> c.height == ground
            &&& ground < 1 ==> c.height == 1
            &&& c.water_level == water_level
            &&& c.kind == t.kind_spec(c.height, water_level, cold, arid, x, z)
            &&& t.mat.surface_scatter@[c.kind.index_spec() as int]@.len() == 0 ==> c.dress == d
        }),
{
}

} // verus!
