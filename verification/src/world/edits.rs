//! Edits to a loaded world and what they make stale.
use vstd::prelude::*;

use crate::block::{BlockId, Detail, HotTables};
use crate::coord::{BlockCoord, ChunkBox, ChunkCoord, Face};
use crate::world::brick::cell_index_spec;
use crate::world::chunk::{edited, widen_spec, Chunk};
use crate::world::chunk_map::{ChunkMap, ChunkSet};
use crate::world::connectivity::Connectivity;
use crate::world::light::{CeilingWindow, LightGrid};
use crate::world::overlay::Overlay;
use crate::world::sections::SectionMarks;

verus! {

/// The smallest and largest render distance, in chunk rings.
pub const VIEW_RADIUS_MIN: i32 = 0;

pub const VIEW_RADIUS_MAX: i32 = 20;

/// The smallest and largest vertical distance, in chunk layers.
pub const VERTICAL_RADIUS_MIN: i32 = 1;

pub const VERTICAL_RADIUS_MAX: i32 = 10;

/// The distances within which chunks are streamed.
#[derive(Clone, Copy, PartialEq, Eq, Debug, Structural)]
pub struct ViewVolume {
    pub horizontal: i32,
    pub vertical: i32,
}

/// What is to be done with a chunk's mesh.
#[derive(Clone, Copy, PartialEq, Eq, Debug, Structural)]
pub enum MeshState {
    /// The chunk shows no faces.
    Air,
    /// The chunk has no mesh yet.
    NeedsMesh,
    /// The chunk's mesh is current.
    Ready,
    /// An edit made the mesh stale; it stays drawn until it is replaced.
    Dirty,
}

/// A chunk in memory.
pub struct Loaded {
    pub chunk: Chunk,
    /// Settled light, if any.
    pub light: Option<LightGrid>,
    /// Face connectivity, if known.
    pub connectivity: Option<Connectivity>,
    /// Revision of the voxels; meshes built from an older one are dropped.
    pub rev: u32,
    pub state: MeshState,
    /// The handle of the drawn mesh, if any.
    pub mesh: Option<u64>,
}

/// Light that is to be settled.
pub struct LightWork {
    pub epoch: u64,
    pub worklist: ChunkSet,
    pub inflight: ChunkSet,
    /// Settled light that is not published yet.
    pub apply_queue: Vec<(ChunkCoord, LightGrid)>,
    pub pending: bool,
}

/// Meshes that are to be built.
pub struct MeshWork {
    pub dirty: ChunkSet,
    pub pending_dirty: bool,
    pub fresh: ChunkSet,
    pub pending_fresh: bool,
    /// The chunk that streaming last ran around.
    pub center: Option<ChunkCoord>,
    /// The box that was last scanned for meshes.
    pub prev_box: Option<ChunkBox>,
    /// Whether meshes beyond a shrunk radius are to be freed.
    pub radius_shrunk: bool,
}

/// State of the visibility pass.
pub struct OcclusionWork {
    pub forced: bool,
    pub active: bool,
    pub dirty: bool,
    /// Chunks whose connectivity is to be found again.
    pub refill: Vec<ChunkCoord>,
}

/// The ladder of far-field levels.
#[derive(Clone, Copy, PartialEq, Eq, Debug, Structural)]
pub struct PyramidCfg {
    pub unit: i32,
    pub levels: u8,
    pub finest: i8,
}

/// State of the far field.
pub struct SectionWork {
    pub lod2: bool,
    pub epoch: u64,
    pub pyramid: PyramidCfg,
    /// The levels that are built.
    pub details: Vec<Detail>,
    /// Sections cover heights from zero up to here.
    pub domain_h: i32,
    pub marks: SectionMarks,
    pub pending: bool,
}

/// A loaded world.
pub struct World {
    pub view: ViewVolume,
    pub chunks: ChunkMap<Loaded>,
    pub overlay: Overlay,
    pub edit_generation: u64,
    /// Skylight ceilings by column, at height zero.
    pub ceilings: ChunkMap<CeilingWindow>,
    pub lighting: bool,
    pub ao: bool,
    pub tables_epoch: u64,
    pub light: LightWork,
    pub mesh: MeshWork,
    pub occlusion: OcclusionWork,
    pub sections: SectionWork,
}

/// The key of a column's ceiling.
pub open spec fn column_of(c: ChunkCoord) -> ChunkCoord {
    ChunkCoord { x: c.x, y: 0, z: c.z }
}

/// The cell of a block in its chunk.
pub open spec fn cell_of_block(b: BlockCoord) -> int {
    let l = b.local_spec();
    cell_index_spec(l.0, l.1, l.2)
}

/// Whether a block stops light.
pub open spec fn stops_light(tables: HotTables, id: BlockId) -> bool {
    id.0 < tables.opaque@.len() && tables.opaque@[id.0 as int]
}

/// Whether an edit is of a block that stops light.
pub open spec fn opaque_edit(tables: HotTables, e: Option<BlockId>) -> bool {
    e matches Some(id) && stops_light(tables, id)
}

/// A chunk whose mesh an edit made stale.
pub open spec fn invalidated(l: Loaded) -> Loaded {
    Loaded { rev: l.rev.wrapping_add(1), state: MeshState::Dirty, ..l }
}

/// Whether `after` is `before` with cell `index` set to `id`: its connectivity is
/// unknown again and its mesh stale.
pub open spec fn rewritten(before: Loaded, after: Loaded, index: int, id: BlockId) -> bool {
    &&& after.chunk.payload() == edited(before.chunk.payload(), index, widen_spec(id))
    &&& after.chunk@ == before.chunk@.update(index, id)
    &&& after.chunk.coord() == before.chunk.coord()
    &&& after.chunk.stamp() == before.chunk.stamp()
    &&& after.light == before.light
    &&& after.connectivity is None
    &&& after.rev == before.rev.wrapping_add(1)
    &&& after.state == MeshState::Dirty
    &&& after.mesh == before.mesh
}

/// Whether a chunk lies across a face that the block touches.
pub open spec fn across(b: BlockCoord, c: ChunkCoord) -> bool {
    let l = b.local_spec();
    exists|f: Face| #[trigger] f.touches_spec(l.0, l.1, l.2) && c == b.chunk_spec().step_spec(f)
}

impl World {
    pub open spec fn wf(self) -> bool {
        &&& self.chunks.wf()
        &&& forall|c: ChunkCoord| #[trigger]
            self.chunks@.contains_key(c) ==> self.chunks@[c].chunk.wf()
        &&& self.overlay.wf()
        &&& self.ceilings.wf()
        &&& forall|c: ChunkCoord| #[trigger]
            self.ceilings@.contains_key(c) ==> self.ceilings@[c].wf()
        &&& self.light.worklist.wf()
        &&& self.light.inflight.wf()
        &&& self.mesh.dirty.wf()
        &&& self.mesh.fresh.wf()
        &&& self.sections.marks.wf()
        &&& forall|i: int|
            0 <= i < self.sections.details@.len() ==> 0 <= (#[trigger] self.sections.details@[i]).0
                && self.sections.details@[i].0 <= 25
    }

    /// The block at a position; air where the chunk is not loaded.
    pub open spec fn block_spec(self, b: BlockCoord) -> BlockId {
        if self.chunks@.contains_key(b.chunk_spec()) {
            self.chunks@[b.chunk_spec()].chunk.cell(cell_of_block(b))
        } else {
            BlockId::air_spec()
        }
    }

    /// The block at a position; air where the chunk is not loaded.
    pub fn block_at(&self, b: BlockCoord) -> (id: BlockId)
        requires
            self.wf(),
        ensures
            id == self.block_spec(b),
    {
        let (coord, (lx, ly, lz)) = b.split();
        match self.chunks.get(coord) {
            Some(l) => l.chunk.get_local(lx, ly, lz),
            None => BlockId::air(),
        }
    }

    /// The render distance.
    pub fn view_radius(&self) -> (r: i32)
        ensures
            r == self.view.horizontal,
    {
        self.view.horizontal
    }

    /// The vertical distance.
    pub fn vertical_radius(&self) -> (r: i32)
        ensures
            r == self.view.vertical,
    {
        self.view.vertical
    }

    /// Sets both distances from one: the vertical one is half the render distance.
    pub fn set_view_radius(&mut self, radius: i32)
        requires
            old(self).wf(),
        ensures
            final(self).wf(),
            resized(
                *old(self),
                *final(self),
                clamp_radius(radius),
                clamp_vertical((clamp_radius(radius) as int / 2) as i32),
            ),
    {
        let horizontal: i32 = clamped(radius, VIEW_RADIUS_MIN, VIEW_RADIUS_MAX);
        self.set_view_distances(horizontal, horizontal / 2);
    }

    /// Sets the distances. A change makes streaming scan again from scratch; a shrink
    /// also has the meshes beyond it freed.
    pub fn set_view_distances(&mut self, horizontal: i32, vertical: i32)
        requires
            old(self).wf(),
        ensures
            final(self).wf(),
            resized(
                *old(self),
                *final(self),
                clamp_radius(horizontal),
                clamp_vertical(vertical),
            ),
    {
        let h: i32 = clamped(horizontal, VIEW_RADIUS_MIN, VIEW_RADIUS_MAX);
        let v: i32 = clamped(vertical, VERTICAL_RADIUS_MIN, VERTICAL_RADIUS_MAX);
        if h != self.view.horizontal || v != self.view.vertical {
            let shrunk: bool = h < self.view.horizontal || v < self.view.vertical;
            self.view = ViewVolume { horizontal: h, vertical: v };
            self.mesh.center = None;
            self.mesh.prev_box = None;
            self.mesh.pending_fresh = true;
            self.mesh.radius_shrunk = self.mesh.radius_shrunk || shrunk;
        }
    }

    /// Sets the render lanes of a world that draws nothing yet.
    pub fn set_render_lanes(&mut self, occlusion: bool, lod2: bool)
        ensures
            *final(self) == (World {
                occlusion: OcclusionWork { forced: occlusion, ..old(self).occlusion },
                sections: SectionWork { lod2, ..old(self).sections },
                ..*old(self)
            }),
    {
        self.occlusion.forced = occlusion;
        self.sections.lod2 = lod2;
    }

    /// Whether cross-chunk lighting is on.
    pub fn lighting(&self) -> (b: bool)
        ensures
            b == self.lighting,
    {
        self.lighting
    }
}

/// The render distance within its range.
pub open spec fn clamp_radius(r: i32) -> i32 {
    if r < VIEW_RADIUS_MIN {
        VIEW_RADIUS_MIN
    } else if r > VIEW_RADIUS_MAX {
        VIEW_RADIUS_MAX
    } else {
        r
    }
}

/// The vertical distance within its range.
pub open spec fn clamp_vertical(r: i32) -> i32 {
    if r < VERTICAL_RADIUS_MIN {
        VERTICAL_RADIUS_MIN
    } else if r > VERTICAL_RADIUS_MAX {
        VERTICAL_RADIUS_MAX
    } else {
        r
    }
}

fn clamped(v: i32, lo: i32, hi: i32) -> (r: i32)
    requires
        lo <= hi,
    ensures
        r == (if v < lo {
            lo
        } else if v > hi {
            hi
        } else {
            v
        }),
{
    if v < lo {
        lo
    } else if v > hi {
        hi
    } else {
        v
    }
}

/// Whether `after` is `before` with these distances: nothing changes where they are
/// the same, else streaming scans again, and a shrink is noted.
pub open spec fn resized(before: World, after: World, h: i32, v: i32) -> bool {
    if h == before.view.horizontal && v == before.view.vertical {
        after == before
    } else {
        after == (World {
            view: ViewVolume { horizontal: h, vertical: v },
            mesh: MeshWork {
                center: None,
                prev_box: None,
                pending_fresh: true,
                radius_shrunk: before.mesh.radius_shrunk || h < before.view.horizontal || v
                    < before.view.vertical,
                ..before.mesh
            },
            ..before
        })
    }
}

/// View distances stay in range: twenty chunks along the ground and one to ten up and down,
/// what is in range stays as it is, and a change of either starts streaming anew.
pub proof fn lemma_view_stays_in_range(before: World, after: World, h: i32, v: i32)
    requires
        resized(before, after, clamp_radius(h), clamp_vertical(v)),
    ensures
        0 <= after.view.horizontal <= 20,
        1 <= after.view.vertical <= 10,
        0 <= h <= 20 ==> after.view.horizontal == h,
        h > 20 ==> after.view.horizontal == 20,
        h < 0 ==> after.view.horizontal == 0,
        1 <= v <= 10 ==> after.view.vertical == v,
        v > 10 ==> after.view.vertical == 10,
        v < 1 ==> after.view.vertical == 1,
        after.view != before.view ==> after.mesh.center is None && after.mesh.pending_fresh,
        after.view.horizontal < before.view.horizontal || after.view.vertical
            < before.view.vertical ==> after.mesh.radius_shrunk,
        after.chunks == before.chunks && after.overlay == before.overlay,
{
}

/// The chunks across from a block are those that hold the blocks next to it and are not its
/// own.
pub proof fn lemma_across_is_next_door(b: BlockCoord, c: ChunkCoord)
    requires
        i32::MIN < b.x < i32::MAX,
        i32::MIN < b.y < i32::MAX,
        i32::MIN < b.z < i32::MAX,
    ensures
        across(b, c) <==> c != b.chunk_spec() && exists|f: Face|
            c == (BlockCoord {
                x: (b.x + (#[trigger] f.offset_spec()).0) as i32,
                y: (b.y + f.offset_spec().1) as i32,
                z: (b.z + f.offset_spec().2) as i32,
            }).chunk_spec(),
{
    let l = b.local_spec();
    assert forall|f: Face|
        #![trigger f.offset_spec()]
        (BlockCoord {
            x: (b.x + f.offset_spec().0) as i32,
            y: (b.y + f.offset_spec().1) as i32,
            z: (b.z + f.offset_spec().2) as i32,
        }).chunk_spec() == (if f.touches_spec(l.0, l.1, l.2) {
            b.chunk_spec().step_spec(f)
        } else {
            b.chunk_spec()
        }) && b.chunk_spec().step_spec(f) != b.chunk_spec() by {}
    if across(b, c) {
        let f = choose|f: Face| #[trigger]
            f.touches_spec(l.0, l.1, l.2) && c == b.chunk_spec().step_spec(f);
        assert(f.offset_spec() == f.offset_spec());
    }
    if c != b.chunk_spec() && exists|f: Face|
        c == (BlockCoord {
            x: (b.x + (#[trigger] f.offset_spec()).0) as i32,
            y: (b.y + f.offset_spec().1) as i32,
            z: (b.z + f.offset_spec().2) as i32,
        }).chunk_spec() {
        let f = choose|f: Face|
            c == (BlockCoord {
                x: (b.x + (#[trigger] f.offset_spec()).0) as i32,
                y: (b.y + f.offset_spec().1) as i32,
                z: (b.z + f.offset_spec().2) as i32,
            }).chunk_spec();
        assert(f.touches_spec(l.0, l.1, l.2));
    }
}

} // verus!
