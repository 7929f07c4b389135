//! The world against its seed: what edits leave behind.
//!
//! A save holds the overlay alone. Whatever is loaded is what generation gives, with
//! the overlay's blocks in place of it, so seed and overlay bring the world back.
use vstd::prelude::*;

use crate::block::{BlockId, HotTables};
use crate::coord::{BlockCoord, ChunkCoord};
use crate::world::chunk::{lemma_index_local_inverse, Chunk};
use crate::world::coverage::SectionPos;
use crate::world::edits::{cell_of_block, World};
use crate::world::generation::TerrainGenerator;
use crate::world::place::{lemma_placed_block_reads_back, new_edit, placed};

verus! {

/// What generation gives at a position.
pub open spec fn natural<G: TerrainGenerator>(terra: G, b: BlockCoord) -> BlockId {
    terra.block_spec(b.x, b.y, b.z, terra.height_spec(b.x, b.z))
}

/// What seed and overlay bring back at a position.
pub open spec fn restored<G: TerrainGenerator>(w: World, terra: G, b: BlockCoord) -> BlockId {
    match w.overlay.at(b.chunk_spec(), cell_of_block(b)) {
        Some(id) => id,
        None => natural(terra, b),
    }
}

/// What stands at a position, loaded or not.
pub open spec fn defined<G: TerrainGenerator>(w: World, terra: G, b: BlockCoord) -> BlockId {
    if w.chunks@.contains_key(b.chunk_spec()) {
        w.block_spec(b)
    } else {
        restored(w, terra, b)
    }
}

/// Whether every loaded block is the one that seed and overlay bring back.
pub open spec fn is_faithful<G: TerrainGenerator>(w: World, terra: G) -> bool {
    forall|b: BlockCoord|
        w.chunks@.contains_key(b.chunk_spec()) ==> #[trigger] w.block_spec(b) == restored(
            w,
            terra,
            b,
        )
}

/// Whether the overlay holds nothing that generation gives anyway.
pub open spec fn is_lean<G: TerrainGenerator>(w: World, terra: G) -> bool {
    forall|b: BlockCoord|
        w.overlay.at(b.chunk_spec(), cell_of_block(b)) != Some(#[trigger] natural(terra, b))
}

impl World {
    /// The block at a position, loaded or not: one in space that is not loaded comes
    /// from the overlay, or else from generation.
    pub fn cell_at<G: TerrainGenerator>(&self, terra: &G, b: BlockCoord) -> (id: BlockId)
        requires
            self.wf(),
            terra.ready(),
            terra.reaches(b.y),
        ensures
            id == defined(*self, *terra, b),
    {
        let (coord, (lx, ly, lz)) = b.split();
        match self.chunks.get(coord) {
            Some(l) => l.chunk.get_local(lx, ly, lz),
            None => match self.overlay.get(coord, Chunk::index(lx, ly, lz)) {
                Some(id) => id,
                None => terra.block_at(b.x, b.y, b.z, terra.height(b.x, b.z)),
            },
        }
    }

    /// Sets the block at a position and gives the one that was there. See
    /// [`World::place_over`].
    pub fn set_block<G: TerrainGenerator>(
        &mut self,
        terra: &G,
        b: BlockCoord,
        id: BlockId,
        tables: &HotTables,
        occlusion_on: bool,
    ) -> (previous: BlockId)
        requires
            old(self).wf(),
            terra.ready(),
            terra.reaches(b.y),
            b.y < i32::MAX,
            old(self).edit_generation < u64::MAX,
            forall|p: SectionPos| #[trigger]
                old(self).sections.marks.rev_of(p) + old(self).sections.details@.len() <= u64::MAX,
        ensures
            final(self).wf(),
            previous == old(self).block_spec(b),
            placed(*old(self), *final(self), b, id, natural(*terra, b), *tables, occlusion_on),
    {
        let generated = terra.block_at(b.x, b.y, b.z, terra.height(b.x, b.z));
        self.place_over(b, id, generated, tables, occlusion_on)
    }
}

/// The overlay says of a position what an edit there left, and of any other what it
/// said before.
proof fn lemma_overlay_at(
    before: World,
    after: World,
    b: BlockCoord,
    id: BlockId,
    generated: BlockId,
    tables: HotTables,
    occlusion_on: bool,
    other: BlockCoord,
)
    requires
        placed(before, after, b, id, generated, tables, occlusion_on),
        !before.is_noop(b, id),
    ensures
        after.overlay.at(other.chunk_spec(), cell_of_block(other)) == if other == b {
            new_edit(id, generated)
        } else {
            before.overlay.at(other.chunk_spec(), cell_of_block(other))
        },
{
    let (l, k) = (b.local_spec(), other.local_spec());
    lemma_index_local_inverse(0, l.0, l.1, l.2);
    lemma_index_local_inverse(0, k.0, k.1, k.2);
    if other.chunk_spec() == b.chunk_spec() && cell_of_block(other) == cell_of_block(b) {
        crate::coord::lemma_split_is_exact(b, other);
    }
}

/// Edits keep what is loaded and what a save brings back the same: where every loaded
/// block is the one that seed and overlay bring back, it still is after an edit.
pub proof fn lemma_edits_rebuild_the_world<G: TerrainGenerator>(
    before: World,
    after: World,
    terra: G,
    b: BlockCoord,
    id: BlockId,
    tables: HotTables,
    occlusion_on: bool,
)
    requires
        before.wf(),
        placed(before, after, b, id, natural(terra, b), tables, occlusion_on),
        is_faithful(before, terra),
    ensures
        is_faithful(after, terra),
{
    if !before.is_noop(b, id) {
        assert forall|o: BlockCoord|
            after.chunks@.contains_key(o.chunk_spec()) implies #[trigger] after.block_spec(o)
            == restored(after, terra, o) by {
            assert(after.chunks@.dom().contains(o.chunk_spec()));
            assert(before.chunks@.contains_key(o.chunk_spec()));
            lemma_placed_block_reads_back(before, after, b, id, o);
            lemma_overlay_at(
                before,
                after,
                b,
                id,
                natural(terra, b),
                tables,
                occlusion_on,
                o,
            );
            assert(before.block_spec(o) == restored(before, terra, o));
        }
    }
}

/// What stands at a position never depends on what is loaded: two worlds of one seed
/// and one overlay, each with its own chunks loaded, hold the same block everywhere.
pub proof fn lemma_loading_is_moot<G: TerrainGenerator>(
    one: World,
    two: World,
    terra: G,
    b: BlockCoord,
)
    requires
        is_faithful(one, terra),
        is_faithful(two, terra),
        one.overlay == two.overlay,
    ensures
        defined(one, terra, b) == defined(two, terra, b),
        defined(one, terra, b) == restored(one, terra, b),
{
    assert(one.chunks@.contains_key(b.chunk_spec()) ==> one.block_spec(b) == restored(
        one,
        terra,
        b,
    ));
    assert(two.chunks@.contains_key(b.chunk_spec()) ==> two.block_spec(b) == restored(
        two,
        terra,
        b,
    ));
}

/// An edit is readable at once, loaded or not, and changes no other position.
pub proof fn lemma_edit_is_readable<G: TerrainGenerator>(
    before: World,
    after: World,
    terra: G,
    b: BlockCoord,
    id: BlockId,
    tables: HotTables,
    occlusion_on: bool,
    other: BlockCoord,
)
    requires
        before.wf(),
        placed(before, after, b, id, natural(terra, b), tables, occlusion_on),
    ensures
        defined(after, terra, b) == id,
        other != b ==> defined(after, terra, other) == defined(before, terra, other),
{
    if !before.is_noop(b, id) {
        let g = natural(terra, b);
        lemma_placed_block_reads_back(before, after, b, id, other);
        lemma_overlay_at(before, after, b, id, g, tables, occlusion_on, b);
        lemma_overlay_at(before, after, b, id, g, tables, occlusion_on, other);
        assert(after.chunks@.dom().contains(b.chunk_spec()) == before.chunks@.dom().contains(
            b.chunk_spec(),
        ));
        assert(after.chunks@.dom().contains(other.chunk_spec()) == before.chunks@.dom().contains(
            other.chunk_spec(),
        ));
    }
}

/// The overlay stays no larger than the difference from the generated world: an edit
/// never leaves a block in it that generation gives anyway.
pub proof fn lemma_overlay_stays_lean<G: TerrainGenerator>(
    before: World,
    after: World,
    terra: G,
    b: BlockCoord,
    id: BlockId,
    tables: HotTables,
    occlusion_on: bool,
)
    requires
        placed(before, after, b, id, natural(terra, b), tables, occlusion_on),
        is_lean(before, terra),
    ensures
        is_lean(after, terra),
{
    if !before.is_noop(b, id) {
        assert forall|o: BlockCoord|
            after.overlay.at(o.chunk_spec(), cell_of_block(o)) != Some(
                #[trigger] natural(terra, o),
            ) by {
            lemma_overlay_at(
                before,
                after,
                b,
                id,
                natural(terra, b),
                tables,
                occlusion_on,
                o,
            );
        }
    }
}

/// An edit: where, and which block.
pub struct Edit {
    pub at: BlockCoord,
    pub id: BlockId,
}

/// Whether an edit turns one world into the other.
pub open spec fn edit_made<G: TerrainGenerator>(
    before: World,
    after: World,
    e: Edit,
    terra: G,
    tables: HotTables,
    occlusion_on: bool,
) -> bool {
    &&& before.wf()
    &&& placed(before, after, e.at, e.id, natural(terra, e.at), tables, occlusion_on)
}

/// Whether a world goes through `worlds`, one edit after the other.
pub open spec fn edited_through<G: TerrainGenerator>(
    worlds: Seq<World>,
    edits: Seq<Edit>,
    terra: G,
    tables: HotTables,
    occlusion_on: bool,
) -> bool {
    &&& worlds.len() == edits.len() + 1
    &&& forall|i: int|
        0 <= i < edits.len() ==> edit_made(
            worlds[i],
            worlds[i + 1],
            #[trigger] edits[i],
            terra,
            tables,
            occlusion_on,
        )
}

/// However many edits were made: the overlay holds nothing that generation gives anyway,
/// and every loaded block is the one that seed and overlay bring back.
pub proof fn lemma_any_edits_keep_the_save<G: TerrainGenerator>(
    worlds: Seq<World>,
    edits: Seq<Edit>,
    terra: G,
    tables: HotTables,
    occlusion_on: bool,
)
    requires
        edited_through(worlds, edits, terra, tables, occlusion_on),
        is_lean(worlds[0], terra),
        is_faithful(worlds[0], terra),
    ensures
        is_lean(worlds.last(), terra),
        is_faithful(worlds.last(), terra),
        forall|b: BlockCoord, id: BlockId| #[trigger]
            worlds.last().overlay.lists(b, id) ==> id != natural(terra, b),
    decreases edits.len(),
{
    let end = worlds.last();
    if edits.len() > 0 {
        let n = edits.len() - 1;
        let w = worlds.drop_last();
        let rest = edits.drop_last();
        assert forall|i: int| 0 <= i < rest.len() implies edit_made(
            w[i],
            w[i + 1],
            #[trigger] rest[i],
            terra,
            tables,
            occlusion_on,
        ) by {
            assert(edit_made(
                worlds[i],
                worlds[i + 1],
                edits[i],
                terra,
                tables,
                occlusion_on,
            ));
        }
        lemma_any_edits_keep_the_save(w, rest, terra, tables, occlusion_on);
        let e = edits[n];
        assert(edit_made(worlds[n], worlds[n + 1], e, terra, tables, occlusion_on));
        lemma_edits_rebuild_the_world(
            worlds[n],
            worlds[n + 1],
            terra,
            e.at,
            e.id,
            tables,
            occlusion_on,
        );
        lemma_overlay_stays_lean(
            worlds[n],
            worlds[n + 1],
            terra,
            e.at,
            e.id,
            tables,
            occlusion_on,
        );
    }
    assert forall|b: BlockCoord, id: BlockId| #[trigger] end.overlay.lists(b, id) implies id
        != natural(terra, b) by {
        assert(end.overlay.at(b.chunk_spec(), cell_of_block(b)) != Some(natural(terra, b)));
    }
}

/// A world without edits is lean.
pub proof fn lemma_no_edits_is_lean<G: TerrainGenerator>(w: World, terra: G)
    requires
        forall|c: ChunkCoord, i: int| (#[trigger] w.overlay.at(c, i)) is None,
    ensures
        is_lean(w, terra),
{
}

} // verus!
