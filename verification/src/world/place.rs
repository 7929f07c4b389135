//! Placing and breaking blocks.
use vstd::prelude::*;

use crate::block::{BlockId, Detail, HotTables};
use crate::coord::{BlockCoord, ChunkCoord, Face};
use crate::world::chunk::{lemma_index_local_inverse, Chunk, CHUNK_VOLUME};
use crate::world::coverage::SectionPos;
use crate::world::edits::{
    across, cell_of_block, column_of, invalidated, opaque_edit, rewritten, LightWork, MeshState,
    MeshWork, OcclusionWork, World,
};
use crate::world::sections::{hits, section_at};

verus! {

/// What an edit leaves in the overlay: nothing where it restores what generation
/// gives.
pub open spec fn new_edit(id: BlockId, generated: BlockId) -> Option<BlockId> {
    if id == generated {
        None
    } else {
        Some(id)
    }
}

impl World {
    /// Whether placing `id` changes nothing: the loaded block is `id` already.
    pub open spec fn is_noop(self, b: BlockCoord, id: BlockId) -> bool {
        self.chunks@.contains_key(b.chunk_spec()) && self.block_spec(b) == id
    }

    /// Whether an edit moves the ceiling of its column: a block that stops light appears
    /// above it, or the edited one that is the ceiling disappears.
    pub open spec fn moves_ceiling(
        self,
        b: BlockCoord,
        id: BlockId,
        generated: BlockId,
        tables: HotTables,
    ) -> bool {
        let col = column_of(b.chunk_spec());
        let l = b.local_spec();
        &&& self.ceilings@.contains_key(col)
        &&& {
            let top = self.ceilings@[col].surface_spec(l.0, l.2);
            ||| opaque_edit(tables, new_edit(id, generated)) && b.y + 1 > top
            ||| opaque_edit(tables, self.overlay.at(b.chunk_spec(), cell_of_block(b))) && b.y + 1
                == top
        }
    }

    /// Whether a loaded chunk lies in the column at or below another.
    pub open spec fn is_shadowed(self, at: ChunkCoord, c: ChunkCoord) -> bool {
        self.chunks@.contains_key(c) && c.x == at.x && c.z == at.z && c.y <= at.y
    }

    /// Whether an edit invalidates a chunk: it is loaded, and holds the block or lies
    /// across a face that the block touches.
    pub open spec fn is_touched(self, b: BlockCoord, c: ChunkCoord) -> bool {
        self.chunks@.contains_key(c) && (c == b.chunk_spec() || across(b, c))
    }

    /// Invalidates a loaded chunk's mesh.
    pub fn invalidate_mesh(&mut self, c: ChunkCoord)
        requires
            old(self).wf(),
        ensures
            final(self).wf(),
            !old(self).chunks@.contains_key(c) ==> *final(self) == *old(self),
            old(self).chunks@.contains_key(c) ==> {
                &&& final(self).chunks@ == old(self).chunks@.insert(
                    c,
                    invalidated(old(self).chunks@[c]),
                )
                &&& final(self).mesh.dirty@ == old(self).mesh.dirty@.insert(c)
                &&& *final(self) == (World {
                    chunks: final(self).chunks,
                    mesh: MeshWork {
                        dirty: final(self).mesh.dirty,
                        pending_dirty: true,
                        ..old(self).mesh
                    },
                    ..*old(self)
                })
            },
    {
        if !self.chunks.contains(c) {
            return;
        }
        if let Some(l) = self.chunks.remove(c) {
            let mut l = l;
            l.state = MeshState::Dirty;
            l.rev = l.rev.wrapping_add(1);
            self.chunks.insert(c, l);
            self.mesh.dirty.insert(c);
            self.mesh.pending_dirty = true;
        }
        assert(self.chunks@ =~= old(self).chunks@.insert(c, invalidated(old(self).chunks@[c])));
    }

    /// Whether chunk work is the same but for what marking chunks stale changes.
    pub open spec fn same_else(before: World, after: World) -> bool {
        after == (World {
            chunks: after.chunks,
            light: LightWork {
                worklist: after.light.worklist,
                pending: after.light.pending,
                ..before.light
            },
            mesh: MeshWork {
                dirty: after.mesh.dirty,
                pending_dirty: after.mesh.pending_dirty,
                pending_fresh: after.mesh.pending_fresh,
                ..before.mesh
            },
            ..before
        })
    }

    /// Marks a loaded chunk stale: its mesh and its light are to be found again.
    fn mark_dirty(&mut self, c: ChunkCoord)
        requires
            old(self).wf(),
        ensures
            final(self).wf(),
            Self::same_else(*old(self), *final(self)),
            ({
                let hit = old(self).chunks@.contains_key(c);
                &&& final(self).chunks@ == if hit {
                    old(self).chunks@.insert(c, invalidated(old(self).chunks@[c]))
                } else {
                    old(self).chunks@
                }
                &&& final(self).mesh.dirty@ == if hit {
                    old(self).mesh.dirty@.insert(c)
                } else {
                    old(self).mesh.dirty@
                }
                &&& final(self).light.worklist@ == if hit {
                    old(self).light.worklist@.insert(c)
                } else {
                    old(self).light.worklist@
                }
                &&& final(self).mesh.pending_dirty == (old(self).mesh.pending_dirty || hit)
                &&& final(self).mesh.pending_fresh == (old(self).mesh.pending_fresh || hit)
                &&& final(self).light.pending == (old(self).light.pending || hit)
            }),
    {
        if self.chunks.contains(c) {
            self.invalidate_mesh(c);
            self.mesh.pending_fresh = true;
            self.light.worklist.insert(c);
            self.light.pending = true;
        }
    }

    /// Marks the loaded chunks stale that lie across a face that the block touches.
    fn mark_neighbours(&mut self, b: BlockCoord)
        requires
            old(self).wf(),
        ensures
            final(self).wf(),
            Self::same_else(*old(self), *final(self)),
            marked_across(*old(self), *final(self), b, 6),
    {
        let (coord, (lx, ly, lz)) = b.split();
        let mut k: usize = 0;
        proof {
            assert(self.chunks@.dom() =~= old(self).chunks@.dom());
        }
        while k < 6
            invariant
                k <= 6,
                self.wf(),
                Self::same_else(*old(self), *self),
                coord == b.chunk_spec(),
                (lx as int, ly as int, lz as int) == b.local_spec(),
                marked_across(*old(self), *self, b, k as int),
            decreases 6 - k,
        {
            let f = Face::at(k);
            let ghost mid = *self;
            if f.touches(lx, ly, lz) {
                self.mark_dirty(coord.step(f));
            }
            proof {
                lemma_marked_step(*old(self), mid, *self, b, k as int);
            }
            k = k + 1;
        }
    }
}

/// Whether a chunk lies across one of the first `n` faces that the block touches.
pub open spec fn across_first(b: BlockCoord, c: ChunkCoord, n: int) -> bool {
    let l = b.local_spec();
    exists|f: Face| #[trigger]
        f.touches_spec(l.0, l.1, l.2) && f.index_spec() < n && c == b.chunk_spec().step_spec(f)
}

/// Whether `after` is `before` with the loaded chunks stale that lie across the first
/// `n` faces that the block touches.
pub open spec fn marked_across(before: World, after: World, b: BlockCoord, n: int) -> bool {
    &&& after.chunks@.dom() == before.chunks@.dom()
    &&& forall|c: ChunkCoord| #[trigger]
        after.chunks@.contains_key(c) ==> after.chunks@[c] == if across_first(b, c, n) {
            invalidated(before.chunks@[c])
        } else {
            before.chunks@[c]
        }
    &&& forall|c: ChunkCoord| #[trigger]
        after.mesh.dirty@.contains(c) == (before.mesh.dirty@.contains(c) || (
        before.chunks@.contains_key(c) && across_first(b, c, n)))
    &&& forall|c: ChunkCoord| #[trigger]
        after.light.worklist@.contains(c) == (before.light.worklist@.contains(c) || (
        before.chunks@.contains_key(c) && across_first(b, c, n)))
    &&& after.mesh.pending_dirty == (before.mesh.pending_dirty || any_across(before, b, n))
    &&& after.mesh.pending_fresh == (before.mesh.pending_fresh || any_across(before, b, n))
    &&& after.light.pending == (before.light.pending || any_across(before, b, n))
}

/// Whether a loaded chunk lies across one of the first `n` faces that the block
/// touches.
pub open spec fn any_across(w: World, b: BlockCoord, n: int) -> bool {
    exists|c: ChunkCoord| #[trigger] across_first(b, c, n) && w.chunks@.contains_key(c)
}

proof fn lemma_steps_differ(c: ChunkCoord, f: Face, g: Face)
    requires
        f != g,
    ensures
        c.step_spec(f) != c.step_spec(g),
        c.step_spec(f) != c,
{
}

proof fn lemma_across_step(b: BlockCoord, n: int)
    requires
        0 <= n < 6,
    ensures
        ({
            let f = Face::at_spec(n);
            let l = b.local_spec();
            forall|c: ChunkCoord| #[trigger]
                across_first(b, c, n + 1) == (across_first(b, c, n) || (f.touches_spec(
                    l.0,
                    l.1,
                    l.2,
                ) && c == b.chunk_spec().step_spec(f)))
        }),
        !across_first(b, b.chunk_spec().step_spec(Face::at_spec(n)), n),
{
    let f = Face::at_spec(n);
    let l = b.local_spec();
    assert(f.index_spec() == n);
    assert forall|c: ChunkCoord| #[trigger]
        across_first(b, c, n + 1) == (across_first(b, c, n) || (f.touches_spec(l.0, l.1, l.2) && c
            == b.chunk_spec().step_spec(f))) by {
        if across_first(b, c, n + 1) {
            let g = choose|g: Face| #[trigger]
                g.touches_spec(l.0, l.1, l.2) && g.index_spec() < n + 1 && c
                    == b.chunk_spec().step_spec(g);
            if g.index_spec() < n {
                assert(g.touches_spec(l.0, l.1, l.2));
            } else {
                assert(g == f);
            }
        }
        if across_first(b, c, n) {
            let g = choose|g: Face| #[trigger]
                g.touches_spec(l.0, l.1, l.2) && g.index_spec() < n && c
                    == b.chunk_spec().step_spec(g);
            assert(g.touches_spec(l.0, l.1, l.2) && g.index_spec() < n + 1);
        }
        if f.touches_spec(l.0, l.1, l.2) && c == b.chunk_spec().step_spec(f) {
            assert(f.touches_spec(l.0, l.1, l.2) && f.index_spec() < n + 1);
        }
    }
    let s = b.chunk_spec().step_spec(f);
    if across_first(b, s, n) {
        let g = choose|g: Face| #[trigger]
            g.touches_spec(l.0, l.1, l.2) && g.index_spec() < n && s
                == b.chunk_spec().step_spec(g);
        lemma_steps_differ(b.chunk_spec(), f, g);
    }
}

proof fn lemma_marked_step(before: World, mid: World, after: World, b: BlockCoord, n: int)
    requires
        0 <= n < 6,
        marked_across(before, mid, b, n),
        ({
            let f = Face::at_spec(n);
            let l = b.local_spec();
            let c = b.chunk_spec().step_spec(f);
            let hit = f.touches_spec(l.0, l.1, l.2) && mid.chunks@.contains_key(c);
            &&& after.chunks@ == if hit {
                mid.chunks@.insert(c, invalidated(mid.chunks@[c]))
            } else {
                mid.chunks@
            }
            &&& after.mesh.dirty@ == if hit {
                mid.mesh.dirty@.insert(c)
            } else {
                mid.mesh.dirty@
            }
            &&& after.light.worklist@ == if hit {
                mid.light.worklist@.insert(c)
            } else {
                mid.light.worklist@
            }
            &&& after.mesh.pending_dirty == (mid.mesh.pending_dirty || hit)
            &&& after.mesh.pending_fresh == (mid.mesh.pending_fresh || hit)
            &&& after.light.pending == (mid.light.pending || hit)
        }),
    ensures
        marked_across(before, after, b, n + 1),
{
    lemma_across_step(b, n);
    let f = Face::at_spec(n);
    let l = b.local_spec();
    let c = b.chunk_spec().step_spec(f);
    let hit = f.touches_spec(l.0, l.1, l.2) && mid.chunks@.contains_key(c);
    assert(after.chunks@.dom() =~= before.chunks@.dom());
    assert forall|d: ChunkCoord| #[trigger] after.chunks@.contains_key(d) implies after.chunks@[d]
        == if across_first(b, d, n + 1) {
        invalidated(before.chunks@[d])
    } else {
        before.chunks@[d]
    } by {
        assert(mid.chunks@.contains_key(d));
    }
    assert forall|d: ChunkCoord| #[trigger]
        after.mesh.dirty@.contains(d) == (before.mesh.dirty@.contains(d) || (
        before.chunks@.contains_key(d) && across_first(b, d, n + 1))) by {
        assert(mid.mesh.dirty@.contains(d) == (before.mesh.dirty@.contains(d) || (
        before.chunks@.contains_key(d) && across_first(b, d, n))));
    }
    assert forall|d: ChunkCoord| #[trigger]
        after.light.worklist@.contains(d) == (before.light.worklist@.contains(d) || (
        before.chunks@.contains_key(d) && across_first(b, d, n + 1))) by {
        assert(mid.light.worklist@.contains(d) == (before.light.worklist@.contains(d) || (
        before.chunks@.contains_key(d) && across_first(b, d, n))));
    }
    assert(any_across(before, b, n + 1) == (any_across(before, b, n) || hit)) by {
        if any_across(before, b, n) {
            let d = choose|d: ChunkCoord| #[trigger]
                across_first(b, d, n) && before.chunks@.contains_key(d);
            assert(across_first(b, d, n + 1));
        }
        if hit {
            assert(across_first(b, c, n + 1));
        }
        if any_across(before, b, n + 1) {
            let d = choose|d: ChunkCoord| #[trigger]
                across_first(b, d, n + 1) && before.chunks@.contains_key(d);
            if across_first(b, d, n) {
            } else {
                assert(d == c);
            }
        }
    }
}

impl World {
    /// Has the light of every loaded chunk at or below another in its column settled
    /// again.
    fn shade_column(&mut self, at: ChunkCoord)
        requires
            old(self).wf(),
        ensures
            final(self).wf(),
            forall|c: ChunkCoord| #[trigger]
                final(self).light.worklist@.contains(c) == (old(self).light.worklist@.contains(c)
                    || old(self).is_shadowed(at, c)),
            *final(self) == (World {
                light: LightWork {
                    worklist: final(self).light.worklist,
                    pending: true,
                    ..old(self).light
                },
                ..*old(self)
            }),
    {
        let keys = self.chunks.keys();
        let ghost base = self.light.worklist@;
        let mut i: usize = 0;
        while i < keys.len()
            invariant
                i <= keys@.len(),
                self.wf(),
                *self == (World {
                    light: LightWork { worklist: self.light.worklist, ..old(self).light },
                    ..*old(self)
                }),
                forall|c: ChunkCoord| #[trigger]
                    self.light.worklist@.contains(c) == (base.contains(c) || exists|k: int|
                        0 <= k < i && #[trigger] keys@[k] == c && c.x == at.x && c.z == at.z && c.y
                            <= at.y),
            decreases keys@.len() - i,
        {
            let c = keys[i];
            let ghost before = self.light.worklist@;
            let below: bool = c.x == at.x && c.z == at.z && c.y <= at.y;
            if below {
                self.light.worklist.insert(c);
            }
            proof {
                assert forall|d: ChunkCoord| #[trigger] self.light.worklist@.contains(d) == (
                base.contains(d) || exists|k: int|
                    0 <= k < i + 1 && #[trigger] keys@[k] == d && d.x == at.x && d.z == at.z && d.y
                        <= at.y) by {
                    if exists|k: int|
                        0 <= k < i && #[trigger] keys@[k] == d && d.x == at.x && d.z == at.z && d.y
                            <= at.y {
                        let k = choose|k: int|
                            0 <= k < i && #[trigger] keys@[k] == d && d.x == at.x && d.z == at.z
                                && d.y <= at.y;
                        assert(keys@[k] == d);
                    }
                    if d == c && below {
                        assert(keys@[i as int] == d);
                    }
                }
            }
            i = i + 1;
        }
        proof {
            assert forall|c: ChunkCoord| #[trigger] self.light.worklist@.contains(c) == (
            base.contains(c) || old(self).is_shadowed(at, c)) by {
                assert(keys@.contains(c) == old(self).chunks@.contains_key(c));
                if old(self).is_shadowed(at, c) {
                    let k = choose|k: int| 0 <= k < keys@.len() && keys@[k] == c;
                    assert(keys@[k] == c);
                }
            }
        }
        self.light.pending = true;
    }

    /// Writes a voxel of a loaded chunk, and marks what is derived from it stale.
    fn write_voxel(&mut self, c: ChunkCoord, index: usize, id: BlockId, occlusion_on: bool)
        requires
            old(self).wf(),
            index < CHUNK_VOLUME,
        ensures
            final(self).wf(),
            voxel_written(*old(self), *final(self), c, index as int, id, occlusion_on),
    {
        if !self.chunks.contains(c) {
            return;
        }
        if let Some(l) = self.chunks.remove(c) {
            let mut l = l;
            l.chunk.set_index(index, id);
            l.connectivity = None;
            self.chunks.insert(c, l);
        }
        self.occlusion.dirty = true;
        if occlusion_on {
            self.occlusion.refill.push(c);
        }
        self.invalidate_mesh(c);
        self.mesh.pending_fresh = true;
        self.light.worklist.insert(c);
        self.light.pending = true;
        assert(self.chunks@ =~= old(self).chunks@.insert(c, self.chunks@[c]));
    }

    /// Sets the block at a position where generation gives `generated`, and gives the
    /// one that was there.
    ///
    /// Where the loaded block is `id` already, nothing changes. Else the edit is recorded,
    /// or forgotten where `id` is what generation gives, and what depends on the block is
    /// marked stale: the column's ceiling and the light below it, the far-field sections
    /// over it, the mesh, light and connectivity of its chunk, and the mesh and light of
    /// the chunks across the faces that it touches.
    pub fn place_over(
        &mut self,
        b: BlockCoord,
        id: BlockId,
        generated: BlockId,
        tables: &HotTables,
        occlusion_on: bool,
    ) -> (previous: BlockId)
        requires
            old(self).wf(),
            b.y < i32::MAX,
            old(self).edit_generation < u64::MAX,
            forall|p: SectionPos| #[trigger]
                old(self).sections.marks.rev_of(p) + old(self).sections.details@.len() <= u64::MAX,
        ensures
            final(self).wf(),
            previous == old(self).block_spec(b),
            placed(*old(self), *final(self), b, id, generated, *tables, occlusion_on),
    {
        let (coord, (lx, ly, lz)) = b.split();
        let index: usize = Chunk::index(lx, ly, lz);
        let previous = self.block_at(b);
        if previous == id && self.chunks.contains(coord) {
            return previous;
        }
        let old_edit = self.overlay.get(coord, index);
        let fresh = self.record_edit(b, id, generated);
        let ghost recorded = *self;
        let moves: bool = self.move_ceiling(b, fresh, old_edit, tables);
        let ghost shaded = *self;
        self.mark_sections(b);
        let ghost listed = *self;
        self.write_voxel(coord, index, id, occlusion_on);
        let ghost written = *self;
        self.mark_neighbours(b);
        proof {
            lemma_edit_done(
                *old(self),
                recorded,
                shaded,
                listed,
                written,
                *self,
                b,
                id,
                fresh,
                moves,
                occlusion_on,
            );
        }
        previous
    }

    /// Records an edit in the overlay, or forgets it where it restores what generation
    /// gives.
    fn record_edit(&mut self, b: BlockCoord, id: BlockId, generated: BlockId) -> (fresh: Option<
        BlockId,
    >)
        requires
            old(self).wf(),
            old(self).edit_generation < u64::MAX,
        ensures
            final(self).wf(),
            fresh == new_edit(id, generated),
            overlay_edited(*old(self), *final(self), b, fresh),
    {
        let (coord, (lx, ly, lz)) = b.split();
        let index: usize = Chunk::index(lx, ly, lz);
        proof {
            crate::coord::lemma_split_is_exact(b, b);
        }
        let fresh = if id == generated {
            self.overlay.remove(coord, index);
            None
        } else {
            self.overlay.put(coord, index, id);
            Some(id)
        };
        self.edit_generation = self.edit_generation + 1;
        fresh
    }

    /// Forgets a column's ceiling where an edit moves it, and has the light below settled
    /// again.
    fn move_ceiling(
        &mut self,
        b: BlockCoord,
        fresh: Option<BlockId>,
        old_edit: Option<BlockId>,
        tables: &HotTables,
    ) -> (moves: bool)
        requires
            old(self).wf(),
            b.y < i32::MAX,
        ensures
            final(self).wf(),
            moves == ({
                let col = column_of(b.chunk_spec());
                let l = b.local_spec();
                &&& old(self).ceilings@.contains_key(col)
                &&& {
                    let top = old(self).ceilings@[col].surface_spec(l.0, l.2);
                    ||| opaque_edit(*tables, fresh) && b.y + 1 > top
                    ||| opaque_edit(*tables, old_edit) && b.y + 1 == top
                }
            }),
            ceiling_moved(*old(self), *final(self), b, moves),
    {
        let (coord, (lx, _ly, lz)) = b.split();
        let column = ChunkCoord { x: coord.x, y: 0, z: coord.z };
        let moves: bool = match self.ceilings.get(column) {
            Some(window) => {
                assert(self.ceilings@.contains_key(column));
                let top: i32 = window.surface_at(lx, lz);
                let raises: bool = is_opaque_edit(tables, fresh) && b.y + 1 > top;
                let lowers: bool = is_opaque_edit(tables, old_edit) && b.y + 1 == top;
                raises || lowers
            },
            None => false,
        };
        if moves {
            self.ceilings.remove(column);
            if self.lighting {
                self.shade_column(coord);
            }
        }
        moves
    }

    /// Marks the far-field sections over an edit.
    fn mark_sections(&mut self, b: BlockCoord)
        requires
            old(self).wf(),
            forall|p: SectionPos| #[trigger]
                old(self).sections.marks.rev_of(p) + old(self).sections.details@.len() <= u64::MAX,
        ensures
            final(self).wf(),
            sections_marked(*old(self), *final(self), b),
            *final(self) == (World { sections: final(self).sections, ..*old(self) }),
    {
        if self.sections.lod2 {
            let (coord, _) = b.split();
            let touched: bool = self.sections.marks.mark_edit(
                &self.sections.details,
                self.sections.domain_h,
                coord,
                b.x,
                b.y,
                b.z,
            );
            if touched {
                self.sections.pending = true;
            }
        }
    }
}

/// Whether `after` is `before` with an edit recorded.
pub open spec fn overlay_edited(
    before: World,
    after: World,
    b: BlockCoord,
    e: Option<BlockId>,
) -> bool {
    &&& edit_recorded(before, after, b, e)
    &&& after == (World {
        overlay: after.overlay,
        edit_generation: (before.edit_generation + 1) as u64,
        ..before
    })
}

/// Whether `after` is `before` with a column's ceiling forgotten, where `moves` holds.
pub open spec fn ceiling_moved(before: World, after: World, b: BlockCoord, moves: bool) -> bool {
    let at = b.chunk_spec();
    let shades = moves && before.lighting;
    &&& after.ceilings@ == if moves {
        before.ceilings@.remove(column_of(at))
    } else {
        before.ceilings@
    }
    &&& forall|c: ChunkCoord| #[trigger]
        after.light.worklist@.contains(c) == (before.light.worklist@.contains(c) || (shades
            && before.is_shadowed(at, c)))
    &&& after == (World {
        ceilings: after.ceilings,
        light: LightWork {
            worklist: after.light.worklist,
            pending: before.light.pending || shades,
            ..before.light
        },
        ..before
    })
}

/// Whether `after` is `before` with a voxel written, where its chunk is loaded.
pub open spec fn voxel_written(
    before: World,
    after: World,
    c: ChunkCoord,
    index: int,
    id: BlockId,
    occlusion_on: bool,
) -> bool {
    if before.chunks@.contains_key(c) {
        &&& after.chunks@.contains_key(c)
        &&& after.chunks@ == before.chunks@.insert(c, after.chunks@[c])
        &&& rewritten(before.chunks@[c], after.chunks@[c], index, id)
        &&& after.mesh.dirty@ == before.mesh.dirty@.insert(c)
        &&& after.light.worklist@ == before.light.worklist@.insert(c)
        &&& after.occlusion.refill@ == if occlusion_on {
            before.occlusion.refill@.push(c)
        } else {
            before.occlusion.refill@
        }
        &&& after == (World {
            chunks: after.chunks,
            mesh: MeshWork {
                dirty: after.mesh.dirty,
                pending_dirty: true,
                pending_fresh: true,
                ..before.mesh
            },
            light: LightWork {
                worklist: after.light.worklist,
                pending: true,
                ..before.light
            },
            occlusion: OcclusionWork {
                dirty: true,
                refill: after.occlusion.refill,
                ..before.occlusion
            },
            ..before
        })
    } else {
        after == before
    }
}

/// The steps of an edit add up.
proof fn lemma_edit_done(
    before: World,
    recorded: World,
    shaded: World,
    listed: World,
    written: World,
    after: World,
    b: BlockCoord,
    id: BlockId,
    e: Option<BlockId>,
    moves: bool,
    occlusion_on: bool,
)
    requires
        overlay_edited(before, recorded, b, e),
        ceiling_moved(recorded, shaded, b, moves),
        sections_marked(shaded, listed, b),
        listed == (World { sections: listed.sections, ..shaded }),
        voxel_written(listed, written, b.chunk_spec(), cell_of_block(b), id, occlusion_on),
        World::same_else(written, after),
        marked_across(written, after, b, 6),
    ensures
        edit_recorded(before, after, b, e),
        chunks_edited(before, after, b, id),
        work_marked(before, after, b, moves, occlusion_on),
        sections_marked(before, after, b),
{
    let coord = b.chunk_spec();
    lemma_across_all(b);
    assert(!across(b, coord)) by {
        if across(b, coord) {
            let l = b.local_spec();
            let f = choose|f: Face| #[trigger]
                f.touches_spec(l.0, l.1, l.2) && coord == coord.step_spec(f);
            lemma_steps_differ(coord, f, f.opposite_spec());
        }
    }
    assert(written.chunks@.dom() =~= before.chunks@.dom());
    assert(chunks_edited(before, after, b, id)) by {
        assert forall|c: ChunkCoord| #[trigger]
            after.chunks@.contains_key(c) && c != coord implies after.chunks@[c] == if across(
            b,
            c,
        ) {
            invalidated(before.chunks@[c])
        } else {
            before.chunks@[c]
        } by {
            assert(written.chunks@.contains_key(c));
            assert(written.chunks@[c] == before.chunks@[c]);
        }
        if before.chunks@.contains_key(coord) {
            assert(after.chunks@.contains_key(coord));
            assert(after.chunks@[coord] == written.chunks@[coord]);
        }
    }
    lemma_touched(before, written, b);
    lemma_work_done(before, shaded, listed, written, after, b, id, moves, occlusion_on);
}

proof fn lemma_work_done(
    before: World,
    shaded: World,
    listed: World,
    written: World,
    after: World,
    b: BlockCoord,
    id: BlockId,
    moves: bool,
    occlusion_on: bool,
)
    requires
        ceiling_moved(before, World { overlay: before.overlay, edit_generation: before.edit_generation, ..shaded }, b, moves),
        listed == (World { sections: listed.sections, ..shaded }),
        voxel_written(listed, written, b.chunk_spec(), cell_of_block(b), id, occlusion_on),
        World::same_else(written, after),
        marked_across(written, after, b, 6),
        written.chunks@.dom() == before.chunks@.dom(),
        forall|c: ChunkCoord| #[trigger] across_first(b, c, 6) == across(b, c),
        touches_any(before, b) == (before.chunks@.contains_key(b.chunk_spec()) || any_across(
            written,
            b,
            6,
        )),
    ensures
        work_marked(before, after, b, moves, occlusion_on),
{
    let coord = b.chunk_spec();
    assert forall|c: ChunkCoord| #[trigger] after.light.worklist@.contains(c) == (
    before.light.worklist@.contains(c) || (moves && before.lighting && before.is_shadowed(coord, c))
        || before.is_touched(b, c)) by {
        assert(shaded.light.worklist@.contains(c) == (before.light.worklist@.contains(c) || (moves
            && before.lighting && before.is_shadowed(coord, c))));
        assert(written.chunks@.dom().contains(c) == before.chunks@.dom().contains(c));
    }
    assert forall|c: ChunkCoord| #[trigger] after.mesh.dirty@.contains(c) == (
    before.mesh.dirty@.contains(c) || before.is_touched(b, c)) by {
        assert(written.chunks@.dom().contains(c) == before.chunks@.dom().contains(c));
    }
}

fn is_opaque_edit(tables: &HotTables, e: Option<BlockId>) -> (b: bool)
    ensures
        b == opaque_edit(*tables, e),
{
    match e {
        Some(id) => (id.0 as usize) < tables.opaque.len() && tables.opaque[id.0 as usize],
        None => false,
    }
}

proof fn lemma_touched(before: World, written: World, b: BlockCoord)
    requires
        written.chunks@.dom() == before.chunks@.dom(),
        forall|c: ChunkCoord| #[trigger] across_first(b, c, 6) == across(b, c),
    ensures
        touches_any(before, b) == (before.chunks@.contains_key(b.chunk_spec()) || any_across(
            written,
            b,
            6,
        )),
{
    if touches_any(before, b) {
        let c = choose|c: ChunkCoord| #[trigger] before.is_touched(b, c);
        if c != b.chunk_spec() {
            assert(across_first(b, c, 6));
            assert(written.chunks@.dom().contains(c));
        }
    }
    if before.chunks@.contains_key(b.chunk_spec()) {
        assert(before.is_touched(b, b.chunk_spec()));
    }
    if any_across(written, b, 6) {
        let c = choose|c: ChunkCoord| #[trigger]
            across_first(b, c, 6) && written.chunks@.contains_key(c);
        assert(before.chunks@.dom().contains(c));
        assert(before.is_touched(b, c));
    }
}

proof fn lemma_across_all(b: BlockCoord)
    ensures
        forall|c: ChunkCoord| #[trigger] across_first(b, c, 6) == across(b, c),
{
    let l = b.local_spec();
    assert forall|c: ChunkCoord| #[trigger] across_first(b, c, 6) == across(b, c) by {
        if across(b, c) {
            let f = choose|f: Face| #[trigger]
                f.touches_spec(l.0, l.1, l.2) && c == b.chunk_spec().step_spec(f);
            assert(f.touches_spec(l.0, l.1, l.2) && f.index_spec() < 6);
        }
        if across_first(b, c, 6) {
            let f = choose|f: Face| #[trigger]
                f.touches_spec(l.0, l.1, l.2) && f.index_spec() < 6 && c
                    == b.chunk_spec().step_spec(f);
            assert(f.touches_spec(l.0, l.1, l.2));
        }
    }
}

/// Whether `after` is `before` with a block placed.
pub open spec fn placed(
    before: World,
    after: World,
    b: BlockCoord,
    id: BlockId,
    generated: BlockId,
    tables: HotTables,
    occlusion_on: bool,
) -> bool {
    if before.is_noop(b, id) {
        after == before
    } else {
        &&& after.edit_generation == before.edit_generation + 1
        &&& edit_recorded(before, after, b, new_edit(id, generated))
        &&& chunks_edited(before, after, b, id)
        &&& work_marked(
            before,
            after,
            b,
            before.moves_ceiling(b, id, generated, tables),
            occlusion_on,
        )
        &&& sections_marked(before, after, b)
        &&& after.view == before.view
        &&& after.lighting == before.lighting
        &&& after.ao == before.ao
        &&& after.tables_epoch == before.tables_epoch
    }
}

/// The overlay after an edit.
pub open spec fn edit_recorded(
    before: World,
    after: World,
    b: BlockCoord,
    e: Option<BlockId>,
) -> bool {
    forall|c: ChunkCoord, i: int| #[trigger]
        after.overlay.at(c, i) == if c == b.chunk_spec() && i == cell_of_block(b) {
            e
        } else {
            before.overlay.at(c, i)
        }
}

/// The loaded chunks after an edit: the block's own is rewritten, and those across the
/// faces that it touches are stale.
pub open spec fn chunks_edited(before: World, after: World, b: BlockCoord, id: BlockId) -> bool {
    let at = b.chunk_spec();
    &&& after.chunks@.dom() == before.chunks@.dom()
    &&& before.chunks@.contains_key(at) ==> rewritten(
        before.chunks@[at],
        after.chunks@[at],
        cell_of_block(b),
        id,
    )
    &&& forall|c: ChunkCoord| #[trigger]
        after.chunks@.contains_key(c) && c != at ==> after.chunks@[c] == if across(b, c) {
            invalidated(before.chunks@[c])
        } else {
            before.chunks@[c]
        }
}

/// Whether an edit touches any loaded chunk.
pub open spec fn touches_any(w: World, b: BlockCoord) -> bool {
    exists|c: ChunkCoord| #[trigger] w.is_touched(b, c)
}

/// The work that an edit marks. `moves` says that it moves its column's ceiling.
pub open spec fn work_marked(
    before: World,
    after: World,
    b: BlockCoord,
    moves: bool,
    occlusion_on: bool,
) -> bool {
    let at = b.chunk_spec();
    let here = before.chunks@.contains_key(at);
    let shades = moves && before.lighting;
    &&& after.ceilings@ == if moves {
        before.ceilings@.remove(column_of(at))
    } else {
        before.ceilings@
    }
    &&& forall|c: ChunkCoord| #[trigger]
        after.light.worklist@.contains(c) == (before.light.worklist@.contains(c) || (shades
            && before.is_shadowed(at, c)) || before.is_touched(b, c))
    &&& after.light.pending == (before.light.pending || shades || touches_any(before, b))
    &&& after.light.epoch == before.light.epoch
    &&& after.light.inflight == before.light.inflight
    &&& after.light.apply_queue == before.light.apply_queue
    &&& forall|c: ChunkCoord| #[trigger]
        after.mesh.dirty@.contains(c) == (before.mesh.dirty@.contains(c) || before.is_touched(
            b,
            c,
        ))
    &&& after.mesh.pending_dirty == (before.mesh.pending_dirty || touches_any(before, b))
    &&& after.mesh.pending_fresh == (before.mesh.pending_fresh || touches_any(before, b))
    &&& after.mesh.fresh == before.mesh.fresh
    &&& after.mesh.center == before.mesh.center
    &&& after.mesh.prev_box == before.mesh.prev_box
    &&& after.mesh.radius_shrunk == before.mesh.radius_shrunk
    &&& after.occlusion.dirty == (before.occlusion.dirty || here)
    &&& after.occlusion.refill@ == if here && occlusion_on {
        before.occlusion.refill@.push(at)
    } else {
        before.occlusion.refill@
    }
    &&& after.occlusion.forced == before.occlusion.forced
    &&& after.occlusion.active == before.occlusion.active
}

/// The far-field sections that an edit marks.
pub open spec fn sections_marked(before: World, after: World, b: BlockCoord) -> bool {
    let s = before.sections;
    let on = s.lod2 && 0 <= b.y < s.domain_h;
    let n = s.details@.len() as int;
    &&& after.sections.pending == (s.pending || on)
    &&& after.sections.lod2 == s.lod2
    &&& after.sections.epoch == s.epoch
    &&& after.sections.pyramid == s.pyramid
    &&& after.sections.details == s.details
    &&& after.sections.domain_h == s.domain_h
    &&& forall|p: SectionPos| #[trigger]
        after.sections.marks.rev_of(p) == s.marks.rev_of(p) + (if on {
            hits(s.details@, n, b.x as int, b.z as int, p)
        } else {
            0
        })
    &&& forall|p: SectionPos| #[trigger]
        after.sections.marks.is_dirty(p) == (s.marks.is_dirty(p) || (on && hits(
            s.details@,
            n,
            b.x as int,
            b.z as int,
            p,
        ) > 0))
    &&& forall|p: SectionPos| #[trigger]
        after.sections.marks.is_stale(p) == (s.marks.is_stale(p) || (on && hits(
            s.details@,
            n,
            b.x as int,
            b.z as int,
            p,
        ) > 0))
    &&& forall|p: SectionPos, c: ChunkCoord| #[trigger]
        after.sections.marks.holds_chunk(p, c) == (s.marks.holds_chunk(p, c) || (on && c
            == b.chunk_spec() && hits(s.details@, n, b.x as int, b.z as int, p) > 0))
}

impl World {
    /// All edits by block position, for saving.
    pub fn edits(&self) -> (out: Vec<(BlockCoord, BlockId)>)
        requires
            self.wf(),
        ensures
            out@.len() == self.overlay.len_spec(),
            forall|b: BlockCoord, id: BlockId| #[trigger]
                out@.contains((b, id)) == self.overlay.lists(b, id),
            forall|i: int, j: int|
                0 <= i < out@.len() && 0 <= j < out@.len() && i != j ==> (#[trigger] out@[i]).0 != (
                #[trigger] out@[j]).0,
    {
        let out = self.overlay.entries();
        proof {
            assert forall|b: BlockCoord, id: BlockId| #[trigger]
                out@.contains((b, id)) == self.overlay.lists(b, id) by {
                if out@.contains((b, id)) {
                    let i = choose|i: int| 0 <= i < out@.len() && out@[i] == (b, id);
                    assert(self.overlay.lists(out@[i].0, out@[i].1));
                }
            }
        }
        out
    }
}

/// A block placed in a loaded chunk is read back, and every other block stays.
pub proof fn lemma_placed_block_reads_back(
    before: World,
    after: World,
    b: BlockCoord,
    id: BlockId,
    other: BlockCoord,
)
    requires
        before.wf(),
        chunks_edited(before, after, b, id),
    ensures
        before.chunks@.contains_key(b.chunk_spec()) ==> after.block_spec(b) == id,
        other != b ==> after.block_spec(other) == before.block_spec(other),
{
    let at = b.chunk_spec();
    let l = b.local_spec();
    lemma_index_local_inverse(0, l.0, l.1, l.2);
    if before.chunks@.contains_key(at) {
        assert(after.chunks@.dom().contains(at));
        let i = cell_of_block(b);
        assert(after.chunks@[at].chunk@[i] == after.chunks@[at].chunk.cell(i));
    }
    if other != b {
        let c = other.chunk_spec();
        assert(after.chunks@.dom().contains(c) == before.chunks@.dom().contains(c));
        let k = other.local_spec();
        lemma_index_local_inverse(0, k.0, k.1, k.2);
        if before.chunks@.contains_key(c) {
            assert(after.chunks@.contains_key(c));
            if c == at {
                let i = cell_of_block(other);
                if i == cell_of_block(b) {
                    crate::coord::lemma_split_is_exact(b, other);
                }
                assert(after.chunks@[c].chunk@[i] == after.chunks@[c].chunk.cell(i));
                assert(before.chunks@[c].chunk@[i] == before.chunks@[c].chunk.cell(i));
            }
        }
    }
}

/// Restoring what generation gives leaves no edit, so the overlay holds exactly the
/// difference from the generated world.
pub proof fn lemma_restoring_forgets(
    before: World,
    after: World,
    b: BlockCoord,
    id: BlockId,
    generated: BlockId,
)
    requires
        edit_recorded(before, after, b, new_edit(id, generated)),
    ensures
        after.overlay.at(b.chunk_spec(), cell_of_block(b)) == (if id == generated {
            None
        } else {
            Some(id)
        }),
{
}

/// The chunk of a block one step away is the block's own, or the one across the face that
/// the step goes through.
proof fn lemma_next_block(b: BlockCoord, o: BlockCoord, f: Face)
    requires
        o.x == b.x + f.offset_spec().0,
        o.y == b.y + f.offset_spec().1,
        o.z == b.z + f.offset_spec().2,
    ensures
        ({
            let l = b.local_spec();
            o.chunk_spec() == if f.touches_spec(l.0, l.1, l.2) {
                b.chunk_spec().step_spec(f)
            } else {
                b.chunk_spec()
            }
        }),
{
}

/// An edit makes stale what it can show in: every loaded chunk that holds the block or one
/// that shares a face with it is to be meshed and lit again, with its revision moved on, and
/// no other loaded chunk changes.
pub proof fn lemma_edit_makes_stale_what_it_touches(
    before: World,
    after: World,
    b: BlockCoord,
    id: BlockId,
    generated: BlockId,
    tables: HotTables,
    occlusion_on: bool,
    o: BlockCoord,
    f: Face,
    c: ChunkCoord,
)
    requires
        placed(before, after, b, id, generated, tables, occlusion_on),
        !before.is_noop(b, id),
        before.wf(),
        o.x == b.x + f.offset_spec().0,
        o.y == b.y + f.offset_spec().1,
        o.z == b.z + f.offset_spec().2,
    ensures
        before.chunks@.contains_key(b.chunk_spec()) ==> is_stale_in(
            before,
            after,
            b.chunk_spec(),
        ),
        before.chunks@.contains_key(o.chunk_spec()) ==> is_stale_in(
            before,
            after,
            o.chunk_spec(),
        ),
        before.chunks@.contains_key(c) && c != b.chunk_spec() && (forall|g: Face|
            c != #[trigger] b.chunk_spec().step_spec(g)) ==> after.chunks@[c] == before.chunks@[c],
{
    lemma_next_block(b, o, f);
    let at = b.chunk_spec();
    let l = b.local_spec();
    if before.chunks@.contains_key(at) {
        assert(after.chunks@.dom().contains(at));
        assert(before.is_touched(b, at));
        assert(after.mesh.dirty@.contains(at));
        assert(after.light.worklist@.contains(at));
    }
    let d = o.chunk_spec();
    if before.chunks@.contains_key(d) && d != at {
        assert(f.touches_spec(l.0, l.1, l.2) && d == at.step_spec(f));
        assert(across(b, d));
        assert(after.chunks@.dom().contains(d));
        assert(after.chunks@.contains_key(d));
        assert(before.is_touched(b, d));
        assert(after.mesh.dirty@.contains(d));
        assert(after.light.worklist@.contains(d));
    }
    if before.chunks@.contains_key(c) {
        assert(after.chunks@.dom().contains(c));
        assert(after.chunks@.contains_key(c));
    }
}

/// Whether a loaded chunk is to be meshed and lit again.
pub open spec fn is_stale_in(before: World, after: World, c: ChunkCoord) -> bool {
    &&& after.chunks@.contains_key(c)
    &&& after.chunks@[c].state == MeshState::Dirty
    &&& after.chunks@[c].rev == before.chunks@[c].rev.wrapping_add(1)
    &&& after.mesh.dirty@.contains(c)
    &&& after.light.worklist@.contains(c)
    &&& after.mesh.pending_dirty
    &&& after.light.pending
}

/// A block that stops light, set over all that stood in its column, closes the sky over it:
/// the column's ceiling is forgotten and, where lighting is on, every loaded chunk of the
/// column at that height or lower is lit again. One that lets light through, set where no
/// edit stood, leaves every ceiling.
pub proof fn lemma_roof_shades_its_column(
    before: World,
    after: World,
    b: BlockCoord,
    id: BlockId,
    generated: BlockId,
    tables: HotTables,
    occlusion_on: bool,
    c: ChunkCoord,
)
    requires
        placed(before, after, b, id, generated, tables, occlusion_on),
        !before.is_noop(b, id),
        before.ceilings@.contains_key(column_of(b.chunk_spec())),
        id != generated,
        id.0 < tables.opaque@.len(),
    ensures
        ({
            let top = before.ceilings@[column_of(b.chunk_spec())].surface_spec(
                b.local_spec().0,
                b.local_spec().2,
            );
            let roof = tables.opaque@[id.0 as int] && b.y + 1 > top;
            &&& roof ==> !after.ceilings@.contains_key(column_of(b.chunk_spec()))
            &&& roof && before.lighting && before.chunks@.contains_key(c) && c.x == b.chunk_spec().x
                && c.z == b.chunk_spec().z && c.y <= b.chunk_spec().y
                ==> after.light.worklist@.contains(c)
            &&& !tables.opaque@[id.0 as int] && before.overlay.at(
                b.chunk_spec(),
                cell_of_block(b),
            ) is None ==> after.ceilings@ == before.ceilings@
        }),
{
    if before.chunks@.contains_key(c) && c.x == b.chunk_spec().x && c.z == b.chunk_spec().z && c.y
        <= b.chunk_spec().y {
        assert(before.is_shadowed(b.chunk_spec(), c));
    }
}

/// A far-field edit marks the sections that hold its column, at every level that is built
/// and at no other place: each such section is stale from then on, as long as the far field
/// is on and the height is in its domain.
pub proof fn lemma_edit_marks_its_sections(
    before: World,
    after: World,
    b: BlockCoord,
    k: int,
    p: SectionPos,
)
    requires
        before.wf(),
        sections_marked(before, after, b),
        before.sections.lod2,
        0 <= b.y < before.sections.domain_h,
        0 <= k < before.sections.details@.len(),
    ensures
        ({
            let d = before.sections.details@[k];
            let at = section_at(d, b.x as int, b.z as int);
            &&& after.sections.marks.is_dirty(at)
            &&& after.sections.marks.is_stale(at)
            &&& after.sections.marks.rev_of(at) > before.sections.marks.rev_of(at)
            &&& after.sections.pending
        }),
        (forall|j: int|
            0 <= j < before.sections.details@.len() ==> section_at(
                #[trigger] before.sections.details@[j],
                b.x as int,
                b.z as int,
            ) != p) ==> after.sections.marks.is_dirty(p) == before.sections.marks.is_dirty(p)
            && after.sections.marks.rev_of(p) == before.sections.marks.rev_of(p),
{
    let ds = before.sections.details@;
    let n = ds.len() as int;
    let at = section_at(ds[k], b.x as int, b.z as int);
    lemma_hits(ds, n, b.x as int, b.z as int, at, k);
    if forall|j: int|
        0 <= j < n ==> section_at(#[trigger] ds[j], b.x as int, b.z as int) != p {
        lemma_no_hits(ds, n, b.x as int, b.z as int, p);
    }
    assert(after.sections.marks.is_dirty(at));
}

proof fn lemma_hits(ds: Seq<Detail>, n: int, x: int, z: int, p: SectionPos, k: int)
    requires
        0 <= k < n <= ds.len(),
        section_at(ds[k], x, z) == p,
    ensures
        hits(ds, n, x, z, p) > 0,
    decreases n,
{
    lemma_hits_nonneg(ds, n - 1, x, z, p);
    if k < n - 1 {
        lemma_hits(ds, n - 1, x, z, p, k);
    }
}

proof fn lemma_hits_nonneg(ds: Seq<Detail>, n: int, x: int, z: int, p: SectionPos)
    ensures
        hits(ds, n, x, z, p) >= 0,
    decreases n,
{
    if n > 0 {
        lemma_hits_nonneg(ds, n - 1, x, z, p);
    }
}

proof fn lemma_no_hits(ds: Seq<Detail>, n: int, x: int, z: int, p: SectionPos)
    requires
        0 <= n <= ds.len(),
        forall|j: int| 0 <= j < n ==> section_at(#[trigger] ds[j], x, z) != p,
    ensures
        hits(ds, n, x, z, p) == 0,
    decreases n,
{
    if n > 0 {
        lemma_no_hits(ds, n - 1, x, z, p);
    }
}

/// Taking away a column's topmost built roof has its ceiling worked out anew and the chunks at
/// and below it lit anew; what happens further down leaves the ceiling alone.
pub proof fn lemma_lost_roof_opens_its_column(
    before: World,
    after: World,
    b: BlockCoord,
    id: BlockId,
    generated: BlockId,
    tables: HotTables,
    occlusion_on: bool,
    c: ChunkCoord,
)
    requires
        placed(before, after, b, id, generated, tables, occlusion_on),
        !before.is_noop(b, id),
        before.ceilings@.contains_key(column_of(b.chunk_spec())),
    ensures
        ({
            let top = before.ceilings@[column_of(b.chunk_spec())].surface_spec(
                b.local_spec().0,
                b.local_spec().2,
            );
            let built = before.overlay.at(b.chunk_spec(), cell_of_block(b));
            let held = built->0;
            let roof = built is Some && held.0 < tables.opaque@.len()
                && tables.opaque@[held.0 as int];
            &&& roof && top == b.y + 1 ==> !after.ceilings@.contains_key(column_of(b.chunk_spec()))
            &&& roof && top == b.y + 1 && before.lighting && before.chunks@.contains_key(c) && c.x
                == b.chunk_spec().x && c.z == b.chunk_spec().z && c.y <= b.chunk_spec().y
                ==> after.light.worklist@.contains(c)
            &&& b.y + 1 < top ==> after.ceilings@ == before.ceilings@
            &&& id == generated && top != b.y + 1 ==> after.ceilings@ == before.ceilings@
            &&& !roof && id == generated ==> after.ceilings@ == before.ceilings@
        }),
{
    if before.chunks@.contains_key(c) && c.x == b.chunk_spec().x && c.z == b.chunk_spec().z && c.y
        <= b.chunk_spec().y {
        assert(before.is_shadowed(b.chunk_spec(), c));
    }
}

} // verus!
