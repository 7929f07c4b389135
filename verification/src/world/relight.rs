//! Turning lighting on and off, and dropping all meshes.
use vstd::prelude::*;

use crate::coord::ChunkCoord;
use crate::world::chunk_map::{has_key, key_row, lemma_key_row, ChunkMap, ChunkSet};
use crate::world::edits::{
    LightWork, Loaded, MeshState, OcclusionWork, PyramidCfg, SectionWork, World,
};
use crate::world::coverage::SectionPos;
use crate::world::light::LightGrid;
use crate::world::sections::SectionMarks;

verus! {

/// Whether the light of a chunk is on its way: it waits, is being settled, or is not
/// published yet.
pub open spec fn unsettled(w: LightWork, c: ChunkCoord) -> bool {
    ||| w.worklist@.contains(c)
    ||| w.inflight@.contains(c)
    ||| queued(w.apply_queue@, c)
}

/// Whether settled light of a chunk is not published yet.
pub open spec fn queued(q: Seq<(ChunkCoord, LightGrid)>, c: ChunkCoord) -> bool {
    exists|i: int| 0 <= i < q.len() && (#[trigger] q[i]).0 == c
}

/// The chunks of a world in which the light of some is forgotten.
pub open spec fn darkened(
    before: Map<ChunkCoord, Loaded>,
    after: Map<ChunkCoord, Loaded>,
    gone: spec_fn(ChunkCoord) -> bool,
) -> bool {
    &&& after.dom() == before.dom()
    &&& forall|c: ChunkCoord| #[trigger]
        after.contains_key(c) ==> after[c] == if gone(c) {
            Loaded { light: None, ..before[c] }
        } else {
            before[c]
        }
}

fn drop_light(chunks: &mut ChunkMap<Loaded>, c: ChunkCoord)
    requires
        old(chunks).wf(),
    ensures
        final(chunks).wf(),
        darkened(old(chunks)@, final(chunks)@, |d: ChunkCoord| d == c),
{
    match chunks.remove(c) {
        Some(l) => {
            let mut l = l;
            l.light = None;
            chunks.insert(c, l);
            assert(chunks@.dom() =~= old(chunks)@.dom());
        },
        None => {
            assert(chunks@ =~= old(chunks)@);
        },
    }
}

fn drop_listed(chunks: &mut ChunkMap<Loaded>, list: &Vec<ChunkCoord>)
    requires
        old(chunks).wf(),
    ensures
        final(chunks).wf(),
        darkened(old(chunks)@, final(chunks)@, |d: ChunkCoord| list@.contains(d)),
{
    let mut i: usize = 0;
    while i < list.len()
        invariant
            i <= list@.len(),
            chunks.wf(),
            darkened(
                old(chunks)@,
                chunks@,
                |d: ChunkCoord| exists|k: int| 0 <= k < i && #[trigger] list@[k] == d,
            ),
        decreases list@.len() - i,
    {
        let ghost before = chunks@;
        drop_light(chunks, list[i]);
        proof {
            assert forall|c: ChunkCoord| #[trigger] chunks@.contains_key(c) implies chunks@[c]
                == if (exists|k: int| 0 <= k < i + 1 && #[trigger] list@[k] == c) {
                Loaded { light: None, ..old(chunks)@[c] }
            } else {
                old(chunks)@[c]
            } by {
                assert(before.contains_key(c));
                if c == list@[i as int] {
                } else if exists|k: int| 0 <= k < i && #[trigger] list@[k] == c {
                    let k = choose|k: int| 0 <= k < i && #[trigger] list@[k] == c;
                    assert(list@[k] == c);
                }
            }
        }
        i = i + 1;
    }
}

impl World {
    /// Whether `after` is `before` with lighting turned to `on`. Light that was on its
    /// way is forgotten when lighting goes off; when it comes on, every chunk without
    /// light is to be settled.
    pub open spec fn relit(before: World, after: World, on: bool) -> bool {
        &&& after.lighting == on
        &&& after.light.epoch == before.light.epoch.wrapping_add(1)
        &&& darkened(
            before.chunks@,
            after.chunks@,
            |c: ChunkCoord| !on && unsettled(before.light, c),
        )
        &&& forall|c: ChunkCoord| #[trigger]
            after.light.worklist@.contains(c) == (on && (before.light.worklist@.contains(c) || (
            before.chunks@.contains_key(c) && before.chunks@[c].light is None)))
        &&& after.light.inflight@ == Set::<ChunkCoord>::empty()
        &&& after.light.apply_queue@.len() == 0
        &&& after.light.pending == exists|c: ChunkCoord| #[trigger]
            after.light.worklist@.contains(c)
        &&& after == (World {
            lighting: after.lighting,
            light: after.light,
            chunks: after.chunks,
            ..before
        })
    }

    /// Turns the settling of light on or off. The answer is whether that changed
    /// anything.
    pub fn transition_lighting(&mut self, on: bool) -> (changed: bool)
        requires
            old(self).wf(),
        ensures
            final(self).wf(),
            changed == (on != old(self).lighting),
            !changed ==> *final(self) == *old(self),
            changed ==> Self::relit(*old(self), *final(self), on),
    {
        if on == self.lighting {
            return false;
        }
        self.lighting = on;
        self.light.epoch = self.light.epoch.wrapping_add(1);
        if !on {
            let waiting = self.light.worklist.members();
            let running = self.light.inflight.members();
            let queue = queued_coords(&self.light.apply_queue);
            drop_listed(&mut self.chunks, &waiting);
            let ghost first = self.chunks@;
            drop_listed(&mut self.chunks, &running);
            let ghost second = self.chunks@;
            drop_listed(&mut self.chunks, &queue);
            proof {
                assert forall|c: ChunkCoord| #[trigger] self.chunks@.contains_key(
                    c,
                ) implies self.chunks@[c] == if unsettled(old(self).light, c) {
                    Loaded { light: None, ..old(self).chunks@[c] }
                } else {
                    old(self).chunks@[c]
                } by {
                    assert(second.contains_key(c));
                    assert(first.contains_key(c));
                    assert(waiting@.contains(c) == old(self).light.worklist@.contains(c));
                    assert(running@.contains(c) == old(self).light.inflight@.contains(c));
                    assert(queue@.contains(c) == queued(old(self).light.apply_queue@, c));
                }
            }
            self.light.worklist.clear();
        }
        self.light.inflight.clear();
        self.light.apply_queue = Vec::new();
        self.light.pending = false;
        if on {
            let keys = self.chunks.keys();
            let mut i: usize = 0;
            let ghost base = self.light.worklist@;
            let ghost at = *self;
            proof {
                assert forall|k: int| 0 <= k < keys@.len() implies self.chunks@.contains_key(
                    #[trigger] keys@[k],
                ) by {
                    assert(keys@.contains(keys@[k]));
                }
            }
            while i < keys.len()
                invariant
                    i <= keys@.len(),
                    at.wf(),
                    at.light.worklist@ == base,
                    self.wf(),
                    self.light.worklist.wf(),
                    *self == (World {
                        light: LightWork { worklist: self.light.worklist, ..at.light },
                        ..at
                    }),
                    forall|k: int|
                        0 <= k < keys@.len() ==> self.chunks@.contains_key(#[trigger] keys@[k]),
                    forall|c: ChunkCoord| #[trigger]
                        self.light.worklist@.contains(c) == (base.contains(c) || exists|k: int|
                            0 <= k < i && #[trigger] keys@[k] == c
                                && self.chunks@[keys@[k]].light is None),
                decreases keys@.len() - i,
            {
                let c = keys[i];
                let ghost before = self.light.worklist@;
                assert(self.chunks@.contains_key(keys@[i as int]));
                let bare: bool = match self.chunks.get(c) {
                    Some(l) => l.light.is_none(),
                    None => false,
                };
                if bare {
                    self.light.worklist.insert(c);
                }
                proof {
                    assert forall|d: ChunkCoord| #[trigger] self.light.worklist@.contains(d) == (
                    base.contains(d) || exists|k: int|
                        0 <= k < i + 1 && #[trigger] keys@[k] == d
                            && self.chunks@[keys@[k]].light is None) by {
                        if exists|k: int|
                            0 <= k < i && #[trigger] keys@[k] == d
                                && self.chunks@[keys@[k]].light is None {
                            let k = choose|k: int|
                                0 <= k < i && #[trigger] keys@[k] == d
                                    && self.chunks@[keys@[k]].light is None;
                            assert(keys@[k] == d);
                        }
                        if d == c && bare {
                            assert(keys@[i as int] == d);
                        }
                    }
                }
                i = i + 1;
            }
            proof {
                assert forall|c: ChunkCoord| #[trigger] self.light.worklist@.contains(c) == (
                base.contains(c) || (self.chunks@.contains_key(c)
                    && self.chunks@[c].light is None)) by {
                    assert(keys@.contains(c) == self.chunks@.contains_key(c));
                    if self.chunks@.contains_key(c) && self.chunks@[c].light is None {
                        let k = choose|k: int| 0 <= k < keys@.len() && keys@[k] == c;
                        assert(keys@[k] == c);
                    }
                }
            }
            let listed = self.light.worklist.members();
            if listed.len() > 0 {
                assert(listed@.contains(listed@[0]));
                self.light.pending = true;
                assert(self.light.worklist@.contains(listed@[0]));
            } else {
                assert forall|c: ChunkCoord| !#[trigger] self.light.worklist@.contains(c) by {
                    assert(!listed@.contains(c));
                }
            }
        }
        proof {
            let (before, after) = (*old(self), *self);
            assert(darkened(
                before.chunks@,
                after.chunks@,
                |c: ChunkCoord| !on && unsettled(before.light, c),
            ));
            assert(after.light.pending == exists|c: ChunkCoord| #[trigger]
                after.light.worklist@.contains(c));
        }
        true
    }
}

fn queued_coords(q: &Vec<(ChunkCoord, LightGrid)>) -> (out: Vec<ChunkCoord>)
    ensures
        forall|c: ChunkCoord| #[trigger] out@.contains(c) == queued(q@, c),
{
    let mut out: Vec<ChunkCoord> = Vec::with_capacity(q.len());
    let mut i: usize = 0;
    while i < q.len()
        invariant
            i <= q@.len(),
            out@.len() == i,
            forall|k: int| 0 <= k < i ==> #[trigger] out@[k] == q@[k].0,
        decreases q@.len() - i,
    {
        out.push(q[i].0);
        i = i + 1;
    }
    proof {
        assert forall|c: ChunkCoord| #[trigger] out@.contains(c) == queued(q@, c) by {
            if out@.contains(c) {
                let k = choose|k: int| 0 <= k < out@.len() && out@[k] == c;
                assert(q@[k].0 == c);
            }
            if queued(q@, c) {
                let k = choose|k: int| 0 <= k < q@.len() && (#[trigger] q@[k]).0 == c;
                assert(out@[k] == c);
            }
        }
    }
    out
}

/// A chunk whose mesh is dropped.
pub open spec fn unmeshed(l: Loaded) -> Loaded {
    Loaded { rev: l.rev.wrapping_add(1), state: MeshState::NeedsMesh, mesh: None, ..l }
}

/// The handles of the meshes of the first `n` rows: one for each row that has a mesh,
/// in row order.
pub open spec fn handles(rows: Seq<(ChunkCoord, Loaded)>, n: int) -> Seq<u64>
    decreases n,
{
    if n <= 0 {
        Seq::empty()
    } else {
        match rows[n - 1].1.mesh {
            Some(h) => handles(rows, n - 1).push(h),
            None => handles(rows, n - 1),
        }
    }
}

/// The handles of all meshes, in row order.
pub open spec fn all_handles(w: World) -> Seq<u64> {
    handles(w.chunks.rows_spec(), w.chunks.rows_spec().len() as int)
}

/// Whether far-field marks are kept but for which sections are to be meshed again.
pub open spec fn undirtied(before: SectionMarks, after: SectionMarks) -> bool {
    &&& after.wf()
    &&& forall|p: SectionPos| !#[trigger] after.is_dirty(p)
    &&& forall|p: SectionPos| #[trigger] after.is_stale(p) == before.is_stale(p)
    &&& forall|p: SectionPos| #[trigger] after.rev_of(p) == before.rev_of(p)
    &&& forall|p: SectionPos, d: ChunkCoord| #[trigger]
        after.holds_chunk(p, d) == before.holds_chunk(p, d)
}

/// Whether the far field may change: it is switched, or its ladder is another one.
pub open spec fn ladder_changed(s: SectionWork, unit: i32, levels: u8, detail: u8) -> bool {
    s.pyramid.levels != levels || s.pyramid.finest != detail || s.pyramid.unit != unit
}

impl World {
    /// Whether `after` is `before` without meshes: every chunk needs one, and meshes
    /// built from what was there are dropped.
    pub open spec fn stripped(before: World, after: World) -> bool {
        &&& after.chunks@.dom() == before.chunks@.dom()
        &&& forall|c: ChunkCoord| #[trigger]
            after.chunks@.contains_key(c) ==> after.chunks@[c] == unmeshed(before.chunks@[c])
        &&& after.mesh.dirty@ == Set::<ChunkCoord>::empty()
        &&& !after.mesh.pending_dirty
        &&& forall|c: ChunkCoord| #[trigger]
            after.mesh.fresh@.contains(c) == before.chunks@.contains_key(c)
        &&& after.mesh.pending_fresh
        &&& after.mesh.center is None
        &&& after.mesh.prev_box == before.mesh.prev_box
        &&& after.mesh.radius_shrunk == before.mesh.radius_shrunk
        &&& !after.sections.pending
        &&& undirtied(before.sections.marks, after.sections.marks)
        &&& after == (World {
            chunks: after.chunks,
            mesh: after.mesh,
            sections: SectionWork {
                marks: after.sections.marks,
                pending: false,
                ..before.sections
            },
            ..before
        })
    }

    /// Drops every mesh and has all of them built anew. The answer holds the handles of
    /// the dropped meshes, one for each chunk that had one.
    pub fn free_meshes(&mut self) -> (freed: Vec<u64>)
        requires
            old(self).wf(),
        ensures
            final(self).wf(),
            Self::stripped(*old(self), *final(self)),
            freed@ == all_handles(*old(self)),
    {
        let mut freed: Vec<u64> = Vec::new();
        let keys = self.chunks.keys();
        let mut fresh = ChunkSet::new();
        let ghost old_chunks = self.chunks@;
        let ghost rows = self.chunks.rows_spec();
        let mut i: usize = 0;
        proof {
            self.chunks.lemma_rows();
            assert forall|k: int| 0 <= k < keys@.len() implies old_chunks[#[trigger] keys@[k]]
                == rows[k].1 by {
                lemma_key_row(rows, k);
            }
            assert forall|k: int| 0 <= k < keys@.len() implies old_chunks.contains_key(
                #[trigger] keys@[k],
            ) by {
                assert(keys@.contains(keys@[k]));
            }
        }
        let mut chunks: ChunkMap<Loaded> = ChunkMap::new();
        core::mem::swap(&mut chunks, &mut self.chunks);
        while i < keys.len()
            invariant
                i <= keys@.len(),
                keys@.no_duplicates(),
                chunks.wf(),
                fresh.wf(),
                chunks@.dom() == old_chunks.dom(),
                forall|k: int|
                    0 <= k < keys@.len() ==> old_chunks.contains_key(#[trigger] keys@[k]),
                forall|k: int|
                    0 <= k < i ==> chunks@[#[trigger] keys@[k]] == unmeshed(old_chunks[keys@[k]]),
                forall|k: int|
                    i <= k < keys@.len() ==> chunks@[#[trigger] keys@[k]] == old_chunks[keys@[k]],
                forall|c: ChunkCoord| #[trigger]
                    fresh@.contains(c) == exists|k: int| 0 <= k < i && #[trigger] keys@[k] == c,
                forall|k: int|
                    0 <= k < keys@.len() ==> old_chunks[#[trigger] keys@[k]] == rows[k].1,
                freed@ == handles(rows, i as int),
            decreases keys@.len() - i,
        {
            let c = keys[i];
            assert(old_chunks.contains_key(keys@[i as int]));
            let ghost before = chunks@;
            let ghost fresh0 = fresh@;
            fresh.insert(c);
            match chunks.remove(c) {
                Some(l) => {
                    let mut l = l;
                    l.rev = l.rev.wrapping_add(1);
                    l.state = MeshState::NeedsMesh;
                    if let Some(h) = l.mesh {
                        freed.push(h);
                    }
                    l.mesh = None;
                    chunks.insert(c, l);
                },
                None => {},
            }
            proof {
                assert(chunks@ =~= before.insert(c, unmeshed(old_chunks[c])));
                assert(chunks@.dom() =~= old_chunks.dom());
                assert forall|k: int| 0 <= k < i + 1 implies chunks@[#[trigger] keys@[k]]
                    == unmeshed(old_chunks[keys@[k]]) by {
                    if k < i {
                        assert(keys@[k] != keys@[i as int]);
                    }
                }
                assert forall|k: int| i + 1 <= k < keys@.len() implies chunks@[#[trigger] keys@[k]]
                    == old_chunks[keys@[k]] by {
                    assert(keys@[k] != keys@[i as int]);
                }
                assert forall|d: ChunkCoord| #[trigger] fresh@.contains(d) == exists|k: int|
                    0 <= k < i + 1 && #[trigger] keys@[k] == d by {
                    if fresh0.contains(d) {
                        let k = choose|k: int| 0 <= k < i && #[trigger] keys@[k] == d;
                        assert(keys@[k] == d);
                    }
                    if d == c {
                        assert(keys@[i as int] == d);
                    }
                }
            }
            i = i + 1;
        }
        self.chunks = chunks;
        self.mesh.dirty.clear();
        self.mesh.pending_dirty = false;
        self.mesh.fresh = fresh;
        self.mesh.pending_fresh = true;
        self.mesh.center = None;
        self.sections.pending = false;
        self.sections.marks.clear_dirty();
        proof {
            assert forall|c: ChunkCoord| #[trigger] self.chunks@.contains_key(
                c,
            ) implies self.chunks@[c] == unmeshed(old_chunks[c]) by {
                assert(keys@.contains(c) == old_chunks.contains_key(c));
                let k = choose|k: int| 0 <= k < keys@.len() && keys@[k] == c;
                assert(keys@[k] == c);
            }
            assert forall|c: ChunkCoord| #[trigger] self.mesh.fresh@.contains(c)
                == old_chunks.contains_key(c) by {
                assert(keys@.contains(c) == old_chunks.contains_key(c));
                if old_chunks.contains_key(c) {
                    let k = choose|k: int| 0 <= k < keys@.len() && keys@[k] == c;
                    assert(keys@[k] == c);
                }
            }
        }
        freed
    }

    /// Turns lighting on or off; a change drops every mesh.
    pub fn set_lighting(&mut self, on: bool) -> (freed: Vec<u64>)
        requires
            old(self).wf(),
        ensures
            final(self).wf(),
            on == old(self).lighting ==> *final(self) == *old(self) && freed@.len() == 0,
            on != old(self).lighting ==> exists|mid: World| #[trigger]
                Self::relit(*old(self), mid, on) && Self::stripped(mid, *final(self)) && freed@
                    == all_handles(mid),
    {
        if !self.transition_lighting(on) {
            return Vec::new();
        }
        self.free_meshes()
    }

    /// Turns baked corner shade on or off; a change drops every mesh.
    pub fn set_ao(&mut self, on: bool) -> (freed: Vec<u64>)
        requires
            old(self).wf(),
        ensures
            final(self).wf(),
            on == old(self).ao ==> *final(self) == *old(self) && freed@.len() == 0,
            on != old(self).ao ==> Self::stripped(
                World {
                    ao: on,
                    tables_epoch: old(self).tables_epoch.wrapping_add(1),
                    ..*old(self)
                },
                *final(self),
            ) && freed@ == all_handles(*old(self)),
    {
        if on == self.ao {
            return Vec::new();
        }
        self.ao = on;
        self.tables_epoch = self.tables_epoch.wrapping_add(1);
        self.free_meshes()
    }

    /// Retires the far field's work: results of jobs from before are never taken.
    pub fn clear_section_lane(&mut self)
        requires
            old(self).wf(),
        ensures
            final(self).wf(),
            undirtied(old(self).sections.marks, final(self).sections.marks),
            *final(self) == (World {
                sections: SectionWork {
                    epoch: old(self).sections.epoch.wrapping_add(1),
                    pending: false,
                    marks: final(self).sections.marks,
                    ..old(self).sections
                },
                ..*old(self)
            }),
    {
        self.sections.epoch = self.sections.epoch.wrapping_add(1);
        self.sections.pending = false;
        self.sections.marks.clear_dirty();
    }

    /// Whether the far field is to be rebuilt for a ladder.
    pub fn section_pyramid_changed(&self, unit: i32, levels: u8, detail: u8) -> (b: bool)
        ensures
            b == ladder_changed(self.sections, unit, levels, detail),
    {
        self.sections.pyramid.levels != levels || self.sections.pyramid.finest as i32
            != detail as i32 || self.sections.pyramid.unit != unit
    }

    /// Whether the far field is to be retired: it is switched, or its ladder is another.
    pub fn section_config_changed(&self, lod2: bool, unit: i32, levels: u8, detail: u8) -> (b: bool)
        ensures
            b == (self.sections.lod2 != lod2 || ladder_changed(
                self.sections,
                unit,
                levels,
                detail,
            )),
    {
        self.sections.lod2 != lod2 || self.section_pyramid_changed(unit, levels, detail)
    }

    /// Applies the world's part of the render settings. The answer is `None` where the
    /// far field stays, else whether its relief is to be baked anew; its old meshes are
    /// then to be freed.
    pub fn set_render_config(
        &mut self,
        occlusion: bool,
        lod2: bool,
        unit: i32,
        levels: u8,
        detail: u8,
    ) -> (retired: Option<bool>)
        requires
            old(self).wf(),
            detail <= 127,
        ensures
            final(self).wf(),
            ({
                let s = old(self).sections;
                let switched = old(self).occlusion.forced != occlusion;
                let ladder = ladder_changed(s, unit, levels, detail);
                let retire = s.lod2 != lod2 || ladder;
                &&& retired == if retire {
                    Some(ladder)
                } else {
                    None
                }
                &&& final(self).occlusion == (OcclusionWork {
                    forced: occlusion,
                    dirty: old(self).occlusion.dirty || switched,
                    active: old(self).occlusion.active && !(switched && !occlusion),
                    ..old(self).occlusion
                })
                &&& !retire ==> final(self).sections == s
                &&& retire ==> {
                    &&& undirtied(s.marks, final(self).sections.marks)
                    &&& final(self).sections == (SectionWork {
                        lod2,
                        epoch: s.epoch.wrapping_add(1),
                        pyramid: PyramidCfg { unit, levels, finest: detail as i8 },
                        pending: lod2,
                        marks: final(self).sections.marks,
                        ..s
                    })
                }
                &&& *final(self) == (World {
                    occlusion: final(self).occlusion,
                    sections: final(self).sections,
                    ..*old(self)
                })
            }),
    {
        if self.occlusion.forced != occlusion {
            self.occlusion.forced = occlusion;
            self.occlusion.dirty = true;
            if !occlusion {
                self.occlusion.active = false;
            }
        }
        if !self.section_config_changed(lod2, unit, levels, detail) {
            return None;
        }
        let ladder: bool = self.section_pyramid_changed(unit, levels, detail);
        self.clear_section_lane();
        self.sections.lod2 = lod2;
        self.sections.pyramid = PyramidCfg { unit, levels, finest: detail as i8 };
        if lod2 {
            self.sections.pending = true;
        }
        Some(ladder)
    }
}

/// Switching light off and on again loses no chunk and no block: every chunk keeps the light
/// it had or waits for new light.
pub proof fn lemma_switching_light_back(a: World, b: World, c: World, at: ChunkCoord)
    requires
        World::relit(a, b, false),
        World::relit(b, c, true),
        a.chunks@.contains_key(at),
    ensures
        c.lighting,
        c.chunks@.contains_key(at),
        c.chunks@[at].chunk == a.chunks@[at].chunk,
        c.chunks@[at].mesh == a.chunks@[at].mesh,
        c.chunks@[at].light == a.chunks@[at].light || c.chunks@[at].light is None,
        c.chunks@[at].light is None ==> c.light.worklist@.contains(at) && c.light.pending,
        !b.light.worklist@.contains(at),
        !b.light.pending,
{
    assert(b.chunks@.contains_key(at));
    assert(c.chunks@.contains_key(at));
    assert(c.light.worklist@.contains(at) == (b.light.worklist@.contains(at) || (
    b.chunks@.contains_key(at) && b.chunks@[at].light is None)));
    assert(!b.light.worklist@.contains(at));
}

/// Switching light off takes the light of the chunks whose light was still being worked out,
/// and of no other; switching it on takes none.
pub proof fn lemma_settled_light_stays(a: World, b: World, on: bool, at: ChunkCoord)
    requires
        World::relit(a, b, on),
        a.chunks@.contains_key(at),
    ensures
        b.chunks@.contains_key(at),
        on ==> b.chunks@[at] == a.chunks@[at],
        !a.light.worklist@.contains(at) && !a.light.inflight@.contains(at) && (forall|i: int|
            0 <= i < a.light.apply_queue@.len() ==> (#[trigger] a.light.apply_queue@[i]).0 != at)
            ==> b.chunks@[at] == a.chunks@[at],
        !on && (a.light.worklist@.contains(at) || a.light.inflight@.contains(at))
            ==> b.chunks@[at].light is None,
        !b.light.inflight@.contains(at),
{
    assert(b.chunks@.contains_key(at));
}

proof fn lemma_handles_of_rows(rows: Seq<(ChunkCoord, Loaded)>, n: int, h: u64)
    requires
        0 <= n <= rows.len(),
    ensures
        handles(rows, n).contains(h) <==> exists|i: int|
            0 <= i < n && (#[trigger] rows[i]).1.mesh == Some(h),
    decreases n,
{
    if n > 0 {
        lemma_handles_of_rows(rows, n - 1, h);
        let t = handles(rows, n - 1);
        match rows[n - 1].1.mesh {
            Some(g) => {
                let u = t.push(g);
                assert(u[t.len() as int] == g);
                if t.contains(h) {
                    let k = choose|k: int| 0 <= k < t.len() && t[k] == h;
                    assert(u[k] == h);
                }
                if u.contains(h) {
                    let k = choose|k: int| 0 <= k < u.len() && u[k] == h;
                    if k < t.len() {
                        assert(t[k] == h);
                    } else {
                        assert(rows[n - 1].1.mesh == Some(h));
                    }
                }
            },
            None => {},
        }
    }
}

/// Freeing meshes hands out every mesh that a chunk held and no other, leaves no chunk with
/// one, and has every loaded chunk meshed anew, with its blocks and light as they were.
pub proof fn lemma_meshes_are_freed(a: World, b: World, at: ChunkCoord, h: u64)
    requires
        a.wf(),
        World::stripped(a, b),
    ensures
        a.chunks@.contains_key(at) && a.chunks@[at].mesh == Some(h) ==> all_handles(a).contains(h),
        all_handles(a).contains(h) ==> exists|c: ChunkCoord|
            a.chunks@.contains_key(c) && (#[trigger] a.chunks@[c]).mesh == Some(h),
        a.chunks@.contains_key(at) ==> {
            &&& b.chunks@.contains_key(at)
            &&& b.chunks@[at].mesh is None
            &&& b.chunks@[at].chunk == a.chunks@[at].chunk
            &&& b.chunks@[at].light == a.chunks@[at].light
            &&& b.chunks@[at].rev != a.chunks@[at].rev
            &&& b.mesh.fresh@.contains(at)
        },
{
    let rows = a.chunks.rows_spec();
    a.chunks.lemma_rows();
    lemma_handles_of_rows(rows, rows.len() as int, h);
    if a.chunks@.contains_key(at) {
        assert(b.chunks@.contains_key(at));
        assert(has_key(rows, at));
        let i = key_row(rows, at);
        assert(0 <= i < rows.len() && rows[i].0 == at);
        assert(a.chunks@[at] == rows[i].1);
        assert(b.mesh.fresh@.contains(at));
    }
    if all_handles(a).contains(h) {
        let i = choose|i: int| 0 <= i < rows.len() && (#[trigger] rows[i]).1.mesh == Some(h);
        let c = rows[i].0;
        assert(has_key(rows, c));
        lemma_key_row(rows, i);
        assert(a.chunks@[c].mesh == Some(h));
    }
}

} // verus!
