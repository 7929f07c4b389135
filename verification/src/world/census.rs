//! How many bytes of main memory a world's contents take.
use vstd::prelude::*;

use crate::coord::ChunkCoord;
use crate::world::brick::{ChunkPayload, PayloadView};
use crate::world::chunk::{Chunk, CHUNK_VOLUME};
use crate::world::edits::{Loaded, World};
use crate::world::light::LightGrid;

verus! {

/// Bytes of one block state.
pub const BLOCK_STATE_BYTES: usize = 4;

/// Bytes of one cell's light.
pub const LUMEL_BYTES: usize = 2;

/// Bytes by what holds them. The total is the sum of all byte counts.
#[derive(Clone, Copy, PartialEq, Eq, Debug, Structural)]
pub struct MemoryCensus {
    pub chunk_uniform_bytes: usize,
    pub chunk_uniform_count: usize,
    pub chunk_paletted_bytes: usize,
    pub chunk_paletted_count: usize,
    pub chunk_dense_bytes: usize,
    pub chunk_dense_count: usize,
    pub light_uniform_bytes: usize,
    pub light_uniform_count: usize,
    pub light_cells_bytes: usize,
    pub light_cells_count: usize,
    pub mesh_cpu_bytes: usize,
    pub edit_overlay_bytes: usize,
    pub section_lod_bytes: usize,
    pub worklist_bytes: usize,
    pub total: usize,
}

/// Bytes that the world's containers hold beside chunks and light.
#[derive(Clone, Copy, PartialEq, Eq, Debug, Structural)]
pub struct HeldBytes {
    pub mesh_cpu: usize,
    pub edit_overlay: usize,
    pub section_lod: usize,
    pub worklist: usize,
}

/// Counts and bytes of chunks and light, in the order of [`MemoryCensus`].
pub struct Tally {
    pub uniform: (int, int),
    pub paletted: (int, int),
    pub dense: (int, int),
    pub flat: (int, int),
    pub cells: (int, int),
}

impl Tally {
    pub open spec fn none() -> Tally {
        Tally {
            uniform: (0, 0),
            paletted: (0, 0),
            dense: (0, 0),
            flat: (0, 0),
            cells: (0, 0),
        }
    }

    /// All bytes.
    pub open spec fn bytes(self) -> int {
        self.uniform.1 + self.paletted.1 + self.dense.1 + self.flat.1 + self.cells.1
    }

    /// Whether no count is negative.
    pub open spec fn wf(self) -> bool {
        &&& self.uniform.0 >= 0 && self.uniform.1 >= 0
        &&& self.paletted.0 >= 0 && self.paletted.1 >= 0
        &&& self.dense.0 >= 0 && self.dense.1 >= 0
        &&& self.flat.0 >= 0 && self.flat.1 >= 0
        &&& self.cells.0 >= 0 && self.cells.1 >= 0
    }
}

/// One more of some bytes.
pub open spec fn one_more(p: (int, int), bytes: int) -> (int, int) {
    (p.0 + 1, p.1 + bytes)
}

/// A tally with one more chunk.
pub open spec fn with_chunk(t: Tally, p: PayloadView) -> Tally {
    match p {
        PayloadView::Uniform(_) => Tally { uniform: one_more(t.uniform, 4), ..t },
        PayloadView::Paletted { palette, cells } => Tally {
            paletted: one_more(t.paletted, palette.len() as int * 4 + cells.len()),
            ..t
        },
        PayloadView::Dense(cells) => Tally { dense: one_more(t.dense, cells.len() as int * 4), ..t },
        _ => t,
    }
}

/// A tally with one more light grid.
pub open spec fn with_light(t: Tally, g: LightGrid) -> Tally {
    if g.flat() is Some {
        Tally { flat: one_more(t.flat, 2), ..t }
    } else {
        Tally { cells: one_more(t.cells, 2 * CHUNK_VOLUME as int), ..t }
    }
}

/// The tally of the first `n` loaded chunks.
pub open spec fn tally_chunks(rows: Seq<(ChunkCoord, Loaded)>, n: int) -> Tally
    decreases n,
{
    if n <= 0 {
        Tally::none()
    } else {
        let t = with_chunk(tally_chunks(rows, n - 1), rows[n - 1].1.chunk.payload());
        match rows[n - 1].1.light {
            Some(g) => with_light(t, g),
            None => t,
        }
    }
}

/// A tally with the first `n` grids of a queue.
pub open spec fn tally_queue(t: Tally, q: Seq<(ChunkCoord, LightGrid)>, n: int) -> Tally
    decreases n,
{
    if n <= 0 {
        t
    } else {
        with_light(tally_queue(t, q, n - 1), q[n - 1].1)
    }
}

/// The tally of a world.
pub open spec fn tally_of(w: World) -> Tally {
    let rows = w.chunks.rows_spec();
    let q = w.light.apply_queue@;
    tally_queue(tally_chunks(rows, rows.len() as int), q, q.len() as int)
}

impl MemoryCensus {
    /// Whether the census holds a tally.
    pub open spec fn holds(self, t: Tally) -> bool {
        &&& (self.chunk_uniform_count as int, self.chunk_uniform_bytes as int) == t.uniform
        &&& (self.chunk_paletted_count as int, self.chunk_paletted_bytes as int) == t.paletted
        &&& (self.chunk_dense_count as int, self.chunk_dense_bytes as int) == t.dense
        &&& (self.light_uniform_count as int, self.light_uniform_bytes as int) == t.flat
        &&& (self.light_cells_count as int, self.light_cells_bytes as int) == t.cells
    }

    /// Whether this is the census of a world whose containers hold `held` beside chunks
    /// and light.
    pub open spec fn is_of(self, w: World, held: HeldBytes) -> bool {
        &&& self.holds(tally_of(w))
        &&& self.mesh_cpu_bytes == held.mesh_cpu
        &&& self.edit_overlay_bytes == held.edit_overlay
        &&& self.section_lod_bytes == held.section_lod
        &&& self.worklist_bytes == held.worklist
        &&& self.total == tally_of(w).bytes() + held.mesh_cpu + held.edit_overlay
            + held.section_lod + held.worklist
    }

    fn empty() -> (c: Self)
        ensures
            c.holds(Tally::none()),
    {
        MemoryCensus {
            chunk_uniform_bytes: 0,
            chunk_uniform_count: 0,
            chunk_paletted_bytes: 0,
            chunk_paletted_count: 0,
            chunk_dense_bytes: 0,
            chunk_dense_count: 0,
            light_uniform_bytes: 0,
            light_uniform_count: 0,
            light_cells_bytes: 0,
            light_cells_count: 0,
            mesh_cpu_bytes: 0,
            edit_overlay_bytes: 0,
            section_lod_bytes: 0,
            worklist_bytes: 0,
            total: 0,
        }
    }

    fn add_chunk_payload(&mut self, chunk: &Chunk, Ghost(t): Ghost<Tally>)
        requires
            chunk.wf(),
            t.wf(),
            old(self).holds(t),
            with_chunk(t, chunk.payload()).bytes() <= usize::MAX,
            with_chunk(t, chunk.payload()).uniform.0 <= usize::MAX,
            with_chunk(t, chunk.payload()).paletted.0 <= usize::MAX,
            with_chunk(t, chunk.payload()).dense.0 <= usize::MAX,
        ensures
            final(self).holds(with_chunk(t, chunk.payload())),
    {
        match &chunk.data().payload {
            ChunkPayload::Uniform(_) => {
                self.chunk_uniform_count = self.chunk_uniform_count + 1;
                self.chunk_uniform_bytes = self.chunk_uniform_bytes + BLOCK_STATE_BYTES;
            },
            ChunkPayload::Paletted { palette, .. } => {
                self.chunk_paletted_count = self.chunk_paletted_count + 1;
                self.chunk_paletted_bytes =
                self.chunk_paletted_bytes + (palette.len() * BLOCK_STATE_BYTES + CHUNK_VOLUME);
            },
            ChunkPayload::Dense(_) => {
                self.chunk_dense_count = self.chunk_dense_count + 1;
                self.chunk_dense_bytes = self.chunk_dense_bytes + CHUNK_VOLUME * BLOCK_STATE_BYTES;
            },
        }
    }

    fn add_light(&mut self, grid: &LightGrid, Ghost(t): Ghost<Tally>)
        requires
            t.wf(),
            old(self).holds(t),
            with_light(t, *grid).bytes() <= usize::MAX,
            with_light(t, *grid).flat.0 <= usize::MAX,
            with_light(t, *grid).cells.0 <= usize::MAX,
        ensures
            final(self).holds(with_light(t, *grid)),
    {
        if grid.is_uniform() {
            self.light_uniform_count = self.light_uniform_count + 1;
            self.light_uniform_bytes = self.light_uniform_bytes + LUMEL_BYTES;
        } else {
            self.light_cells_count = self.light_cells_count + 1;
            self.light_cells_bytes = self.light_cells_bytes + grid.allocated_bytes();
        }
    }
}

/// Every count of a tally is at most its bytes: no entry takes no bytes.
spec fn counts_fit(t: Tally) -> bool {
    &&& t.wf()
    &&& t.uniform.0 <= t.uniform.1
    &&& t.paletted.0 <= t.paletted.1
    &&& t.dense.0 <= t.dense.1
    &&& t.flat.0 <= t.flat.1
    &&& t.cells.0 <= t.cells.1
}

proof fn lemma_tally_chunks(rows: Seq<(ChunkCoord, Loaded)>, n: int)
    requires
        0 <= n <= rows.len(),
        forall|i: int| 0 <= i < rows.len() ==> (#[trigger] rows[i]).1.chunk.wf(),
    ensures
        counts_fit(tally_chunks(rows, n)),
        tally_chunks(rows, n).bytes() <= tally_chunks(rows, rows.len() as int).bytes(),
    decreases rows.len() - n, n,
{
    lemma_counts_chunks(rows, n);
    if n < rows.len() {
        lemma_tally_chunks(rows, n + 1);
        lemma_counts_chunks(rows, n + 1);
        assert(rows[n].1.chunk.wf());
    }
}

proof fn lemma_counts_chunks(rows: Seq<(ChunkCoord, Loaded)>, n: int)
    requires
        0 <= n <= rows.len(),
        forall|i: int| 0 <= i < rows.len() ==> (#[trigger] rows[i]).1.chunk.wf(),
    ensures
        counts_fit(tally_chunks(rows, n)),
    decreases n,
{
    if n > 0 {
        lemma_counts_chunks(rows, n - 1);
        assert(rows[n - 1].1.chunk.wf());
    }
}

proof fn lemma_tally_queue(t: Tally, q: Seq<(ChunkCoord, LightGrid)>, n: int)
    requires
        0 <= n <= q.len(),
        counts_fit(t),
    ensures
        counts_fit(tally_queue(t, q, n)),
        t.bytes() <= tally_queue(t, q, n).bytes() <= tally_queue(t, q, q.len() as int).bytes(),
    decreases q.len() - n,
{
    lemma_counts_queue(t, q, n);
    if n < q.len() {
        lemma_tally_queue(t, q, n + 1);
    }
}

proof fn lemma_counts_queue(t: Tally, q: Seq<(ChunkCoord, LightGrid)>, n: int)
    requires
        0 <= n <= q.len(),
        counts_fit(t),
    ensures
        counts_fit(tally_queue(t, q, n)),
        t.bytes() <= tally_queue(t, q, n).bytes(),
    decreases n,
{
    if n > 0 {
        lemma_counts_queue(t, q, n - 1);
    }
}

proof fn lemma_chunk_counts(rows: Seq<(ChunkCoord, Loaded)>, n: int)
    requires
        0 <= n <= rows.len(),
        forall|i: int| 0 <= i < rows.len() ==> (#[trigger] rows[i]).1.chunk.wf(),
    ensures
        ({
            let t = tally_chunks(rows, n);
            t.uniform.0 + t.paletted.0 + t.dense.0 == n
        }),
    decreases n,
{
    if n > 0 {
        lemma_chunk_counts(rows, n - 1);
        assert(rows[n - 1].1.chunk.wf());
    }
}

proof fn lemma_queue_counts(t: Tally, q: Seq<(ChunkCoord, LightGrid)>, n: int)
    ensures
        tally_queue(t, q, n).uniform == t.uniform,
        tally_queue(t, q, n).paletted == t.paletted,
        tally_queue(t, q, n).dense == t.dense,
    decreases n,
{
    if n > 0 {
        lemma_queue_counts(t, q, n - 1);
    }
}

/// The total of a census is the sum of its byte counts, and its chunk counts add up to
/// the loaded chunks.
pub proof fn lemma_census_adds_up(w: World, held: HeldBytes, c: MemoryCensus)
    requires
        w.wf(),
        c.is_of(w, held),
    ensures
        c.total == c.chunk_uniform_bytes + c.chunk_paletted_bytes + c.chunk_dense_bytes
            + c.light_uniform_bytes + c.light_cells_bytes + c.mesh_cpu_bytes
            + c.edit_overlay_bytes + c.section_lod_bytes + c.worklist_bytes,
        c.chunk_uniform_count + c.chunk_paletted_count + c.chunk_dense_count
            == w.chunks@.dom().len(),
{
    let rows = w.chunks.rows_spec();
    let q = w.light.apply_queue@;
    w.chunks.lemma_rows();
    assert forall|i: int| 0 <= i < rows.len() implies (#[trigger] rows[i]).1.chunk.wf() by {
        crate::world::chunk_map::lemma_key_row(rows, i);
        assert(w.chunks@.contains_key(rows[i].0));
    }
    lemma_chunk_counts(rows, rows.len() as int);
    lemma_queue_counts(tally_chunks(rows, rows.len() as int), q, q.len() as int);
}

/// Two censuses of an unchanged world are equal.
pub proof fn lemma_census_is_stable(w: World, held: HeldBytes, a: MemoryCensus, b: MemoryCensus)
    requires
        a.is_of(w, held),
        b.is_of(w, held),
    ensures
        a == b,
{
}

impl World {
    /// Counts the bytes of loaded chunks and light. `held` are those that the world's
    /// containers hold beside them.
    pub fn memory_census(&self, held: HeldBytes) -> (c: MemoryCensus)
        requires
            self.wf(),
            tally_of(*self).bytes() + held.mesh_cpu + held.edit_overlay + held.section_lod
                + held.worklist <= usize::MAX,
        ensures
            c.is_of(*self, held),
    {
        let mut c = MemoryCensus::empty();
        let ghost rows = self.chunks.rows_spec();
        let ghost q = self.light.apply_queue@;
        let ghost all = tally_chunks(rows, rows.len() as int);
        proof {
            self.chunks.lemma_rows();
            assert forall|i: int| 0 <= i < rows.len() implies (#[trigger] rows[i]).1.chunk.wf() by {
                crate::world::chunk_map::lemma_key_row(rows, i);
                assert(self.chunks@.contains_key(rows[i].0));
            }
            lemma_tally_chunks(rows, rows.len() as int);
            lemma_tally_queue(all, q, q.len() as int);
            lemma_tally_queue(all, q, 0);
        }
        let mut i: usize = 0;
        while i < self.chunks.len()
            invariant
                rows == self.chunks.rows_spec(),
                i <= rows.len(),
                all == tally_chunks(rows, rows.len() as int),
                all.bytes() <= usize::MAX,
                forall|k: int| 0 <= k < rows.len() ==> (#[trigger] rows[k]).1.chunk.wf(),
                c.holds(tally_chunks(rows, i as int)),
            decreases rows.len() - i,
        {
            let l = self.chunks.nth(i);
            let ghost t = tally_chunks(rows, i as int);
            proof {
                lemma_tally_chunks(rows, i as int);
                lemma_tally_chunks(rows, i + 1);
                assert(rows[i as int].1.chunk.wf());
            }
            c.add_chunk_payload(&l.chunk, Ghost(t));
            if let Some(grid) = &l.light {
                c.add_light(grid, Ghost(with_chunk(t, l.chunk.payload())));
            }
            i = i + 1;
        }
        let mut k: usize = 0;
        while k < self.light.apply_queue.len()
            invariant
                q == self.light.apply_queue@,
                k <= q.len(),
                counts_fit(all),
                tally_queue(all, q, q.len() as int).bytes() <= usize::MAX,
                c.holds(tally_queue(all, q, k as int)),
            decreases q.len() - k,
        {
            proof {
                lemma_tally_queue(all, q, k as int);
                lemma_tally_queue(all, q, k + 1);
            }
            c.add_light(&self.light.apply_queue[k].1, Ghost(tally_queue(all, q, k as int)));
            k = k + 1;
        }
        c.mesh_cpu_bytes = held.mesh_cpu;
        c.edit_overlay_bytes = held.edit_overlay;
        c.section_lod_bytes = held.section_lod;
        c.worklist_bytes = held.worklist;
        c.total = c.chunk_uniform_bytes + c.chunk_paletted_bytes + c.chunk_dense_bytes
            + c.light_uniform_bytes + c.light_cells_bytes + c.mesh_cpu_bytes + c.edit_overlay_bytes
            + c.section_lod_bytes + c.worklist_bytes;
        c
    }
}

/// Every loaded chunk that is not in runs is counted once, under its form, and every lit one
/// once, under the form of its light: with one more chunk, one of the chunk counts grows by
/// one and, where it is lit, one of the light counts.
pub proof fn lemma_chunks_are_counted_once(rows: Seq<(ChunkCoord, Loaded)>, n: int)
    requires
        0 <= n < rows.len(),
    ensures
        ({
            let (t, u) = (tally_chunks(rows, n), tally_chunks(rows, n + 1));
            let l = rows[n].1;
            let chunks = |t: Tally| t.uniform.0 + t.paletted.0 + t.dense.0;
            let lights = |t: Tally| t.flat.0 + t.cells.0;
            &&& !(l.chunk.payload() is Rle) ==> chunks(u) == chunks(t) + 1
            &&& l.chunk.payload() is Uniform ==> u.uniform == (t.uniform.0 + 1, t.uniform.1 + 4)
            &&& l.chunk.payload() matches PayloadView::Dense(cells) ==> u.dense == (
                t.dense.0 + 1,
                t.dense.1 + 4 * cells.len(),
            )
            &&& l.light is Some ==> lights(u) == lights(t) + 1
            &&& l.light is None ==> lights(u) == lights(t) && u.flat == t.flat && u.cells == t.cells
            &&& l.light is Some && l.light->0.flat() is None ==> u.cells.1 == t.cells.1 + 8192
            &&& u.bytes() >= t.bytes()
        }),
{
}

} // verus!
