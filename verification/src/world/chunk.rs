//! Chunks: editable 16-cube regions of the world, stored as bricks.
//!
//! [`ChunkData`] is the vocabulary of generators; a [`Chunk`] stores a
//! [`Brick`] and keeps it as compact as its contents allow.
use vstd::prelude::*;

use crate::bits::{fill_bits, set_bit, word_bit};
use crate::block::{BlockId, BlockState, Detail, HotTables, Rev};
use crate::world::brick::{
    all_equal, cell_index_spec, dedup, lemma_dedup, lemma_dedup_prefix, palette_indices,
    palette_position, Brick, ChunkPayload, PALETTE_MAX, PayloadView,
};

verus! {

/// Chunk edge length along every world axis.
pub const CHUNK_SIZE: usize = 16;

/// Cells per chunk.
pub const CHUNK_VOLUME: usize = 4096;

/// The stored form of a block: no state bits.
pub open spec fn widen_spec(id: BlockId) -> BlockState {
    BlockState { id, state: 0 }
}

/// A block with no state bits.
pub fn widen(id: BlockId) -> (s: BlockState)
    ensures
        s == widen_spec(id),
{
    BlockState { id, state: 0 }
}

/// Generated contents of a chunk, by block id.
#[derive(Clone, PartialEq, Debug)]
pub enum ChunkData {
    /// Every cell is this block.
    Uniform(BlockId),
    /// One palette index per cell.
    Paletted { palette: Vec<BlockId>, cells: Box<[u8; CHUNK_VOLUME]> },
    /// One block id per cell, for more than [`PALETTE_MAX`] distinct blocks.
    Dense(Box<[BlockId; CHUNK_VOLUME]>),
}

impl ChunkData {
    /// Whether every palette index names a palette entry.
    pub open spec fn wf(self) -> bool {
        match self {
            ChunkData::Uniform(_) => true,
            ChunkData::Paletted { palette, cells } => {
                &&& 1 <= palette@.len() <= PALETTE_MAX
                &&& forall|i: int| 0 <= i < CHUNK_VOLUME ==> #[trigger] cells@[i] < palette@.len()
            },
            ChunkData::Dense(_) => true,
        }
    }

    /// The block in cell `i`.
    pub open spec fn cell(self, i: int) -> BlockId {
        match self {
            ChunkData::Uniform(id) => id,
            ChunkData::Paletted { palette, cells } => palette@[cells@[i] as int],
            ChunkData::Dense(cells) => cells@[i],
        }
    }

    /// All cells in flat index order.
    pub open spec fn view(self) -> Seq<BlockId> {
        Seq::new(CHUNK_VOLUME as nat, |i: int| self.cell(i))
    }

    /// Whether this is the one cheapest form of `cells`: uniform where all agree;
    /// else palette-indexed in order of first appearance while the palette has at
    /// most `PALETTE_MAX` entries; else dense.
    pub open spec fn cheapest(self, cells: Seq<BlockId>) -> bool {
        &&& self.wf()
        &&& self@ == cells
        &&& match self {
            ChunkData::Uniform(id) => all_equal(cells) && id == cells[0],
            ChunkData::Paletted { palette, cells: indices } => !all_equal(cells) && palette@
                == dedup(cells) && palette@.len() <= PALETTE_MAX && indices@ == palette_indices(
                palette@,
                cells,
            ),
            ChunkData::Dense(dense) => !all_equal(cells) && dedup(cells).len() > PALETTE_MAX
                && dense@ == cells,
        }
    }
}

/// Data of one block is the cheapest form of cells that all hold it.
pub proof fn lemma_uniform_is_cheapest(data: ChunkData, cells: Seq<BlockId>)
    requires
        data is Uniform,
        data@ == cells,
    ensures
        data.cheapest(cells),
{
    assert forall|i: int| 0 <= i < cells.len() implies #[trigger] cells[i] == cells[0] by {
        assert(data@[i] == data@[0]);
    }
    assert(data@[0] == data.cell(0));
}

/// The first position of `id` in `palette`, if it occurs.
fn id_position(palette: &Vec<BlockId>, id: BlockId) -> (r: Option<usize>)
    ensures
        match r {
            Some(k) => k < palette@.len() && palette@[k as int] == id,
            None => !palette@.contains(id),
        },
{
    let mut k: usize = 0;
    while k < palette.len()
        invariant
            k <= palette@.len(),
            forall|j: int| 0 <= j < k ==> #[trigger] palette@[j] != id,
        decreases palette@.len() - k,
    {
        if palette[k] == id {
            return Some(k);
        }
        k = k + 1;
    }
    None
}

/// Whether all cells hold the same block.
fn same_ids(cells: &[BlockId; CHUNK_VOLUME]) -> (b: bool)
    ensures
        b == all_equal(cells@),
{
    let first: BlockId = cells[0];
    let mut i: usize = 0;
    while i < CHUNK_VOLUME
        invariant
            i <= CHUNK_VOLUME,
            cells@.len() == CHUNK_VOLUME,
            first == cells@[0],
            forall|j: int| 0 <= j < i ==> #[trigger] cells@[j] == first,
        decreases CHUNK_VOLUME - i,
    {
        if cells[i] != first {
            return false;
        }
        i = i + 1;
    }
    true
}

impl ChunkData {
    /// The cheapest form of `cells`: uniform where all agree, else
    /// palette-indexed in order of first appearance, else dense.
    pub fn from_cells(cells: Box<[BlockId; CHUNK_VOLUME]>) -> (r: ChunkData)
        ensures
            r.cheapest(cells@),
    {
        let first: BlockId = cells[0];
        if same_ids(&cells) {
            let r = ChunkData::Uniform(first);
            assert(r@ =~= cells@);
            return r;
        }
        let mut palette: Vec<BlockId> = Vec::with_capacity(8);
        let mut out: Box<[u8; CHUNK_VOLUME]> = Box::new([0u8; CHUNK_VOLUME]);
        palette.push(first);
        let mut last_id: BlockId = first;
        let mut last_slot: u8 = 0;
        let mut i: usize = 0;
        proof {
            reveal_with_fuel(dedup, 2);
            assert(cells@.take(1).drop_last() =~= Seq::<BlockId>::empty());
            assert(palette@ =~= dedup(cells@.take(1)));
        }
        while i < CHUNK_VOLUME
            invariant
                i <= CHUNK_VOLUME,
                cells@.len() == CHUNK_VOLUME,
                first == cells@[0],
                !all_equal(cells@),
                i == 0 ==> palette@ == dedup(cells@.take(1)),
                i > 0 ==> palette@ == dedup(cells@.take(i as int)),
                1 <= palette@.len() <= PALETTE_MAX,
                i == 0 ==> last_id == first,
                last_slot < palette@.len(),
                palette@[last_slot as int] == last_id,
                forall|j: int|
                    0 <= j < i ==> (#[trigger] out@[j]) < palette@.len() && palette@[out@[j] as int]
                        == cells@[j],
            decreases CHUNK_VOLUME - i,
        {
            let id: BlockId = cells[i];
            proof {
                assert(cells@.take(i + 1).drop_last() =~= cells@.take(i as int));
                assert(cells@.take(i + 1).last() == id);
                lemma_dedup(cells@.take(i as int));
            }
            if id != last_id {
                match id_position(&palette, id) {
                    Some(k) => {
                        last_slot = k as u8;
                        assert(palette@.contains(id));
                    },
                    None => {
                        if palette.len() == PALETTE_MAX {
                            proof {
                                lemma_dedup_prefix(cells@, i + 1);
                            }
                            let r = ChunkData::Dense(cells);
                            assert(r@ =~= cells@);
                            return r;
                        }
                        palette.push(id);
                        last_slot = (palette.len() - 1) as u8;
                    },
                }
                last_id = id;
            } else {
                assert(palette@.contains(id));
            }
            out[i] = last_slot;
            i = i + 1;
        }
        proof {
            assert(cells@.take(i as int) =~= cells@);
            lemma_dedup(cells@);
            assert forall|j: int| 0 <= j < CHUNK_VOLUME implies out@[j] == #[trigger] (
            palette_indices(palette@, cells@)[j]) by {
                assert(palette@[out@[j] as int] == cells@[j]);
                assert(palette@.contains(cells@[j]));
            }
            assert(out@ =~= palette_indices(palette@, cells@));
        }
        let r = ChunkData::Paletted { palette, cells: out };
        assert(r@ =~= cells@);
        r
    }
}

impl ChunkPayload {
    /// The stored contents.
    pub open spec fn view(self) -> PayloadView {
        match self {
            ChunkPayload::Uniform(v) => PayloadView::Uniform(v),
            ChunkPayload::Paletted { palette, cells } => PayloadView::Paletted {
                palette: palette@,
                cells: cells@,
            },
            ChunkPayload::Dense(cells) => PayloadView::Dense(cells@),
        }
    }
}

/// Whether contents are stored as compactly as they can be told apart: a
/// single-valued chunk is uniform, and no palette entry repeats.
pub open spec fn compact(p: PayloadView) -> bool {
    match p {
        PayloadView::Uniform(_) => true,
        PayloadView::Paletted { palette, cells } => palette.no_duplicates() && !all_equal(p.cells()),
        PayloadView::Rle { .. } => false,
        PayloadView::Dense(_) => !all_equal(p.cells()),
    }
}

/// How generated contents are stored: block ids gain an empty state word, and a
/// palette of one entry becomes uniform.
pub open spec fn stored(data: ChunkData) -> PayloadView {
    match data {
        ChunkData::Uniform(id) => PayloadView::Uniform(widen_spec(id)),
        ChunkData::Paletted { palette, cells } => if palette@.len() == 1 {
            PayloadView::Uniform(widen_spec(palette@[0]))
        } else {
            PayloadView::Paletted {
                palette: palette@.map_values(|id: BlockId| widen_spec(id)),
                cells: cells@,
            }
        },
        ChunkData::Dense(cells) => PayloadView::Dense(
            cells@.map_values(|id: BlockId| widen_spec(id)),
        ),
    }
}

/// How a chunk with these cells is stored when it is made: uniform where all
/// agree; else palette-indexed in order of first appearance while the palette has
/// at most `PALETTE_MAX` entries; else dense.
pub open spec fn packed(cells: Seq<BlockId>) -> PayloadView {
    let palette = dedup(cells);
    if all_equal(cells) {
        PayloadView::Uniform(widen_spec(cells[0]))
    } else if palette.len() <= PALETTE_MAX {
        PayloadView::Paletted {
            palette: palette.map_values(|id: BlockId| widen_spec(id)),
            cells: palette_indices(palette, cells),
        }
    } else {
        PayloadView::Dense(cells.map_values(|id: BlockId| widen_spec(id)))
    }
}

/// Whether every cell has an empty state word.
pub open spec fn plain(p: PayloadView) -> bool {
    forall|i: int| 0 <= i < CHUNK_VOLUME ==> (#[trigger] p.cell(i)).state == 0
}

/// The cheapest form of cells is stored as their packing, which is compact.
pub proof fn lemma_packed(data: ChunkData, cells: Seq<BlockId>)
    requires
        data.cheapest(cells),
        cells.len() == CHUNK_VOLUME,
    ensures
        stored(data) == packed(cells),
        plain(stored(data)),
        compact(stored(data)),
{
    let p = stored(data);
    lemma_dedup(cells);
    assert forall|i: int| 0 <= i < CHUNK_VOLUME implies #[trigger] p.cell(i) == widen_spec(
        cells[i],
    ) by {
        assert(data@[i] == data.cell(i));
        if data is Paletted {
            assert(data->Paletted_cells@[i] < data->palette@.len());
        }
    }
    assert forall|i: int| 0 <= i < CHUNK_VOLUME implies #[trigger] p.cells()[i] == widen_spec(
        cells[i],
    ) by {
        assert(p.cells()[i] == p.cell(i));
    }
    if !all_equal(cells) {
        let i = choose|i: int| 0 <= i < cells.len() && #[trigger] cells[i] != cells[0];
        assert(p.cells()[i] != p.cells()[0]);
        assert(!all_equal(p.cells()));
        assert(cells.contains(cells[i]) && cells.contains(cells[0]));
        assert(dedup(cells).contains(cells[i]) && dedup(cells).contains(cells[0]));
    }
    match data {
        ChunkData::Uniform(_) => {},
        ChunkData::Paletted { palette, .. } => {
            let wide = palette@.map_values(|id: BlockId| widen_spec(id));
            assert(p matches PayloadView::Paletted { palette: q, .. } ==> q == wide);
            assert forall|j: int, k: int|
                0 <= j < wide.len() && 0 <= k < wide.len() && j != k implies wide[j]
                != wide[k] by {
                assert(palette@[j] != palette@[k]);
            }
        },
        ChunkData::Dense(dense) => {
            assert(dense@ =~= cells);
        },
    }
}

/// Storage after blocks are written to cells, one after the other.
pub open spec fn edited_all(p: PayloadView, writes: Seq<(int, BlockId)>) -> PayloadView
    decreases writes.len(),
{
    if writes.len() == 0 {
        p
    } else {
        let (index, id) = writes.last();
        edited(edited_all(p, writes.drop_last()), index, widen_spec(id))
    }
}

/// The first position of `v` in `palette`.
pub open spec fn first_position(palette: Seq<BlockState>, v: BlockState) -> int {
    choose|k: int|
        0 <= k < palette.len() && palette[k] == v && forall|j: int|
            0 <= j < k ==> #[trigger] palette[j] != v
}

/// The entries below `n` that some cell uses, in order.
pub open spec fn live(palette: Seq<BlockState>, cells: Seq<u8>, n: int) -> Seq<BlockState>
    decreases n,
{
    if n <= 0 {
        Seq::empty()
    } else if cells.contains((n - 1) as u8) {
        live(palette, cells, n - 1).push(palette[n - 1])
    } else {
        live(palette, cells, n - 1)
    }
}

/// Whether every palette entry is in use.
pub open spec fn all_live(palette: Seq<BlockState>, cells: Seq<u8>) -> bool {
    forall|k: int| 0 <= k < palette.len() ==> #[trigger] cells.contains(k as u8)
}

/// Cell indices after the unused entries have left the palette.
pub open spec fn remapped(palette: Seq<BlockState>, cells: Seq<u8>) -> Seq<u8> {
    Seq::new(cells.len(), |i: int| live(palette, cells, cells[i] as int).len() as u8)
}

/// Palette storage after slot `slot`, which holds `v`, is written to a cell.
pub open spec fn written(
    palette: Seq<BlockState>,
    cells: Seq<u8>,
    index: int,
    slot: u8,
    v: BlockState,
) -> PayloadView {
    let c = cells.update(index, slot);
    if forall|i: int| 0 <= i < c.len() ==> #[trigger] c[i] == slot {
        PayloadView::Uniform(v)
    } else {
        PayloadView::Paletted { palette, cells: c }
    }
}

/// Storage after `v` is written to cell `index`: a first differing write turns
/// uniform storage into a palette of two; a palette grows until it is full, is
/// then freed of unused entries, and gives way to dense storage only where all
/// its entries are in use; storage that became single-valued is uniform again.
pub open spec fn edited(p: PayloadView, index: int, v: BlockState) -> PayloadView {
    match p {
        PayloadView::Uniform(cur) => if cur == v {
            p
        } else {
            PayloadView::Paletted {
                palette: seq![cur, v],
                cells: Seq::new(
                    CHUNK_VOLUME as nat,
                    |i: int|
                        if i == index {
                            1u8
                        } else {
                            0u8
                        },
                ),
            }
        },
        PayloadView::Paletted { palette, cells } => if palette.contains(v) {
            written(palette, cells, index, first_position(palette, v) as u8, v)
        } else if palette.len() < PALETTE_MAX {
            written(palette.push(v), cells, index, palette.len() as u8, v)
        } else if all_live(palette, cells) {
            PayloadView::Dense(p.cells().update(index, v))
        } else {
            let kept = live(palette, cells, palette.len() as int);
            written(kept.push(v), remapped(palette, cells), index, kept.len() as u8, v)
        },
        PayloadView::Rle { .. } => p,
        PayloadView::Dense(cells) => {
            let c = cells.update(index, v);
            if forall|i: int| 0 <= i < c.len() ==> #[trigger] c[i] == v {
                PayloadView::Uniform(v)
            } else {
                PayloadView::Dense(c)
            }
        },
    }
}

proof fn lemma_live(palette: Seq<BlockState>, cells: Seq<u8>, n: int)
    requires
        0 <= n <= palette.len() <= PALETTE_MAX,
    ensures
        live(palette, cells, n).len() <= n,
        palette.no_duplicates() ==> live(palette, cells, n).no_duplicates(),
        forall|v: BlockState|
            live(palette, cells, n).contains(v) ==> exists|k: int|
                0 <= k < n && #[trigger] palette[k] == v,
        (exists|k: int| 0 <= k < n && !cells.contains(#[trigger] (k as u8))) ==> live(
            palette,
            cells,
            n,
        ).len() < n,
    decreases n,
{
    if n > 0 {
        lemma_live(palette, cells, n - 1);
        let a = live(palette, cells, n - 1);
        let b = live(palette, cells, n);
        assert forall|v: BlockState| b.contains(v) implies exists|k: int|
            0 <= k < n && #[trigger] palette[k] == v by {
            let j = choose|j: int| 0 <= j < b.len() && b[j] == v;
            if j < a.len() {
                assert(a[j] == v);
                assert(a.contains(v));
                let k = choose|k: int| 0 <= k < n - 1 && #[trigger] palette[k] == v;
                assert(palette[k] == v);
            } else {
                assert(palette[n - 1] == v);
            }
        }
        if palette.no_duplicates() {
            assert forall|i: int, j: int| 0 <= i < b.len() && 0 <= j < b.len() && i != j implies b[i]
                != b[j] by {
                if i < a.len() && j < a.len() {
                    assert(a[i] != a[j]);
                } else {
                    let m = if i < a.len() {
                        i
                    } else {
                        j
                    };
                    assert(a.contains(a[m]));
                    let k = choose|k: int| 0 <= k < n - 1 && #[trigger] palette[k] == a[m];
                    assert(palette[k] != palette[n - 1]);
                }
            }
        }
        if exists|k: int| 0 <= k < n && !cells.contains(#[trigger] (k as u8)) {
            let k = choose|k: int| 0 <= k < n && !cells.contains(#[trigger] (k as u8));
            if k < n - 1 {
                assert(!cells.contains(k as u8));
            }
        }
    }
}

/// An entry in use keeps its block, at the number of used entries below it.
proof fn lemma_live_at(palette: Seq<BlockState>, cells: Seq<u8>, n: int, k: int)
    requires
        0 <= k < n <= palette.len() <= PALETTE_MAX,
        cells.contains(k as u8),
    ensures
        live(palette, cells, k).len() < live(palette, cells, n).len(),
        live(palette, cells, n)[live(palette, cells, k).len() as int] == palette[k],
    decreases n,
{
    if k < n - 1 {
        lemma_live_at(palette, cells, n - 1, k);
    }
}

proof fn lemma_written(
    palette: Seq<BlockState>,
    cells: Seq<u8>,
    index: int,
    slot: u8,
    v: BlockState,
)
    requires
        palette.len() <= PALETTE_MAX,
        cells.len() == CHUNK_VOLUME,
        forall|i: int| 0 <= i < cells.len() ==> #[trigger] cells[i] < palette.len(),
        0 <= index < CHUNK_VOLUME,
        slot < palette.len(),
        palette[slot as int] == v,
    ensures
        written(palette, cells, index, slot, v).wf(),
        written(palette, cells, index, slot, v).cells() == (PayloadView::Paletted {
            palette,
            cells,
        }).cells().update(index, v),
        palette.no_duplicates() ==> compact(written(palette, cells, index, slot, v)),
{
    let c = cells.update(index, slot);
    let w = written(palette, cells, index, slot, v);
    let p = PayloadView::Paletted { palette, cells };
    assert forall|i: int| 0 <= i < CHUNK_VOLUME implies w.cells()[i] == #[trigger] p.cells().update(
        index,
        v,
    )[i] by {
        let slot_i = c[i];
    }
    assert(w.cells() =~= p.cells().update(index, v));
    if palette.no_duplicates() && w is Paletted {
        assert(c[index] == slot);
        let i = choose|i: int| 0 <= i < c.len() && c[i] != slot;
        assert(palette[c[i] as int] != palette[slot as int]);
        assert(w.cells()[i] == palette[c[i] as int]);
        assert(w.cells()[index] == v);
        assert(!all_equal(w.cells()));
    }
}

proof fn lemma_remapped(palette: Seq<BlockState>, cells: Seq<u8>)
    requires
        palette.len() <= PALETTE_MAX,
        cells.len() == CHUNK_VOLUME,
        forall|i: int| 0 <= i < cells.len() ==> #[trigger] cells[i] < palette.len(),
    ensures
        forall|i: int|
            0 <= i < cells.len() ==> #[trigger] remapped(palette, cells)[i] < live(
                palette,
                cells,
                palette.len() as int,
            ).len() && live(palette, cells, palette.len() as int)[remapped(palette, cells)[i] as int]
                == palette[cells[i] as int],
{
    let n = palette.len() as int;
    lemma_live(palette, cells, n);
    assert forall|i: int| 0 <= i < cells.len() implies #[trigger] remapped(palette, cells)[i]
        < live(palette, cells, n).len() && live(palette, cells, n)[remapped(
        palette,
        cells,
    )[i] as int] == palette[cells[i] as int] by {
        let k = cells[i] as int;
        assert(cells.contains(k as u8));
        lemma_live_at(palette, cells, n, k);
    }
}

/// A write changes exactly the cell it names: every transition of the storage
/// (promotion, palette growth, garbage collection, the dense escape, collapse
/// to uniform) keeps all other cells, validity and compactness.
pub proof fn lemma_edit_is_overlay(p: PayloadView, index: int, v: BlockState)
    requires
        p.wf(),
        !(p is Rle),
        0 <= index < CHUNK_VOLUME,
    ensures
        edited(p, index, v).wf(),
        edited(p, index, v).cells() == p.cells().update(index, v),
        compact(p) ==> compact(edited(p, index, v)),
{
    let e = edited(p, index, v);
    match p {
        PayloadView::Uniform(cur) => {
            if cur != v {
                assert(e.cells() =~= p.cells().update(index, v));
                let other = if index == 0 {
                    1int
                } else {
                    0int
                };
                assert(e.cells()[other] == cur);
                assert(e.cells()[index] == v);
                assert(!all_equal(e.cells()));
                assert(seq![cur, v].no_duplicates());
            } else {
                assert(p.cells() =~= p.cells().update(index, v));
            }
        },
        PayloadView::Paletted { palette, cells } => {
            if palette.contains(v) {
                lemma_first_position(palette, v);
                lemma_written(palette, cells, index, first_position(palette, v) as u8, v);
            } else if palette.len() < PALETTE_MAX {
                let grown = palette.push(v);
                lemma_written(grown, cells, index, palette.len() as u8, v);
                let q = PayloadView::Paletted { palette: grown, cells };
                assert(q.cells() =~= p.cells());
                lemma_push_distinct(palette, v);
            } else if all_live(palette, cells) {
                assert(e.cells() =~= p.cells().update(index, v));
                if palette.no_duplicates() {
                    lemma_dense_mixed(palette, cells, index, v);
                }
            } else {
                let n = palette.len() as int;
                let kept = live(palette, cells, n);
                let r = remapped(palette, cells);
                lemma_live(palette, cells, n);
                lemma_remapped(palette, cells);
                let k = choose|k: int| 0 <= k < n && !#[trigger] cells.contains(k as u8);
                assert(!cells.contains(k as u8));
                assert(kept.len() < n);
                let grown = kept.push(v);
                assert forall|i: int| 0 <= i < r.len() implies #[trigger] r[i] < grown.len() by {
                    assert(r[i] == remapped(palette, cells)[i]);
                }
                lemma_written(grown, r, index, kept.len() as u8, v);
                let q = PayloadView::Paletted { palette: grown, cells: r };
                assert forall|i: int| 0 <= i < CHUNK_VOLUME implies q.cells()[i]
                    == #[trigger] p.cells()[i] by {
                    assert(r[i] == remapped(palette, cells)[i]);
                }
                assert(q.cells() =~= p.cells());
                assert(!kept.contains(v)) by {
                    if kept.contains(v) {
                        let j = choose|j: int| 0 <= j < n && #[trigger] palette[j] == v;
                        assert(palette.contains(palette[j]));
                    }
                }
                lemma_push_distinct(kept, v);
            }
        },
        PayloadView::Rle { .. } => {},
        PayloadView::Dense(cells) => {
            let c = cells.update(index, v);
            assert(p.cells() =~= cells);
            assert(e.cells() =~= c);
            if e is Dense {
                let i = choose|i: int| 0 <= i < c.len() && c[i] != v;
                assert(e.cells()[i] != v);
                assert(e.cells()[index] == v);
                assert(!all_equal(e.cells()));
            }
        },
    }
}

proof fn lemma_first_position(palette: Seq<BlockState>, v: BlockState)
    requires
        palette.contains(v),
    ensures
        0 <= first_position(palette, v) < palette.len(),
        palette[first_position(palette, v)] == v,
        forall|j: int| 0 <= j < first_position(palette, v) ==> #[trigger] palette[j] != v,
{
    let k = choose|k: int| 0 <= k < palette.len() && palette[k] == v;
    lemma_has_first(palette, v, k);
}

proof fn lemma_has_first(palette: Seq<BlockState>, v: BlockState, k: int)
    requires
        0 <= k < palette.len(),
        palette[k] == v,
    ensures
        exists|m: int|
            0 <= m < palette.len() && palette[m] == v && forall|j: int|
                0 <= j < m ==> #[trigger] palette[j] != v,
    decreases k,
{
    if exists|j: int| 0 <= j < k && palette[j] == v {
        let j = choose|j: int| 0 <= j < k && palette[j] == v;
        lemma_has_first(palette, v, j);
    }
}

proof fn lemma_push_distinct(palette: Seq<BlockState>, v: BlockState)
    requires
        !palette.contains(v),
    ensures
        palette.no_duplicates() ==> palette.push(v).no_duplicates(),
{
    let q = palette.push(v);
    assert forall|i: int, j: int|
        palette.no_duplicates() && 0 <= i < q.len() && 0 <= j < q.len() && i != j implies q[i]
        != q[j] by {
        if i < palette.len() {
            assert(palette.contains(palette[i]));
        }
        if j < palette.len() {
            assert(palette.contains(palette[j]));
        }
    }
}

proof fn lemma_dense_mixed(palette: Seq<BlockState>, cells: Seq<u8>, index: int, v: BlockState)
    requires
        palette.len() == PALETTE_MAX,
        palette.no_duplicates(),
        cells.len() == CHUNK_VOLUME,
        forall|i: int| 0 <= i < cells.len() ==> #[trigger] cells[i] < palette.len(),
        all_live(palette, cells),
        0 <= index < CHUNK_VOLUME,
    ensures
        !all_equal(
            (PayloadView::Paletted { palette, cells }).cells().update(index, v),
        ),
{
    let p = PayloadView::Paletted { palette, cells };
    let d = p.cells().update(index, v);
    let a = if cells[index] == 0u8 {
        1u8
    } else {
        0u8
    };
    let b = if cells[index] == 2u8 {
        3u8
    } else {
        2u8
    };
    assert(cells.contains((a as int) as u8));
    assert(cells.contains((b as int) as u8));
    let i = choose|i: int| 0 <= i < cells.len() && cells[i] == a;
    let j = choose|j: int| 0 <= j < cells.len() && cells[j] == b;
    assert(palette[a as int] != palette[b as int]);
    assert(d[i] == palette[a as int]);
    assert(d[j] == palette[b as int]);
}

/// Frees a palette of the entries that no cell uses, and renumbers the cells.
/// Returns `false`, changing nothing, where every entry is in use.
fn gc_palette(palette: &mut Vec<BlockState>, cells: &mut [u8; CHUNK_VOLUME]) -> (freed: bool)
    requires
        old(palette)@.len() <= PALETTE_MAX,
        forall|i: int|
            0 <= i < CHUNK_VOLUME ==> #[trigger] old(cells)@[i] < old(palette)@.len(),
    ensures
        freed == !all_live(old(palette)@, old(cells)@),
        !freed ==> final(palette)@ == old(palette)@ && final(cells)@ == old(cells)@,
        freed ==> final(palette)@ == live(
            old(palette)@,
            old(cells)@,
            old(palette)@.len() as int,
        ) && final(cells)@ == remapped(old(palette)@, old(cells)@),
{
    let mut used: [bool; PALETTE_MAX] = [false; PALETTE_MAX];
    let ghost palette0 = palette@;
    let ghost cells0 = cells@;
    let mut i: usize = 0;
    while i < CHUNK_VOLUME
        invariant
            i <= CHUNK_VOLUME,
            cells@ == cells0,
            cells0.len() == CHUNK_VOLUME,
            forall|k: int|
                0 <= k < PALETTE_MAX ==> #[trigger] used@[k] == cells0.take(i as int).contains(
                    k as u8,
                ),
        decreases CHUNK_VOLUME - i,
    {
        let ghost before = used@;
        used[cells[i] as usize] = true;
        proof {
            let t0 = cells0.take(i as int);
            let t1 = cells0.take(i + 1);
            assert(t1 =~= t0.push(cells0[i as int]));
            assert forall|k: int| 0 <= k < PALETTE_MAX implies #[trigger] used@[k] == t1.contains(
                k as u8,
            ) by {
                if t0.contains(k as u8) {
                    let j = choose|j: int| 0 <= j < t0.len() && t0[j] == k as u8;
                    assert(t1[j] == k as u8);
                }
                if t1.contains(k as u8) {
                    let j = choose|j: int| 0 <= j < t1.len() && t1[j] == k as u8;
                    if j < t0.len() {
                        assert(t0[j] == k as u8);
                    }
                }
                assert(t1[i as int] == cells0[i as int]);
                assert(before[k] == t0.contains(k as u8));
            }
        }
        i = i + 1;
    }
    assert(cells0.take(i as int) =~= cells0);
    let mut live_all: bool = true;
    let mut k: usize = 0;
    while k < palette.len()
        invariant
            k <= palette@.len() <= PALETTE_MAX,
            forall|k: int| 0 <= k < PALETTE_MAX ==> #[trigger] used@[k] == cells0.contains(k as u8),
            live_all == forall|j: int| 0 <= j < k ==> #[trigger] cells0.contains(j as u8),
        decreases palette@.len() - k,
    {
        if !used[k] {
            assert(!cells0.contains((k as int) as u8));
            live_all = false;
        } else {
            assert(cells0.contains((k as int) as u8));
        }
        k = k + 1;
    }
    if live_all {
        return false;
    }
    let mut remap: [u8; PALETTE_MAX] = [0u8; PALETTE_MAX];
    let mut kept: Vec<BlockState> = Vec::with_capacity(palette.len());
    let mut e: usize = 0;
    while e < palette.len()
        invariant
            e <= palette@.len() <= PALETTE_MAX,
            palette@ == palette0,
            forall|k: int| 0 <= k < PALETTE_MAX ==> #[trigger] used@[k] == cells0.contains(k as u8),
            kept@ == live(palette0, cells0, e as int),
            kept@.len() <= e,
            forall|j: int|
                0 <= j < e && cells0.contains(j as u8) ==> #[trigger] remap@[j] == live(
                    palette0,
                    cells0,
                    j,
                ).len(),
        decreases palette@.len() - e,
    {
        if used[e] {
            remap[e] = kept.len() as u8;
            kept.push(palette[e]);
        }
        e = e + 1;
    }
    let mut c: usize = 0;
    while c < CHUNK_VOLUME
        invariant
            c <= CHUNK_VOLUME,
            cells@.len() == CHUNK_VOLUME,
            cells0.len() == CHUNK_VOLUME,
            palette0.len() <= PALETTE_MAX,
            forall|i: int| 0 <= i < CHUNK_VOLUME ==> #[trigger] cells0[i] < palette0.len(),
            forall|j: int|
                0 <= j < palette0.len() && cells0.contains(j as u8) ==> #[trigger] remap@[j]
                    == live(palette0, cells0, j).len(),
            forall|i: int| c <= i < CHUNK_VOLUME ==> #[trigger] cells@[i] == cells0[i],
            forall|i: int|
                0 <= i < c ==> #[trigger] cells@[i] == remapped(palette0, cells0)[i],
        decreases CHUNK_VOLUME - c,
    {
        let slot: u8 = cells[c];
        proof {
            assert(slot == cells0[c as int]);
            assert(cells0.contains((slot as int) as u8));
            assert(remap@[slot as int] == live(palette0, cells0, slot as int).len());
        }
        cells[c] = remap[slot as usize];
        c = c + 1;
    }
    assert(cells@ =~= remapped(palette0, cells0));
    *palette = kept;
    true
}

/// Whether every palette index equals `slot`.
fn all_slots(cells: &[u8; CHUNK_VOLUME], slot: u8) -> (b: bool)
    ensures
        b == forall|i: int| 0 <= i < cells@.len() ==> #[trigger] cells@[i] == slot,
{
    let mut i: usize = 0;
    while i < CHUNK_VOLUME
        invariant
            i <= CHUNK_VOLUME,
            forall|j: int| 0 <= j < i ==> #[trigger] cells@[j] == slot,
        decreases CHUNK_VOLUME - i,
    {
        if cells[i] != slot {
            return false;
        }
        i = i + 1;
    }
    true
}

/// Whether every block state equals `v`.
fn all_states(cells: &[BlockState; CHUNK_VOLUME], v: BlockState) -> (b: bool)
    ensures
        b == forall|i: int| 0 <= i < cells@.len() ==> #[trigger] cells@[i] == v,
{
    let mut i: usize = 0;
    while i < CHUNK_VOLUME
        invariant
            i <= CHUNK_VOLUME,
            forall|j: int| 0 <= j < i ==> #[trigger] cells@[j] == v,
        decreases CHUNK_VOLUME - i,
    {
        if cells[i] != v {
            return false;
        }
        i = i + 1;
    }
    true
}

/// Palette storage after slot `slot`, which holds `v`, is written to a cell.
fn write_slot(
    palette: Vec<BlockState>,
    cells: Box<[u8; CHUNK_VOLUME]>,
    index: usize,
    slot: u8,
    v: BlockState,
) -> (r: ChunkPayload)
    requires
        index < CHUNK_VOLUME,
    ensures
        r@ == written(palette@, cells@, index as int, slot, v),
{
    let mut cells = cells;
    cells[index] = slot;
    if slot == cells[0] && all_slots(&cells, slot) {
        ChunkPayload::Uniform(v)
    } else {
        ChunkPayload::Paletted { palette, cells }
    }
}

/// Storage after `v` is written to cell `index`.
fn edit_payload(payload: ChunkPayload, index: usize, v: BlockState) -> (r: ChunkPayload)
    requires
        payload@.wf(),
        index < CHUNK_VOLUME,
    ensures
        r@ == edited(payload@, index as int, v),
{
    match payload {
        ChunkPayload::Uniform(cur) => {
            if cur == v {
                return ChunkPayload::Uniform(cur);
            }
            let mut palette: Vec<BlockState> = Vec::with_capacity(2);
            palette.push(cur);
            palette.push(v);
            let mut cells: Box<[u8; CHUNK_VOLUME]> = Box::new([0u8;CHUNK_VOLUME]);
            cells[index] = 1;
            proof {
                let e = edited(PayloadView::Uniform(cur), index as int, v);
                assert(palette@ =~= e->Paletted_palette);
                assert(cells@ =~= e->Paletted_cells);
            }
            ChunkPayload::Paletted { palette, cells }
        },
        ChunkPayload::Paletted { palette, cells } => {
            let mut palette = palette;
            let mut cells = cells;
            match palette_position(&palette, v) {
                Some(k) => {
                    proof {
                        assert(palette@.contains(v));
                        lemma_first_position(palette@, v);
                        let f = first_position(palette@, v);
                        assert(palette@[f] == v);
                        assert(palette@[k as int] == v);
                    }
                    write_slot(palette, cells, index, k as u8, v)
                },
                None => {
                    let ghost palette0 = palette@;
                    let ghost cells0 = cells@;
                    if palette.len() == PALETTE_MAX {
                        if !gc_palette(&mut palette, &mut *cells) {
                            let mut dense: Box<[BlockState; CHUNK_VOLUME]> = Box::new(
                                [v;CHUNK_VOLUME],
                            );
                            let mut i: usize = 0;
                            while i < CHUNK_VOLUME
                                invariant
                                    i <= CHUNK_VOLUME,
                                    palette@ == palette0,
                                    cells@ == cells0,
                                    cells0.len() == CHUNK_VOLUME,
                                    forall|j: int|
                                        0 <= j < CHUNK_VOLUME ==> #[trigger] cells0[j]
                                            < palette0.len(),
                                    forall|j: int|
                                        0 <= j < i ==> #[trigger] dense@[j]
                                            == palette0[cells0[j] as int],
                                decreases CHUNK_VOLUME - i,
                            {
                                dense[i] = palette[cells[i] as usize];
                                i = i + 1;
                            }
                            dense[index] = v;
                            proof {
                                let p = PayloadView::Paletted { palette: palette0, cells: cells0 };
                                assert(dense@ =~= p.cells().update(index as int, v));
                            }
                            return ChunkPayload::Dense(dense);
                        }
                        proof {
                            lemma_live(palette0, cells0, palette0.len() as int);
                            let k = choose|k: int|
                                0 <= k < palette0.len() && !#[trigger] cells0.contains(k as u8);
                            assert(!cells0.contains(k as u8));
                        }
                    }
                    palette.push(v);
                    let slot: u8 = (palette.len() - 1) as u8;
                    write_slot(palette, cells, index, slot, v)
                },
            }
        },
        ChunkPayload::Dense(cells) => {
            let mut cells = cells;
            cells[index] = v;
            if v == cells[0] && all_states(&cells, v) {
                ChunkPayload::Uniform(v)
            } else {
                ChunkPayload::Dense(cells)
            }
        },
    }
}

/// However many blocks are written, the storage stays valid, compact and without state
/// words, through every transition.
pub proof fn lemma_writes_stay_compact(p: PayloadView, writes: Seq<(int, BlockId)>)
    requires
        p.wf(),
        !(p is Rle),
        compact(p),
        plain(p),
        forall|k: int| 0 <= k < writes.len() ==> 0 <= (#[trigger] writes[k]).0 < CHUNK_VOLUME,
    ensures
        edited_all(p, writes).wf(),
        !(edited_all(p, writes) is Rle),
        compact(edited_all(p, writes)),
        plain(edited_all(p, writes)),
    decreases writes.len(),
{
    if writes.len() > 0 {
        let rest = writes.drop_last();
        let last = writes.len() - 1;
        assert forall|k: int| 0 <= k < rest.len() implies 0 <= (#[trigger] rest[k]).0
            < CHUNK_VOLUME by {
            assert(0 <= writes[k].0 < CHUNK_VOLUME);
        }
        lemma_writes_stay_compact(p, rest);
        let q = edited_all(p, rest);
        let (index, id) = writes[last];
        assert(0 <= writes[last].0 < CHUNK_VOLUME);
        lemma_edit_is_overlay(q, index, widen_spec(id));
        let e = edited_all(p, writes);
        assert forall|i: int| 0 <= i < CHUNK_VOLUME implies (#[trigger] e.cell(i)).state == 0 by {
            assert(e.cells()[i] == q.cells().update(index, widen_spec(id))[i]);
            assert(q.cell(i).state == 0);
        }
    }
}

/// A 16-cube region of the world.
#[derive(Clone)]
pub struct Chunk {
    /// Chunk coordinate on the X axis (world X = cx * 16 + local x).
    pub cx: i32,
    /// Chunk coordinate on the Y axis.
    pub cy: i32,
    /// Chunk coordinate on the Z axis.
    pub cz: i32,
    data: Brick<ChunkPayload>,
}

/// Chunk-local coordinates of flat index `i`.
pub open spec fn local_of_spec(i: int) -> (int, int, int) {
    (i % 16, i / 256, (i / 16) % 16)
}

/// Flat index and local coordinates are inverse to each other.
pub proof fn lemma_index_local_inverse(i: int, x: int, y: int, z: int)
    ensures
        0 <= i ==> cell_index_spec(local_of_spec(i).0, local_of_spec(i).1, local_of_spec(i).2) == i,
        0 <= x < 16 && 0 <= z < 16 && 0 <= y ==> local_of_spec(cell_index_spec(x, y, z)) == (
            x,
            y,
            z,
        ),
{
    if 0 <= x < 16 && 0 <= z < 16 && 0 <= y {
        let k = cell_index_spec(x, y, z);
        assert(k / 16 == z + y * 16);
    }
}

impl Chunk {
    /// The stored contents.
    pub closed spec fn payload(self) -> PayloadView {
        self.data.payload@
    }

    /// The level of detail and the revision of the brick.
    pub closed spec fn stamp(self) -> (Detail, Rev) {
        (self.data.level, self.data.rev)
    }

    /// The chunk coordinates.
    pub closed spec fn coord(self) -> (i32, i32, i32) {
        (self.cx, self.cy, self.cz)
    }

    /// The chunk coordinates.
    pub fn position(&self) -> (c: (i32, i32, i32))
        ensures
            c == self.coord(),
    {
        (self.cx, self.cy, self.cz)
    }

    /// Whether the storage is valid.
    pub open spec fn wf(self) -> bool {
        &&& self.payload().wf()
        &&& !(self.payload() is Rle)
    }

    /// The block in cell `i`.
    pub open spec fn cell(self, i: int) -> BlockId {
        self.payload().cell(i).id
    }

    /// All cells in flat index order.
    pub open spec fn view(self) -> Seq<BlockId> {
        Seq::new(CHUNK_VOLUME as nat, |i: int| self.cell(i))
    }

    /// A chunk of one block.
    pub fn from_uniform(cx: i32, cy: i32, cz: i32, id: BlockId) -> (r: Self)
        ensures
            r.wf(),
            r.coord() == (cx, cy, cz),
            r.stamp() == (Detail(0), Rev(0)),
            r.payload() == PayloadView::Uniform(widen_spec(id)),
            compact(r.payload()),
    {
        Chunk {
            cx,
            cy,
            cz,
            data: Brick {
                level: Detail(0),
                rev: Rev(0),
                payload: ChunkPayload::Uniform(widen(id)),
            },
        }
    }

    /// A chunk with the given cells, stored in the cheapest form.
    pub fn from_cells(cx: i32, cy: i32, cz: i32, cells: Box<[BlockId; CHUNK_VOLUME]>) -> (r: Self)
        ensures
            r.wf(),
            r.coord() == (cx, cy, cz),
            r.stamp() == (Detail(0), Rev(0)),
            r@ == cells@,
            r.payload() == packed(cells@),
            plain(r.payload()),
            compact(r.payload()),
    {
        let ghost want = cells@;
        let data = ChunkData::from_cells(cells);
        let r = Self::from_data(cx, cy, cz, data);
        proof {
            lemma_packed(data, want);
        }
        r
    }

    /// A chunk with generated contents. Block ids gain an empty state word; a
    /// palette of one entry is stored as uniform.
    pub fn from_data(cx: i32, cy: i32, cz: i32, data: ChunkData) -> (r: Self)
        requires
            data.wf(),
        ensures
            r.wf(),
            r.coord() == (cx, cy, cz),
            r.stamp() == (Detail(0), Rev(0)),
            r@ == data@,
            forall|i: int|
                0 <= i < CHUNK_VOLUME ==> #[trigger] r.payload().cell(i) == widen_spec(
                    data.cell(i),
                ),
            r.payload() == stored(data),
    {
        let payload: ChunkPayload = match &data {
            ChunkData::Uniform(id) => ChunkPayload::Uniform(widen(*id)),
            ChunkData::Paletted { palette, cells } => {
                if palette.len() == 1 {
                    proof {
                        assert forall|i: int| 0 <= i < CHUNK_VOLUME implies #[trigger] data.cell(i)
                            == palette@[0] by {
                            assert(cells@[i] < palette@.len());
                        }
                    }
                    ChunkPayload::Uniform(widen(palette[0]))
                } else {
                    let mut wide: Vec<BlockState> = Vec::with_capacity(palette.len());
                    let mut k: usize = 0;
                    while k < palette.len()
                        invariant
                            k <= palette@.len(),
                            wide@.len() == k,
                            forall|j: int|
                                0 <= j < k ==> #[trigger] wide@[j] == widen_spec(palette@[j]),
                        decreases palette@.len() - k,
                    {
                        wide.push(widen(palette[k]));
                        k = k + 1;
                    }
                    let mut flat: Box<[u8; CHUNK_VOLUME]> = Box::new([0u8;CHUNK_VOLUME]);
                    let mut i: usize = 0;
                    while i < CHUNK_VOLUME
                        invariant
                            i <= CHUNK_VOLUME,
                            forall|j: int| 0 <= j < i ==> #[trigger] flat@[j] == cells@[j],
                        decreases CHUNK_VOLUME - i,
                    {
                        flat[i] = cells[i];
                        i = i + 1;
                    }
                    assert(flat@ =~= cells@);
                    assert(wide@ =~= palette@.map_values(|id: BlockId| widen_spec(id)));
                    ChunkPayload::Paletted { palette: wide, cells: flat }
                }
            },
            ChunkData::Dense(cells) => {
                let mut wide: Box<[BlockState; CHUNK_VOLUME]> = Box::new(
                    [widen(cells[0]);CHUNK_VOLUME],
                );
                let mut i: usize = 0;
                while i < CHUNK_VOLUME
                    invariant
                        i <= CHUNK_VOLUME,
                        forall|j: int| 0 <= j < i ==> #[trigger] wide@[j] == widen_spec(cells@[j]),
                    decreases CHUNK_VOLUME - i,
                {
                    wide[i] = widen(cells[i]);
                    i = i + 1;
                }
                assert(wide@ =~= cells@.map_values(|id: BlockId| widen_spec(id)));
                ChunkPayload::Dense(wide)
            },
        };
        let r = Chunk { cx, cy, cz, data: Brick { level: Detail(0), rev: Rev(0), payload } };
        proof {
            assert forall|i: int| 0 <= i < CHUNK_VOLUME implies #[trigger] r.payload().cell(i)
                == widen_spec(data.cell(i)) by {
                if data is Paletted {
                    assert(data->Paletted_cells@[i] < data->palette@.len());
                }
            }
            assert(r@ =~= data@);
        }
        r
    }

    /// Flat index from chunk-local coordinates.
    pub fn index(x: usize, y: usize, z: usize) -> (i: usize)
        requires
            x + z * 16 + y * 256 <= usize::MAX,
        ensures
            i == cell_index_spec(x as int, y as int, z as int),
    {
        x + z * CHUNK_SIZE + y * 256
    }

    /// Chunk-local coordinates from a flat index.
    pub fn local_of(index: usize) -> (r: (usize, usize, usize))
        ensures
            (r.0 as int, r.1 as int, r.2 as int) == local_of_spec(index as int),
    {
        (index % CHUNK_SIZE, index / 256, (index / CHUNK_SIZE) % CHUNK_SIZE)
    }

    /// The stored brick.
    pub fn data(&self) -> (r: &Brick<ChunkPayload>)
        ensures
            r.payload@ == self.payload(),
            (r.level, r.rev) == self.stamp(),
    {
        &self.data
    }

    /// The single block filling this chunk, if it is stored as uniform.
    pub fn uniform(&self) -> (r: Option<BlockId>)
        ensures
            r == (match self.payload() {
                PayloadView::Uniform(v) => Some(v.id),
                _ => None,
            }),
    {
        match &self.data.payload {
            ChunkPayload::Uniform(v) => Some(v.id),
            _ => None,
        }
    }

    /// Compact storage without state words is uniform exactly where every cell holds
    /// the same block.
    pub proof fn lemma_uniform_where_equal(self, id: BlockId)
        requires
            self.wf(),
            compact(self.payload()),
            plain(self.payload()),
        ensures
            self.payload() == PayloadView::Uniform(widen_spec(id)) <==> forall|i: int|
                0 <= i < CHUNK_VOLUME ==> #[trigger] self@[i] == id,
    {
        let p = self.payload();
        if p == PayloadView::Uniform(widen_spec(id)) {
            assert forall|i: int| 0 <= i < CHUNK_VOLUME implies #[trigger] self@[i] == id by {
                assert(self@[i] == p.cell(i).id);
            }
        }
        if forall|i: int| 0 <= i < CHUNK_VOLUME ==> #[trigger] self@[i] == id {
            assert forall|i: int| 0 <= i < CHUNK_VOLUME implies #[trigger] p.cells()[i]
                == widen_spec(id) by {
                assert(self@[i] == id);
                assert(p.cell(i).state == 0 && p.cell(i).id == id);
            }
            assert(all_equal(p.cells()));
            assert(p is Uniform);
            assert(p.cell(0).state == 0 && self@[0] == id);
        }
    }

    /// Whether this chunk is uniform, opaque and dark: its settled light is all
    /// dark. Opaque emitters still seed block light.
    pub fn is_uniform_opaque(&self, tables: &HotTables) -> (b: bool)
        requires
            tables.wf(),
            self.payload() matches PayloadView::Uniform(v) ==> v.id.0 < tables.count(),
        ensures
            b == (match self.payload() {
                PayloadView::Uniform(v) => tables.opaque_spec(v.id) && tables.emission@[v.id.0 as int]
                    == 0,
                _ => false,
            }),
    {
        match self.uniform() {
            Some(id) => tables.opaque(id) && tables.emission[id.0 as usize] == 0,
            None => false,
        }
    }

    /// Reads a voxel by flat index.
    pub fn get_index(&self, index: usize) -> (id: BlockId)
        requires
            self.wf(),
            index < CHUNK_VOLUME,
        ensures
            id == self@[index as int],
    {
        match &self.data.payload {
            ChunkPayload::Uniform(v) => v.id,
            ChunkPayload::Paletted { palette, cells } => palette[cells[index] as usize].id,
            ChunkPayload::Dense(cells) => cells[index].id,
        }
    }

    /// Reads a voxel by chunk-local coordinates.
    pub fn get_local(&self, x: usize, y: usize, z: usize) -> (id: BlockId)
        requires
            self.wf(),
            x < CHUNK_SIZE,
            y < CHUNK_SIZE,
            z < CHUNK_SIZE,
        ensures
            id == self@[cell_index_spec(x as int, y as int, z as int)],
    {
        self.get_index(Self::index(x, y, z))
    }

    /// Copies the 16-cell x-row at `(y, z)` into `out`.
    pub fn copy_row(&self, y: usize, z: usize, out: &mut [BlockId; CHUNK_SIZE])
        requires
            self.wf(),
            y < CHUNK_SIZE,
            z < CHUNK_SIZE,
        ensures
            forall|x: int|
                0 <= x < 16 ==> #[trigger] final(out)@[x] == self@[cell_index_spec(
                    x,
                    y as int,
                    z as int,
                )],
    {
        let base: usize = Self::index(0, y, z);
        let mut x: usize = 0;
        match &self.data.payload {
            ChunkPayload::Uniform(v) => {
                while x < CHUNK_SIZE
                    invariant
                        x <= CHUNK_SIZE,
                        forall|j: int| 0 <= j < x ==> #[trigger] out@[j] == v.id,
                    decreases CHUNK_SIZE - x,
                {
                    out[x] = v.id;
                    x = x + 1;
                }
            },
            ChunkPayload::Paletted { palette, cells } => {
                while x < CHUNK_SIZE
                    invariant
                        x <= CHUNK_SIZE,
                        base <= 4080,
                        cells@.len() == CHUNK_VOLUME,
                        forall|i: int|
                            0 <= i < cells@.len() ==> #[trigger] cells@[i] < palette@.len(),
                        forall|j: int|
                            0 <= j < x ==> #[trigger] out@[j] == palette@[cells@[base
                                + j] as int].id,
                    decreases CHUNK_SIZE - x,
                {
                    out[x] = palette[cells[base + x] as usize].id;
                    x = x + 1;
                }
            },
            ChunkPayload::Dense(cells) => {
                while x < CHUNK_SIZE
                    invariant
                        x <= CHUNK_SIZE,
                        base <= 4080,
                        cells@.len() == CHUNK_VOLUME,
                        forall|j: int| 0 <= j < x ==> #[trigger] out@[j] == cells@[base + j].id,
                    decreases CHUNK_SIZE - x,
                {
                    out[x] = cells[base + x].id;
                    x = x + 1;
                }
            },
        }
    }

    /// Writes a voxel by chunk-local coordinates.
    pub fn set_local(&mut self, x: usize, y: usize, z: usize, v: BlockId)
        requires
            old(self).wf(),
            x < CHUNK_SIZE,
            y < CHUNK_SIZE,
            z < CHUNK_SIZE,
        ensures
            final(self).wf(),
            final(self).payload() == edited(
                old(self).payload(),
                cell_index_spec(x as int, y as int, z as int),
                widen_spec(v),
            ),
            final(self)@ == old(self)@.update(cell_index_spec(x as int, y as int, z as int), v),
            compact(old(self).payload()) ==> compact(final(self).payload()),
            final(self).coord() == old(self).coord(),
            final(self).stamp() == old(self).stamp(),
    {
        self.set_index(Self::index(x, y, z), v);
    }

    /// Writes a voxel by flat index. Only that cell changes; the storage stays
    /// valid and compact.
    pub fn set_index(&mut self, index: usize, v: BlockId)
        requires
            old(self).wf(),
            index < CHUNK_VOLUME,
        ensures
            final(self).wf(),
            final(self).payload() == edited(old(self).payload(), index as int, widen_spec(v)),
            final(self)@ == old(self)@.update(index as int, v),
            compact(old(self).payload()) ==> compact(final(self).payload()),
            final(self).coord() == old(self).coord(),
            final(self).stamp() == old(self).stamp(),
    {
        let v: BlockState = widen(v);
        let ghost before = self.payload();
        let mut payload: ChunkPayload = ChunkPayload::Uniform(v);
        core::mem::swap(&mut payload, &mut self.data.payload);
        self.data.payload = edit_payload(payload, index, v);
        proof {
            lemma_edit_is_overlay(before, index as int, v);
            assert forall|i: int| 0 <= i < CHUNK_VOLUME implies self@[i] == old(self)@.update(
                index as int,
                v.id,
            )[i] by {
                assert(self.payload().cells()[i] == before.cells().update(index as int, v)[i]);
            }
            assert(self@ =~= old(self)@.update(index as int, v.id));
        }
    }

    /// Fills `out` with one bit per cell: what `opaque` says of its block.
    pub fn fill_opacity<F: Fn(BlockId) -> bool>(&self, opaque: F, out: &mut [u64; 64])
        requires
            self.wf(),
            forall|id: BlockId| call_requires(opaque, (id,)),
        ensures
            forall|i: int|
                0 <= i < CHUNK_VOLUME ==> call_ensures(
                    opaque,
                    (self@[i],),
                    #[trigger] word_bit(final(out)@, i),
                ),
    {
        match &self.data.payload {
            ChunkPayload::Uniform(v) => {
                let b: bool = opaque(v.id);
                fill_bits(out, b);
            },
            ChunkPayload::Paletted { palette, cells } => {
                let mut lut: [bool; PALETTE_MAX] = [false; PALETTE_MAX];
                let mut k: usize = 0;
                while k < palette.len()
                    invariant
                        k <= palette@.len() <= PALETTE_MAX,
                        forall|id: BlockId| call_requires(opaque, (id,)),
                        forall|j: int|
                            0 <= j < k ==> call_ensures(
                                opaque,
                                (palette@[j].id,),
                                #[trigger] lut@[j],
                            ),
                    decreases palette@.len() - k,
                {
                    let b: bool = opaque(palette[k].id);
                    lut[k] = b;
                    k = k + 1;
                }
                fill_bits(out, false);
                let mut i: usize = 0;
                while i < CHUNK_VOLUME
                    invariant
                        i <= CHUNK_VOLUME,
                        palette@.len() <= PALETTE_MAX,
                        cells@.len() == CHUNK_VOLUME,
                        forall|j: int|
                            0 <= j < cells@.len() ==> #[trigger] cells@[j] < palette@.len(),
                        forall|j: int|
                            0 <= j < i ==> #[trigger] word_bit(out@, j) == lut@[cells@[j] as int],
                        forall|j: int|
                            i <= j < CHUNK_VOLUME ==> !#[trigger] word_bit(out@, j),
                    decreases CHUNK_VOLUME - i,
                {
                    if lut[cells[i] as usize] {
                        set_bit(out, i);
                    }
                    i = i + 1;
                }
            },
            ChunkPayload::Dense(cells) => {
                fill_bits(out, false);
                let mut i: usize = 0;
                while i < CHUNK_VOLUME
                    invariant
                        i <= CHUNK_VOLUME,
                        cells@.len() == CHUNK_VOLUME,
                        forall|id: BlockId| call_requires(opaque, (id,)),
                        forall|j: int|
                            0 <= j < i ==> call_ensures(
                                opaque,
                                (cells@[j].id,),
                                #[trigger] word_bit(out@, j),
                            ),
                        forall|j: int|
                            i <= j < CHUNK_VOLUME ==> !#[trigger] word_bit(out@, j),
                    decreases CHUNK_VOLUME - i,
                {
                    let b: bool = opaque(cells[i].id);
                    if b {
                        set_bit(out, i);
                    }
                    i = i + 1;
                }
            },
        }
    }
}

/// Cells lie in rows along x, rows in layers along z, and layers stack along y: a step
/// along x goes to the next cell, one along z sixteen on and one along y 256 on, and every
/// cell of the chunk has its own place.
pub proof fn lemma_cell_layout(x: int, y: int, z: int, a: int, b: int, c: int)
    requires
        0 <= x < 16,
        0 <= y < 16,
        0 <= z < 16,
        0 <= a < 16,
        0 <= b < 16,
        0 <= c < 16,
    ensures
        0 <= cell_index_spec(x, y, z) < 4096,
        cell_index_spec(0, 0, 0) == 0,
        cell_index_spec(x + 1, y, z) == cell_index_spec(x, y, z) + 1,
        cell_index_spec(x, y, z + 1) == cell_index_spec(x, y, z) + 16,
        cell_index_spec(x, y + 1, z) == cell_index_spec(x, y, z) + 256,
        cell_index_spec(x, y, z) == cell_index_spec(a, b, c) ==> x == a && y == b && z == c,
{
}

} // verus!
