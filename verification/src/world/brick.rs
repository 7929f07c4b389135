//! Bricks: 16-cube cell stores with one canonical packing per content.
use vstd::prelude::*;

use crate::block::{BlockId, BlockState, Detail, Rev};

verus! {

/// Brick edge length.
pub const BRICK_DIM: usize = 16;

/// Cells per brick (16 cubed).
pub const BRICK_VOLUME: usize = 4096;

/// Palette cap: a palette index fits `u8`; above this a brick is dense.
pub const PALETTE_MAX: usize = 256;

/// Columns per brick, one for each `(x, z)`.
pub const BRICK_COLUMNS: usize = 256;

/// A brick: 16-cube cells at `level`. The packing is a type parameter.
#[derive(Clone, PartialEq, Eq, Debug)]
pub struct Brick<P> {
    pub level: Detail,
    pub rev: Rev,
    pub payload: P,
}

/// The position of a cell in a brick's flat order: x fastest, then z, then y.
pub open spec fn cell_index_spec(x: int, y: int, z: int) -> int {
    x + z * 16 + y * 256
}

/// Cell index within a brick's flat arrays: x fastest, then z, then y.
pub fn cell_index(x: usize, y: usize, z: usize) -> (i: usize)
    requires
        x + z * 16 + y * 256 <= usize::MAX,
    ensures
        i == cell_index_spec(x as int, y as int, z as int),
{
    x + z * BRICK_DIM + y * BRICK_COLUMNS
}

/// One palette-indexed run: `count` consecutive cells along y, within one
/// `(x, z)` column. A run is never empty and never taller than a column.
#[derive(Clone, Copy, PartialEq, Eq, Debug)]
pub struct Run {
    palette_index: u8,
    count: u8,
}

impl Run {
    /// The palette index of the run's cells.
    pub closed spec fn index_spec(self) -> u8 {
        self.palette_index
    }

    /// The number of cells in the run.
    pub closed spec fn count_spec(self) -> u8 {
        self.count
    }

    #[verifier::type_invariant]
    spec fn inv(self) -> bool {
        1 <= self.count <= 16
    }

    /// A run of `count` cells at `palette_index`.
    pub fn new(palette_index: u8, count: u8) -> (r: Self)
        requires
            1 <= count <= 16,
        ensures
            r.index_spec() == palette_index,
            r.count_spec() == count,
    {
        Run { palette_index, count }
    }

    pub fn palette_index(&self) -> (i: u8)
        ensures
            i == self.index_spec(),
    {
        self.palette_index
    }

    pub fn count(&self) -> (n: u8)
        ensures
            n == self.count_spec(),
            1 <= n <= 16,
    {
        proof {
            use_type_invariant(self);
        }
        self.count
    }
}

/// The distinct values of `s`, in order of first appearance.
pub open spec fn dedup<T>(s: Seq<T>) -> Seq<T>
    decreases s.len(),
{
    if s.len() == 0 {
        Seq::empty()
    } else {
        let d = dedup(s.drop_last());
        if d.contains(s.last()) {
            d
        } else {
            d.push(s.last())
        }
    }
}

/// The run-length coding of `s`: maximal runs as (value, length) pairs.
pub open spec fn rle(s: Seq<u8>) -> Seq<(u8, nat)>
    decreases s.len(),
{
    if s.len() == 0 {
        Seq::empty()
    } else {
        let r = rle(s.drop_last());
        if r.len() > 0 && r.last().0 == s.last() {
            r.update(r.len() - 1, (s.last(), r.last().1 + 1))
        } else {
            r.push((s.last(), 1))
        }
    }
}

/// The values that a sequence of runs stands for.
pub open spec fn expand(r: Seq<(u8, nat)>) -> Seq<u8>
    decreases r.len(),
{
    if r.len() == 0 {
        Seq::empty()
    } else {
        expand(r.drop_last()) + Seq::new(r.last().1, |i: int| r.last().0)
    }
}

/// Whether runs are non-empty and neighbours differ in value.
pub open spec fn runs_canonical(r: Seq<(u8, nat)>) -> bool {
    &&& forall|i: int| 0 <= i < r.len() ==> (#[trigger] r[i]).1 >= 1
    &&& forall|i: int, j: int|
        0 <= i && j == i + 1 && j < r.len() ==> (#[trigger] r[i]).0 != (#[trigger] r[j]).0
}

/// The palette indices of one column, bottom to top.
pub open spec fn column_of(indices: Seq<u8>, col: int) -> Seq<u8> {
    Seq::new(16, |y: int| indices[col + y * 256])
}

/// What a payload holds, over mathematical sequences. The columns of `Rle`
/// are listed in `x + z * 16` order, each as its runs from bottom to top.
#[verifier::ext_equal]
pub enum PayloadView {
    Uniform(BlockState),
    Paletted { palette: Seq<BlockState>, cells: Seq<u8> },
    Rle { palette: Seq<BlockState>, columns: Seq<Seq<(u8, nat)>> },
    Dense(Seq<BlockState>),
}

impl PayloadView {
    /// Whether every stored index names a palette entry and every cell is covered.
    pub open spec fn wf(self) -> bool {
        match self {
            PayloadView::Uniform(_) => true,
            PayloadView::Paletted { palette, cells } => {
                &&& palette.len() <= PALETTE_MAX
                &&& cells.len() == BRICK_VOLUME
                &&& forall|i: int| 0 <= i < cells.len() ==> #[trigger] cells[i] < palette.len()
            },
            PayloadView::Rle { palette, columns } => {
                &&& palette.len() <= PALETTE_MAX
                &&& columns.len() == BRICK_COLUMNS
                &&& forall|c: int|
                    0 <= c < columns.len() ==> expand(#[trigger] columns[c]).len() == 16
                &&& forall|c: int, k: int|
                    0 <= c < columns.len() && 0 <= k < columns[c].len() ==> (
                    #[trigger] columns[c][k]).0 < palette.len()
            },
            PayloadView::Dense(cells) => cells.len() == BRICK_VOLUME,
        }
    }

    /// The block in cell `i`, in `cell_index` order.
    pub open spec fn cell(self, i: int) -> BlockState {
        match self {
            PayloadView::Uniform(v) => v,
            PayloadView::Paletted { palette, cells } => palette[cells[i] as int],
            PayloadView::Rle { palette, columns } => palette[expand(
                columns[i % 256],
            )[i / 256] as int],
            PayloadView::Dense(cells) => cells[i],
        }
    }

    /// All cells, in `cell_index` order.
    pub open spec fn cells(self) -> Seq<BlockState> {
        Seq::new(BRICK_VOLUME as nat, |i: int| self.cell(i))
    }
}

/// Whether all values of `cells` agree with the first.
pub open spec fn all_equal<T>(cells: Seq<T>) -> bool {
    forall|i: int| 0 <= i < cells.len() ==> #[trigger] cells[i] == cells[0]
}

/// The palette index of each cell.
pub open spec fn palette_indices<T>(palette: Seq<T>, cells: Seq<T>) -> Seq<u8> {
    Seq::new(cells.len(), |i: int| palette.index_of(cells[i]) as u8)
}

/// The one packing of `cells` under `strategy`: uniform where all cells agree;
/// else palette-indexed, as cells or as runs, while the palette has at most
/// `PALETTE_MAX` entries; else dense.
pub open spec fn canonical(cells: Seq<BlockState>, strategy: PackStrategy) -> PayloadView {
    let palette = dedup(cells);
    let indices = palette_indices(palette, cells);
    if all_equal(cells) {
        PayloadView::Uniform(cells[0])
    } else if palette.len() > PALETTE_MAX {
        PayloadView::Dense(cells)
    } else {
        match strategy {
            PackStrategy::Paletted => PayloadView::Paletted { palette, cells: indices },
            PackStrategy::Rle => PayloadView::Rle {
                palette,
                columns: Seq::new(BRICK_COLUMNS as nat, |c: int| rle(column_of(indices, c))),
            },
        }
    }
}

/// Strategy hint for the Paletted/Rle choice of [`BrickPayload::from_cells`].
#[derive(Clone, Copy, PartialEq, Eq, Debug, Structural)]
pub enum PackStrategy {
    Paletted,
    Rle,
}

pub proof fn lemma_dedup<T>(s: Seq<T>)
    ensures
        dedup(s).no_duplicates(),
        dedup(s).len() <= s.len(),
        forall|v: T| dedup(s).contains(v) <==> s.contains(v),
    decreases s.len(),
{
    if s.len() > 0 {
        lemma_dedup(s.drop_last());
        let d = dedup(s.drop_last());
        assert forall|v: T| dedup(s).contains(v) <==> s.contains(v) by {
            if s.contains(v) {
                let k = choose|k: int| 0 <= k < s.len() && s[k] == v;
                if k < s.len() - 1 {
                    assert(s.drop_last()[k] == v);
                    assert(s.drop_last().contains(v));
                    assert(d.contains(v));
                    let j = choose|j: int| 0 <= j < d.len() && d[j] == v;
                    assert(dedup(s)[j] == v);
                } else if !d.contains(v) {
                    assert(dedup(s)[d.len() as int] == v);
                }
            }
            if dedup(s).contains(v) {
                let j = choose|j: int| 0 <= j < dedup(s).len() && dedup(s)[j] == v;
                if j < d.len() {
                    assert(d[j] == v);
                    assert(s.drop_last().contains(v));
                    let k = choose|k: int|
                        0 <= k < s.drop_last().len() && s.drop_last()[k] == v;
                    assert(s[k] == v);
                } else {
                    assert(s[s.len() - 1] == v);
                }
            }
        }
    }
}

pub proof fn lemma_dedup_prefix<T>(s: Seq<T>, n: int)
    requires
        0 <= n <= s.len(),
    ensures
        dedup(s.take(n)).len() <= dedup(s).len(),
        dedup(s).take(dedup(s.take(n)).len() as int) =~= dedup(s.take(n)),
    decreases s.len() - n,
{
    if n < s.len() {
        lemma_dedup_prefix(s, n + 1);
        assert(s.take(n + 1).drop_last() =~= s.take(n));
        let a = dedup(s.take(n));
        let b = dedup(s.take(n + 1));
        assert(b.take(a.len() as int) =~= a);
        assert(dedup(s).take(a.len() as int) =~= dedup(s).take(b.len() as int).take(
            a.len() as int,
        ));
    } else {
        assert(s.take(n) =~= s);
    }
}

pub proof fn lemma_rle(s: Seq<u8>)
    ensures
        expand(rle(s)) =~= s,
        runs_canonical(rle(s)),
        rle(s).len() <= s.len(),
        s.len() > 0 ==> rle(s).len() > 0 && rle(s).last().0 == s.last(),
        forall|k: int| 0 <= k < rle(s).len() ==> s.contains((#[trigger] rle(s)[k]).0),
        forall|k: int| 0 <= k < rle(s).len() ==> (#[trigger] rle(s)[k]).1 <= s.len(),
    decreases s.len(),
{
    if s.len() > 0 {
        let t = s.drop_last();
        lemma_rle(t);
        let r = rle(t);
        assert forall|v: u8| t.contains(v) implies s.contains(v) by {
            let k = choose|k: int| 0 <= k < t.len() && t[k] == v;
            assert(s[k] == v);
        }
        assert(s[s.len() - 1] == s.last());
        if r.len() > 0 && r.last().0 == s.last() {
            let u = rle(s);
            assert(u.drop_last() =~= r.drop_last());
            assert(expand(u) =~= expand(r) + seq![s.last()]);
        } else {
            assert(rle(s).drop_last() =~= r);
            assert(expand(rle(s)) =~= expand(r) + seq![s.last()]);
        }
        assert(s =~= t + seq![s.last()]);
    }
}

/// Vertical run-length columns: a flat run buffer plus one cumulative end
/// offset per `(x, z)` column, in `x + z * 16` order. Each column's counts sum
/// to 16 and neighbouring runs differ.
#[derive(PartialEq, Eq, Debug)]
pub struct RleColumns {
    runs: Vec<Run>,
    column_ends: Vec<u16>,
}

/// Runs as (index, length) pairs.
pub open spec fn run_pairs(runs: Seq<Run>) -> Seq<(u8, nat)> {
    Seq::new(runs.len(), |i: int| (runs[i].index_spec(), runs[i].count_spec() as nat))
}

/// Whether runs fill exactly one 16-cell column, with no two neighbours equal.
pub open spec fn column_complete(runs: Seq<Run>) -> bool {
    &&& runs_canonical(run_pairs(runs))
    &&& expand(run_pairs(runs)).len() == 16
}

/// The offset at which column `c` starts: the previous column's end.
spec fn column_start(ends: Seq<u16>, c: int) -> int {
    if c <= 0 {
        0
    } else {
        ends[c - 1] as int
    }
}

/// The runs of column `c`.
spec fn column_slice(runs: Seq<Run>, ends: Seq<u16>, c: int) -> Seq<Run> {
    runs.subrange(column_start(ends, c), ends[c] as int)
}

/// Whether the end offsets are cumulative and lie within the run buffer.
spec fn ends_ordered(ends: Seq<u16>, total: nat) -> bool {
    forall|c: int|
        0 <= c < ends.len() ==> column_start(ends, c) <= (#[trigger] ends[c]) as int <= total
}

impl RleColumns {
    #[verifier::type_invariant]
    spec fn inv(self) -> bool {
        &&& self.column_ends@.len() == BRICK_COLUMNS
        &&& ends_ordered(self.column_ends@, self.runs@.len())
        &&& forall|c: int|
            0 <= c < BRICK_COLUMNS ==> column_complete(
                #[trigger] column_slice(self.runs@, self.column_ends@, c),
            )
    }

    /// The runs of each column, bottom to top, in `x + z * 16` order.
    pub closed spec fn view(self) -> Seq<Seq<(u8, nat)>> {
        Seq::new(
            BRICK_COLUMNS as nat,
            |c: int| run_pairs(column_slice(self.runs@, self.column_ends@, c)),
        )
    }

    /// Builds from one run list per column, in `x + z * 16` order.
    pub fn from_column_runs(column_runs: Vec<Vec<Run>>) -> (r: Self)
        requires
            column_runs@.len() == BRICK_COLUMNS,
            forall|c: int| 0 <= c < BRICK_COLUMNS ==> column_complete((#[trigger] column_runs@[c])@),
        ensures
            r@ == Seq::new(BRICK_COLUMNS as nat, |c: int| run_pairs(column_runs@[c]@)),
    {
        let mut runs: Vec<Run> = Vec::with_capacity(BRICK_VOLUME / 2);
        let mut column_ends: Vec<u16> = Vec::with_capacity(BRICK_COLUMNS);
        let mut c: usize = 0;
        while c < BRICK_COLUMNS
            invariant
                c <= BRICK_COLUMNS,
                column_runs@.len() == BRICK_COLUMNS,
                forall|c: int|
                    0 <= c < BRICK_COLUMNS ==> column_complete((#[trigger] column_runs@[c])@),
                column_ends@.len() == c,
                runs@.len() <= c * 16,
                runs@.len() == column_start(column_ends@, c as int),
                ends_ordered(column_ends@, runs@.len()),
                forall|d: int|
                    0 <= d < c ==> #[trigger] column_slice(runs@, column_ends@, d)
                        == column_runs@[d]@,
            decreases BRICK_COLUMNS - c,
        {
            let ghost before = runs@;
            let ghost ends = column_ends@;
            assert(column_complete(column_runs@[c as int]@));
            append_runs(&mut runs, &column_runs[c]);
            column_ends.push(runs.len() as u16);
            proof {
                lemma_column_pushed(before, ends, runs@, column_ends@, column_runs@[c as int]@);
                assert forall|d: int| 0 <= d < c + 1 implies #[trigger] column_slice(
                    runs@,
                    column_ends@,
                    d,
                ) == column_runs@[d]@ by {
                    if d < c {
                        assert(column_slice(before, ends, d) == column_runs@[d]@);
                    }
                }
            }
            c = c + 1;
        }
        proof {
            assert forall|c: int| 0 <= c < BRICK_COLUMNS implies column_complete(
                #[trigger] column_slice(runs@, column_ends@, c),
            ) by {
                assert(column_complete(column_runs@[c]@));
            }
        }
        let r = RleColumns { runs, column_ends };
        assert(r@ =~= Seq::new(BRICK_COLUMNS as nat, |c: int| run_pairs(column_runs@[c]@)));
        r
    }

    /// Runs for column `(x, z)`, in ascending-y order.
    pub fn runs_for_column(&self, x: usize, z: usize) -> (r: &[Run])
        requires
            x < BRICK_DIM,
            z < BRICK_DIM,
        ensures
            run_pairs(r@) == self@[x + z * 16],
            column_complete(r@),
    {
        proof {
            use_type_invariant(self);
        }
        let col: usize = x + z * BRICK_DIM;
        let start: usize = if col == 0 {
            0
        } else {
            self.column_ends[col - 1] as usize
        };
        let end: usize = self.column_ends[col] as usize;
        assert(start == column_start(self.column_ends@, col as int));
        assert(column_complete(column_slice(self.runs@, self.column_ends@, col as int)));
        vstd::slice::slice_subrange(self.runs.as_slice(), start, end)
    }
}

impl Clone for RleColumns {
    fn clone(&self) -> (r: Self)
        ensures
            r@ == self@,
    {
        proof {
            use_type_invariant(self);
        }
        let runs: Vec<Run> = self.runs.clone();
        let column_ends: Vec<u16> = self.column_ends.clone();
        assert(runs@ =~= self.runs@);
        assert(column_ends@ =~= self.column_ends@);
        RleColumns { runs, column_ends }
    }
}

fn append_runs(runs: &mut Vec<Run>, col: &Vec<Run>)
    requires
        column_complete(col@),
        old(runs)@.len() <= 4096,
    ensures
        final(runs)@ == old(runs)@ + col@,
        col@.len() <= 16,
{
    let ghost before = runs@;
    let mut k: usize = 0;
    while k < col.len()
        invariant
            k <= col@.len(),
            runs@ == before + col@.take(k as int),
        decreases col@.len() - k,
    {
        runs.push(col[k]);
        assert(before + col@.take(k + 1) =~= (before + col@.take(k as int)).push(col@[k as int]));
        k = k + 1;
    }
    proof {
        assert(col@.take(k as int) =~= col@);
        lemma_expand_len(run_pairs(col@));
    }
}

proof fn lemma_column_pushed(
    before: Seq<Run>,
    ends: Seq<u16>,
    runs: Seq<Run>,
    new_ends: Seq<u16>,
    col: Seq<Run>,
)
    requires
        ends_ordered(ends, before.len()),
        before.len() == column_start(ends, ends.len() as int),
        runs == before + col,
        runs.len() <= u16::MAX,
        new_ends == ends.push(runs.len() as u16),
    ensures
        ends_ordered(new_ends, runs.len()),
        column_slice(runs, new_ends, ends.len() as int) == col,
        forall|d: int|
            0 <= d < ends.len() ==> #[trigger] column_slice(runs, new_ends, d) == column_slice(
                before,
                ends,
                d,
            ),
{
    assert(column_slice(runs, new_ends, ends.len() as int) =~= col);
    assert forall|d: int| 0 <= d < ends.len() implies #[trigger] column_slice(runs, new_ends, d)
        == column_slice(before, ends, d) by {
        assert(column_start(new_ends, d) == column_start(ends, d));
        assert(new_ends[d] == ends[d]);
        assert(column_slice(runs, new_ends, d) =~= column_slice(before, ends, d));
    }
    assert forall|c: int| 0 <= c < new_ends.len() implies column_start(new_ends, c) <= (
    #[trigger] new_ends[c]) as int <= runs.len() by {
        if c < ends.len() {
            assert(new_ends[c] == ends[c]);
            assert(column_start(new_ends, c) == column_start(ends, c));
        }
    }
}

proof fn lemma_expand_len(r: Seq<(u8, nat)>)
    requires
        forall|i: int| 0 <= i < r.len() ==> (#[trigger] r[i]).1 >= 1,
    ensures
        r.len() <= expand(r).len(),
    decreases r.len(),
{
    if r.len() > 0 {
        assert forall|i: int| 0 <= i < r.drop_last().len() implies (#[trigger] r.drop_last()[i]).1
            >= 1 by {
            assert(r.drop_last()[i] == r[i]);
        }
        lemma_expand_len(r.drop_last());
    }
}

/// Packed brick contents.
#[derive(Clone, PartialEq, Eq, Debug)]
pub enum BrickPayload {
    Uniform(BlockState),
    /// One palette index per cell.
    Paletted { palette: Vec<BlockState>, cells: Vec<u8> },
    /// Vertical runs, one column list per `(x, z)`.
    Rle { palette: Vec<BlockState>, columns: RleColumns },
    /// One full block state per cell, for more than [`PALETTE_MAX`] values.
    Dense(Vec<BlockState>),
}

/// A chunk's packed contents: the packings of [`BrickPayload`] without runs.
#[derive(Clone, PartialEq, Eq, Debug)]
pub enum ChunkPayload {
    Uniform(BlockState),
    Paletted { palette: Vec<BlockState>, cells: Box<[u8; BRICK_VOLUME]> },
    Dense(Box<[BlockState; BRICK_VOLUME]>),
}

/// The first position of `v` in `palette`, if it occurs.
pub fn palette_position(palette: &Vec<BlockState>, v: BlockState) -> (r: Option<usize>)
    ensures
        match r {
            Some(k) => k < palette@.len() && palette@[k as int] == v && forall|j: int|
                0 <= j < k ==> #[trigger] palette@[j] != v,
            None => !palette@.contains(v),
        },
{
    let mut k: usize = 0;
    while k < palette.len()
        invariant
            k <= palette@.len(),
            forall|j: int| 0 <= j < k ==> #[trigger] palette@[j] != v,
        decreases palette@.len() - k,
    {
        if palette[k] == v {
            return Some(k);
        }
        k = k + 1;
    }
    None
}

/// The deduplicated palette of `cells` with each cell's index in it, or `None`
/// where the palette would pass [`PALETTE_MAX`].
fn palettize(cells: &[BlockState; BRICK_VOLUME]) -> (r: Option<(Vec<BlockState>, Vec<u8>)>)
    ensures
        match r {
            Some((palette, indices)) => {
                &&& dedup(cells@).len() <= PALETTE_MAX
                &&& palette@ == dedup(cells@)
                &&& indices@ == palette_indices(palette@, cells@)
                &&& forall|i: int|
                    0 <= i < BRICK_VOLUME ==> (#[trigger] indices@[i]) < palette@.len()
                        && palette@[indices@[i] as int] == cells@[i]
            },
            None => dedup(cells@).len() > PALETTE_MAX,
        },
{
    let mut palette: Vec<BlockState> = Vec::new();
    let mut indices: Vec<u8> = Vec::with_capacity(BRICK_VOLUME);
    let mut i: usize = 0;
    assert(cells@.take(0) =~= Seq::empty());
    while i < BRICK_VOLUME
        invariant
            i <= BRICK_VOLUME,
            cells@.len() == BRICK_VOLUME,
            palette@ == dedup(cells@.take(i as int)),
            palette@.len() <= PALETTE_MAX,
            indices@.len() == i,
            forall|j: int|
                0 <= j < i ==> (#[trigger] indices@[j]) < palette@.len()
                    && palette@[indices@[j] as int] == cells@[j],
        decreases BRICK_VOLUME - i,
    {
        let cell: BlockState = cells[i];
        proof {
            assert(cells@.take(i + 1).drop_last() =~= cells@.take(i as int));
            assert(cells@.take(i + 1).last() == cell);
            lemma_dedup(cells@.take(i as int));
        }
        match palette_position(&palette, cell) {
            Some(k) => {
                indices.push(k as u8);
            },
            None => {
                palette.push(cell);
                if palette.len() > PALETTE_MAX {
                    proof {
                        lemma_dedup_prefix(cells@, i + 1);
                    }
                    return None;
                }
                indices.push((palette.len() - 1) as u8);
            },
        }
        i = i + 1;
    }
    proof {
        assert(cells@.take(i as int) =~= cells@);
        lemma_dedup(cells@);
        assert forall|j: int| 0 <= j < BRICK_VOLUME implies indices@[j] == #[trigger] (
        palette_indices(palette@, cells@)[j]) by {
            assert(palette@[indices@[j] as int] == cells@[j]);
            assert(palette@.contains(cells@[j]));
        }
        assert(indices@ =~= palette_indices(palette@, cells@));
    }
    Some((palette, indices))
}

/// The runs of column `col`.
fn pack_column(indices: &Vec<u8>, col: usize) -> (runs: Vec<Run>)
    requires
        indices@.len() == BRICK_VOLUME,
        col < BRICK_COLUMNS,
    ensures
        run_pairs(runs@) == rle(column_of(indices@, col as int)),
        column_complete(runs@),
{
    let ghost column = column_of(indices@, col as int);
    let mut runs: Vec<Run> = Vec::new();
    let mut y: usize = 0;
    assert(run_pairs(runs@) =~= rle(column.take(0)));
    while y < BRICK_DIM
        invariant
            y <= BRICK_DIM,
            indices@.len() == BRICK_VOLUME,
            col < BRICK_COLUMNS,
            column == column_of(indices@, col as int),
            run_pairs(runs@) == rle(column.take(y as int)),
        decreases BRICK_DIM - y,
    {
        let idx: u8 = indices[col + y * BRICK_COLUMNS];
        let ghost before = runs@;
        proof {
            assert(column.take(y + 1).drop_last() =~= column.take(y as int));
            assert(column.take(y + 1).last() == idx);
            lemma_rle(column.take(y as int));
        }
        let n: usize = runs.len();
        if n > 0 && runs[n - 1].palette_index() == idx {
            let count: u8 = runs[n - 1].count();
            proof {
                assert(rle(column.take(y as int))[n - 1].1 == count);
            }
            runs.set(n - 1, Run::new(idx, count + 1));
            assert(run_pairs(runs@) =~= rle(column.take(y + 1)));
        } else {
            proof {
                if n > 0 {
                    assert(run_pairs(before).last() == (
                        before[n - 1].index_spec(),
                        before[n - 1].count_spec() as nat,
                    ));
                }
            }
            runs.push(Run::new(idx, 1));
            assert(run_pairs(runs@) =~= rle(column.take(y + 1)));
        }
        y = y + 1;
    }
    proof {
        assert(column.take(16) =~= column);
        lemma_rle(column);
    }
    runs
}

impl BrickPayload {
    /// The stored contents.
    pub open spec fn view(self) -> PayloadView {
        match self {
            BrickPayload::Uniform(v) => PayloadView::Uniform(v),
            BrickPayload::Paletted { palette, cells } => PayloadView::Paletted {
                palette: palette@,
                cells: cells@,
            },
            BrickPayload::Rle { palette, columns } => PayloadView::Rle {
                palette: palette@,
                columns: columns@,
            },
            BrickPayload::Dense(cells) => PayloadView::Dense(cells@),
        }
    }

    /// The canonical packing of `cells`, which are in `cell_index` order. It is
    /// a function of the cells and the strategy alone, and loses nothing.
    pub fn from_cells(cells: &[BlockState; BRICK_VOLUME], strategy: PackStrategy) -> (r:
        BrickPayload)
        ensures
            r@ == canonical(cells@, strategy),
            r@.wf(),
            r@.cells() == cells@,
    {
        let first: BlockState = cells[0];
        let mut same: bool = true;
        let mut i: usize = 0;
        while i < BRICK_VOLUME && same
            invariant
                i <= BRICK_VOLUME,
                first == cells@[0],
                cells@.len() == BRICK_VOLUME,
                same ==> forall|j: int| 0 <= j < i ==> #[trigger] cells@[j] == first,
                !same ==> exists|j: int| 0 <= j < BRICK_VOLUME && #[trigger] cells@[j] != first,
            decreases BRICK_VOLUME - i,
        {
            if cells[i] != first {
                same = false;
            }
            i = i + 1;
        }
        if same {
            let r = BrickPayload::Uniform(first);
            assert(r@.cells() =~= cells@);
            return r;
        }
        match palettize(cells) {
            None => {
                let mut dense: Vec<BlockState> = Vec::with_capacity(BRICK_VOLUME);
                let mut j: usize = 0;
                while j < BRICK_VOLUME
                    invariant
                        j <= BRICK_VOLUME,
                        cells@.len() == BRICK_VOLUME,
                        dense@ == cells@.take(j as int),
                    decreases BRICK_VOLUME - j,
                {
                    dense.push(cells[j]);
                    assert(cells@.take(j + 1) =~= cells@.take(j as int).push(cells@[j as int]));
                    j = j + 1;
                }
                assert(cells@.take(j as int) =~= cells@);
                let r = BrickPayload::Dense(dense);
                assert(r@.cells() =~= cells@);
                r
            },
            Some((palette, indices)) => match strategy {
                PackStrategy::Paletted => {
                    let r = BrickPayload::Paletted { palette, cells: indices };
                    assert(r@.cells() =~= cells@);
                    r
                },
                PackStrategy::Rle => {
                    let mut column_runs: Vec<Vec<Run>> = Vec::with_capacity(BRICK_COLUMNS);
                    let mut c: usize = 0;
                    while c < BRICK_COLUMNS
                        invariant
                            c <= BRICK_COLUMNS,
                            indices@.len() == BRICK_VOLUME,
                            column_runs@.len() == c,
                            forall|d: int|
                                0 <= d < c ==> run_pairs((#[trigger] column_runs@[d])@) == rle(
                                    column_of(indices@, d),
                                ) && column_complete(column_runs@[d]@),
                        decreases BRICK_COLUMNS - c,
                    {
                        let runs: Vec<Run> = pack_column(&indices, c);
                        column_runs.push(runs);
                        c = c + 1;
                    }
                    let ghost lists = column_runs@;
                    let columns = RleColumns::from_column_runs(column_runs);
                    let ghost palette_seq = palette@;
                    let r = BrickPayload::Rle { palette, columns };
                    proof {
                        assert(columns@ =~= Seq::new(
                            BRICK_COLUMNS as nat,
                            |c: int| rle(column_of(indices@, c)),
                        ));
                        lemma_rle_payload(palette_seq, indices@, columns@, cells@);
                        assert(r@.cells() =~= cells@);
                    }
                    r
                },
            },
        }
    }
}

proof fn lemma_rle_payload(
    palette: Seq<BlockState>,
    indices: Seq<u8>,
    columns: Seq<Seq<(u8, nat)>>,
    cells: Seq<BlockState>,
)
    requires
        palette.len() <= PALETTE_MAX,
        indices.len() == BRICK_VOLUME,
        cells.len() == BRICK_VOLUME,
        columns == Seq::new(BRICK_COLUMNS as nat, |c: int| rle(column_of(indices, c))),
        forall|i: int|
            0 <= i < BRICK_VOLUME ==> (#[trigger] indices[i]) < palette.len()
                && palette[indices[i] as int] == cells[i],
    ensures
        (PayloadView::Rle { palette, columns }).wf(),
        (PayloadView::Rle { palette, columns }).cells() == cells,
{
    let v = PayloadView::Rle { palette, columns };
    assert forall|c: int| 0 <= c < columns.len() implies expand(#[trigger] columns[c]).len()
        == 16 by {
        lemma_rle(column_of(indices, c));
    }
    assert forall|c: int, k: int| 0 <= c < columns.len() && 0 <= k < columns[c].len() implies (
    #[trigger] columns[c][k]).0 < palette.len() by {
        let column = column_of(indices, c);
        lemma_rle(column);
        let y = choose|y: int| 0 <= y < column.len() && column[y] == columns[c][k].0;
        assert(indices[c + y * 256] < palette.len());
    }
    assert forall|i: int| 0 <= i < BRICK_VOLUME implies v.cell(i) == #[trigger] cells[i] by {
        let column = column_of(indices, i % 256);
        lemma_rle(column);
        assert(column[i / 256] == indices[i]);
    }
    assert(v.cells() =~= cells);
}

proof fn lemma_expand_push(r: Seq<(u8, nat)>, k: int)
    requires
        0 <= k < r.len(),
    ensures
        expand(r.take(k + 1)) == expand(r.take(k)) + Seq::new(r[k].1, |i: int| r[k].0),
{
    assert(r.take(k + 1).drop_last() =~= r.take(k));
}

proof fn lemma_expand_prefix(r: Seq<(u8, nat)>, k: int)
    requires
        0 <= k <= r.len(),
    ensures
        expand(r.take(k)).len() <= expand(r).len(),
        expand(r).take(expand(r.take(k)).len() as int) == expand(r.take(k)),
    decreases r.len() - k,
{
    if k < r.len() {
        lemma_expand_prefix(r, k + 1);
        lemma_expand_push(r, k);
        let a = expand(r.take(k));
        let b = expand(r.take(k + 1));
        assert(b.take(a.len() as int) =~= a);
        assert(expand(r).take(a.len() as int) =~= expand(r).take(b.len() as int).take(
            a.len() as int,
        ));
    } else {
        assert(r.take(k) =~= r);
        assert(expand(r).take(expand(r).len() as int) =~= expand(r));
    }
}

/// Writes the cells of column `col` that its runs stand for.
fn unpack_column(
    palette: &Vec<BlockState>,
    runs: &[Run],
    col: usize,
    out: &mut [BlockState; BRICK_VOLUME],
)
    requires
        col < BRICK_COLUMNS,
        column_complete(runs@),
        forall|k: int| 0 <= k < runs@.len() ==> (#[trigger] run_pairs(runs@)[k]).0 < palette@.len(),
    ensures
        forall|y: int|
            0 <= y < 16 ==> #[trigger] final(out)@[col + y * 256] == palette@[expand(
                run_pairs(runs@),
            )[y] as int],
        forall|i: int|
            0 <= i < BRICK_VOLUME && i % 256 != col ==> #[trigger] final(out)@[i] == old(out)@[i],
{
    let ghost before = out@;
    let ghost pairs = run_pairs(runs@);
    let ghost values = expand(pairs);
    let mut y: usize = 0;
    let mut k: usize = 0;
    assert(pairs.take(0) =~= Seq::empty());
    while k < runs.len()
        invariant
            k <= runs@.len(),
            col < BRICK_COLUMNS,
            pairs == run_pairs(runs@),
            values == expand(pairs),
            values.len() == 16,
            y == expand(pairs.take(k as int)).len(),
            y <= 16,
            forall|k: int| 0 <= k < runs@.len() ==> (#[trigger] pairs[k]).0 < palette@.len(),
            forall|t: int|
                0 <= t < y ==> #[trigger] out@[col + t * 256] == palette@[values[t] as int],
            forall|i: int|
                0 <= i < BRICK_VOLUME && i % 256 != col ==> #[trigger] out@[i] == before[i],
        decreases runs@.len() - k,
    {
        proof {
            lemma_expand_push(pairs, k as int);
            lemma_expand_prefix(pairs, k + 1);
            assert(pairs[k as int].0 < palette@.len());
        }
        let v: BlockState = palette[runs[k].palette_index() as usize];
        let count: u8 = runs[k].count();
        let ghost base = y as int;
        proof {
            let b = expand(pairs.take(k + 1));
            assert forall|t: int| base <= t < base + count implies palette@[#[trigger] values[t] as int]
                == v by {
                assert(values.take(b.len() as int)[t] == b[t]);
            }
        }
        let mut n: u8 = 0;
        while n < count
            invariant
                n <= count,
                col < BRICK_COLUMNS,
                y == base + n,
                base + count <= 16,
                values.len() == 16,
                forall|t: int|
                    base <= t < base + count ==> palette@[#[trigger] values[t] as int] == v,
                forall|t: int|
                    0 <= t < y ==> #[trigger] out@[col + t * 256] == palette@[values[t] as int],
                forall|i: int|
                    0 <= i < BRICK_VOLUME && i % 256 != col ==> #[trigger] out@[i] == before[i],
            decreases count - n,
        {
            proof {
                assert(palette@[values[y as int] as int] == v);
            }
            out[col + y * BRICK_COLUMNS] = v;
            y = y + 1;
            n = n + 1;
        }
        k = k + 1;
    }
    assert(pairs.take(k as int) =~= pairs);
}

impl BrickPayload {
    /// The cells in `cell_index` order: the inverse of [`Self::from_cells`].
    pub fn cells(&self) -> (r: Box<[BlockState; BRICK_VOLUME]>)
        requires
            self@.wf(),
        ensures
            r@ == self@.cells(),
    {
        let mut out: [BlockState; BRICK_VOLUME] = [BlockState { id: BlockId(0), state: 0 };
            BRICK_VOLUME];
        match self {
            BrickPayload::Uniform(v) => {
                let mut i: usize = 0;
                while i < BRICK_VOLUME
                    invariant
                        i <= BRICK_VOLUME,
                        forall|j: int| 0 <= j < i ==> #[trigger] out@[j] == v,
                    decreases BRICK_VOLUME - i,
                {
                    out[i] = *v;
                    i = i + 1;
                }
            },
            BrickPayload::Paletted { palette, cells } => {
                let mut i: usize = 0;
                while i < BRICK_VOLUME
                    invariant
                        i <= BRICK_VOLUME,
                        cells@.len() == BRICK_VOLUME,
                        forall|j: int|
                            0 <= j < cells@.len() ==> #[trigger] cells@[j] < palette@.len(),
                        forall|j: int|
                            0 <= j < i ==> #[trigger] out@[j] == palette@[cells@[j] as int],
                    decreases BRICK_VOLUME - i,
                {
                    out[i] = palette[cells[i] as usize];
                    i = i + 1;
                }
            },
            BrickPayload::Rle { palette, columns } => {
                let mut c: usize = 0;
                while c < BRICK_COLUMNS
                    invariant
                        c <= BRICK_COLUMNS,
                        self@ == (PayloadView::Rle { palette: palette@, columns: columns@ }),
                        self@.wf(),
                        forall|i: int|
                            0 <= i < BRICK_VOLUME && i % 256 < c ==> #[trigger] out@[i]
                                == self@.cell(i),
                    decreases BRICK_COLUMNS - c,
                {
                    let runs: &[Run] = columns.runs_for_column(c % BRICK_DIM, c / BRICK_DIM);
                    let ghost before = out@;
                    proof {
                        assert(run_pairs(runs@) == columns@[c as int]);
                        assert forall|k: int| 0 <= k < runs@.len() implies (#[trigger] run_pairs(
                            runs@,
                        )[k]).0 < palette@.len() by {
                            assert(columns@[c as int][k].0 < palette@.len());
                        }
                    }
                    unpack_column(palette, runs, c, &mut out);
                    proof {
                        assert forall|i: int|
                            0 <= i < BRICK_VOLUME && i % 256 < c + 1 implies #[trigger] out@[i]
                            == self@.cell(i) by {
                            if i % 256 == c {
                                assert(i == c + (i / 256) * 256);
                            } else {
                                assert(out@[i] == before[i]);
                            }
                        }
                    }
                    c = c + 1;
                }
            },
            BrickPayload::Dense(cells) => {
                let mut i: usize = 0;
                while i < BRICK_VOLUME
                    invariant
                        i <= BRICK_VOLUME,
                        cells@.len() == BRICK_VOLUME,
                        forall|j: int| 0 <= j < i ==> #[trigger] out@[j] == cells@[j],
                    decreases BRICK_VOLUME - i,
                {
                    out[i] = cells[i];
                    i = i + 1;
                }
            },
        }
        assert(out@ =~= self@.cells());
        Box::new(out)
    }
}

/// Packing loses nothing: whatever the strategy, the canonical payload of some
/// cells is well formed and unpacks to exactly those cells.
pub proof fn lemma_canonical_lossless(cells: Seq<BlockState>, strategy: PackStrategy)
    requires
        cells.len() == BRICK_VOLUME,
    ensures
        canonical(cells, strategy).wf(),
        canonical(cells, strategy).cells() == cells,
{
    let palette = dedup(cells);
    let indices = palette_indices(palette, cells);
    let v = canonical(cells, strategy);
    lemma_dedup(cells);
    if !all_equal(cells) && palette.len() <= PALETTE_MAX {
        assert forall|i: int| 0 <= i < BRICK_VOLUME implies (#[trigger] indices[i])
            < palette.len() && palette[indices[i] as int] == cells[i] by {
            assert(cells.contains(cells[i]));
            assert(palette.contains(cells[i]));
        }
        match strategy {
            PackStrategy::Paletted => {},
            PackStrategy::Rle => {
                lemma_rle_payload(palette, indices, v->Rle_columns, cells);
            },
        }
    }
    assert(v.cells() =~= cells);
}

/// Cells are packed in the smallest form that holds them: one value where all are alike,
/// places in a palette where no more than a palette holds occur, which lists each of them
/// once, and every cell otherwise.
pub proof fn lemma_smallest_form(cells: Seq<BlockState>, strategy: PackStrategy)
    ensures
        ({
            let p = canonical(cells, strategy);
            let alike = forall|i: int| 0 <= i < cells.len() ==> #[trigger] cells[i] == cells[0];
            &&& p is Uniform <==> alike
            &&& p matches PayloadView::Dense(all) ==> all == cells && dedup(cells).len() > 256
            &&& p is Paletted ==> strategy == PackStrategy::Paletted && p->Paletted_palette.len()
                <= 256 && p->Paletted_palette.no_duplicates()
            &&& p is Rle ==> strategy == PackStrategy::Rle && p->Rle_palette.len() <= 256
                && p->Rle_palette.no_duplicates()
        }),
{
    lemma_dedup(cells);
    assert(all_equal(cells) <==> forall|i: int|
        0 <= i < cells.len() ==> #[trigger] cells[i] == cells[0]);
}

} // verus!
