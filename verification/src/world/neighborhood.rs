//! A chunk's cells with a shell, one cell deep, of its neighbours' cells.
use vstd::prelude::*;

use crate::block::BlockId;
use crate::world::brick::cell_index_spec;
use crate::world::chunk::{Chunk, CHUNK_VOLUME};
use crate::world::light::{LightGrid, Lumel};

verus! {

/// Cells along one side: sixteen and the shell.
pub const PADDED_SIZE: usize = 18;

/// Cells of a neighbourhood.
pub const PADDED_VOLUME: usize = 5832;

/// Whether a coordinate lies in the chunk or its shell.
pub open spec fn padded(c: int) -> bool {
    -1 <= c <= 16
}

/// The place of the cell at `x, y, z`, each in `-1..=16`: x fastest, then z, then y.
pub open spec fn padded_index_spec(x: int, y: int, z: int) -> int {
    (x + 1) + (z + 1) * 18 + (y + 1) * 324
}

/// The place of the cell at `x, y, z`, each in `-1..=16`: x fastest, then z, then y.
pub fn padded_index(x: i32, y: i32, z: i32) -> (i: usize)
    requires
        padded(x as int),
        padded(y as int),
        padded(z as int),
    ensures
        i == padded_index_spec(x as int, y as int, z as int),
        i < PADDED_VOLUME,
{
    ((x + 1) + (z + 1) * 18 + (y + 1) * 324) as usize
}

/// The chunk that a padded coordinate falls in: -1, 0 or 1.
pub open spec fn side(c: int) -> int {
    if c < 0 {
        -1
    } else if c > 15 {
        1
    } else {
        0
    }
}

/// The coordinate within that chunk.
pub open spec fn inside(c: int) -> int {
    if c < 0 {
        15
    } else if c > 15 {
        0
    } else {
        c
    }
}

/// The place of a chunk offset among the 27 around a chunk.
pub open spec fn offset_index(dx: int, dy: int, dz: int) -> int {
    (dx + 1) + (dz + 1) * 3 + (dy + 1) * 9
}

/// A box of 16 x 16 x 16 cells.
pub trait CellBox {
    type Cell: Copy;

    /// Whether the box can be read.
    spec fn readable(&self) -> bool;

    /// The cell at a flat index.
    spec fn cell_of(&self, i: int) -> Self::Cell;

    /// The cell at a flat index.
    fn read(&self, i: usize) -> (c: Self::Cell)
        requires
            self.readable(),
            i < CHUNK_VOLUME,
        ensures
            c == self.cell_of(i as int),
    ;
}

impl CellBox for Chunk {
    type Cell = BlockId;

    open spec fn readable(&self) -> bool {
        self.wf()
    }

    open spec fn cell_of(&self, i: int) -> BlockId {
        self.cell(i)
    }

    fn read(&self, i: usize) -> (c: BlockId) {
        self.get_index(i)
    }
}

impl CellBox for LightGrid {
    type Cell = Lumel;

    open spec fn readable(&self) -> bool {
        self.wf()
    }

    open spec fn cell_of(&self, i: int) -> Lumel {
        self.cell(i)
    }

    fn read(&self, i: usize) -> (c: Lumel) {
        self.at(i)
    }
}

/// The cells at `-1..=16` along each axis.
pub struct Neighborhood<T> {
    cells: Vec<T>,
}

/// What a lookup of the 27 chunks around a cell answered.
pub open spec fn answered<'a, C, F: Fn(i32, i32, i32) -> Option<&'a C>>(
    box_at: F,
    boxes: Seq<Option<&'a C>>,
) -> bool {
    &&& boxes.len() == 27
    &&& forall|dx: i32, dy: i32, dz: i32|
        -1 <= dx <= 1 && -1 <= dy <= 1 && -1 <= dz <= 1 ==> #[trigger] call_ensures(
            box_at,
            (dx, dy, dz),
            boxes[offset_index(dx as int, dy as int, dz as int)],
        )
}

/// The cell that 27 boxes show at `x, y, z`.
pub open spec fn shown<'a, C: CellBox>(
    outside: C::Cell,
    boxes: Seq<Option<&'a C>>,
    x: int,
    y: int,
    z: int,
) -> C::Cell {
    match boxes[offset_index(side(x), side(y), side(z))] {
        Some(b) => b.cell_of(cell_index_spec(inside(x), inside(y), inside(z))),
        None => outside,
    }
}

impl<T: Copy> Neighborhood<T> {
    pub closed spec fn wf(self) -> bool {
        self.cells@.len() == PADDED_VOLUME
    }

    /// The cell at `x, y, z`, each in `-1..=16`.
    pub closed spec fn cell(self, x: int, y: int, z: int) -> T {
        self.cells@[padded_index_spec(x, y, z)]
    }

    /// The same cell everywhere.
    pub fn filled(v: T) -> (n: Self)
        ensures
            n.wf(),
            forall|x: int, y: int, z: int|
                padded(x) && padded(y) && padded(z) ==> #[trigger] n.cell(x, y, z) == v,
    {
        let mut cells: Vec<T> = Vec::with_capacity(PADDED_VOLUME);
        while cells.len() < PADDED_VOLUME
            invariant
                cells@.len() <= PADDED_VOLUME,
                forall|i: int| 0 <= i < cells@.len() ==> #[trigger] cells@[i] == v,
            decreases PADDED_VOLUME - cells@.len(),
        {
            cells.push(v);
        }
        Neighborhood { cells }
    }

    /// The cell at `x, y, z`, each in `-1..=16`.
    pub fn at(&self, x: i32, y: i32, z: i32) -> (c: T)
        requires
            self.wf(),
            padded(x as int),
            padded(y as int),
            padded(z as int),
        ensures
            c == self.cell(x as int, y as int, z as int),
    {
        self.cells[padded_index(x, y, z)]
    }

    /// The cells that `f` gives.
    pub fn from_fn<F: Fn(i32, i32, i32) -> T>(f: F) -> (n: Self)
        requires
            forall|x: i32, y: i32, z: i32|
                padded(x as int) && padded(y as int) && padded(z as int)
                    ==> #[trigger] call_requires(f, (x, y, z)),
        ensures
            n.wf(),
            forall|x: i32, y: i32, z: i32|
                padded(x as int) && padded(y as int) && padded(z as int) ==> call_ensures(
                    f,
                    (x, y, z),
                    #[trigger] n.cell(x as int, y as int, z as int),
                ),
    {
        let mut cells: Vec<T> = Vec::with_capacity(PADDED_VOLUME);
        while cells.len() < PADDED_VOLUME
            invariant
                forall|x: i32, y: i32, z: i32|
                    padded(x as int) && padded(y as int) && padded(z as int)
                        ==> #[trigger] call_requires(f, (x, y, z)),
                cells@.len() <= PADDED_VOLUME,
                forall|i: int|
                    0 <= i < cells@.len() ==> call_ensures(
                        f,
                        ((i % 18 - 1) as i32, (i / 324 - 1) as i32, ((i / 18) % 18 - 1) as i32),
                        #[trigger] cells@[i],
                    ),
            decreases PADDED_VOLUME - cells@.len(),
        {
            let i: i32 = cells.len() as i32;
            let (x, y, z): (i32, i32, i32) = (i % 18 - 1, i / 324 - 1, (i / 18) % 18 - 1);
            let c = f(x, y, z);
            cells.push(c);
        }
        let n = Neighborhood { cells };
        proof {
            assert forall|x: i32, y: i32, z: i32|
                padded(x as int) && padded(y as int) && padded(z as int) implies call_ensures(
                f,
                (x, y, z),
                #[trigger] n.cell(x as int, y as int, z as int),
            ) by {
                lemma_padded_coords(x as int, y as int, z as int);
                let i = padded_index_spec(x as int, y as int, z as int);
                assert(call_ensures(
                    f,
                    ((i % 18 - 1) as i32, (i / 324 - 1) as i32, ((i / 18) % 18 - 1) as i32),
                    cells@[i],
                ));
            }
        }
        n
    }

    /// Copies a chunk and its shell from the 27 boxes around it; a missing box shows
    /// `outside`.
    pub fn capture<'a, C: CellBox<Cell = T> + 'a, F: Fn(i32, i32, i32) -> Option<&'a C>>(
        outside: T,
        box_at: F,
    ) -> (n: Self)
        requires
            forall|dx: i32, dy: i32, dz: i32|
                -1 <= dx <= 1 && -1 <= dy <= 1 && -1 <= dz <= 1 ==> #[trigger] call_requires(
                    box_at,
                    (dx, dy, dz),
                ),
            forall|dx: i32, dy: i32, dz: i32, b: &C| #[trigger]
                call_ensures(box_at, (dx, dy, dz), Some(b)) ==> b.readable(),
        ensures
            n.wf(),
            exists|boxes: Seq<Option<&'a C>>| #[trigger]
                answered(box_at, boxes) && forall|x: int, y: int, z: int|
                    padded(x) && padded(y) && padded(z) ==> #[trigger] n.cell(x, y, z) == shown(
                        outside,
                        boxes,
                        x,
                        y,
                        z,
                    ),
    {
        let mut boxes: Vec<Option<&'a C>> = Vec::with_capacity(27);
        while boxes.len() < 27
            invariant
                boxes@.len() <= 27,
                forall|dx: i32, dy: i32, dz: i32|
                    -1 <= dx <= 1 && -1 <= dy <= 1 && -1 <= dz <= 1 ==> #[trigger] call_requires(
                        box_at,
                        (dx, dy, dz),
                    ),
                forall|k: int|
                    0 <= k < boxes@.len() ==> call_ensures(
                        box_at,
                        ((k % 3 - 1) as i32, (k / 9 - 1) as i32, ((k / 3) % 3 - 1) as i32),
                        #[trigger] boxes@[k],
                    ),
            decreases 27 - boxes@.len(),
        {
            let k: i32 = boxes.len() as i32;
            let (dx, dy, dz): (i32, i32, i32) = (k % 3 - 1, k / 9 - 1, (k / 3) % 3 - 1);
            let b = box_at(dx, dy, dz);
            boxes.push(b);
        }
        proof {
            assert forall|dx: i32, dy: i32, dz: i32|
                -1 <= dx <= 1 && -1 <= dy <= 1 && -1 <= dz <= 1 implies #[trigger] call_ensures(
                box_at,
                (dx, dy, dz),
                boxes@[offset_index(dx as int, dy as int, dz as int)],
            ) by {
                let k = offset_index(dx as int, dy as int, dz as int);
                assert(k % 3 - 1 == dx && k / 9 - 1 == dy && (k / 3) % 3 - 1 == dz);
                assert(call_ensures(
                    box_at,
                    ((k % 3 - 1) as i32, (k / 9 - 1) as i32, ((k / 3) % 3 - 1) as i32),
                    boxes@[k],
                ));
            }
            assert forall|k: int| 0 <= k < 27 implies ((#[trigger] boxes@[k]) matches Some(b)
                ==> b.readable()) by {
                assert(call_ensures(
                    box_at,
                    ((k % 3 - 1) as i32, (k / 9 - 1) as i32, ((k / 3) % 3 - 1) as i32),
                    boxes@[k],
                ));
            }
        }
        let mut cells: Vec<T> = Vec::with_capacity(PADDED_VOLUME);
        while cells.len() < PADDED_VOLUME
            invariant
                boxes@.len() == 27,
                forall|k: int|
                    0 <= k < 27 ==> ((#[trigger] boxes@[k]) matches Some(b) ==> b.readable()),
                cells@.len() <= PADDED_VOLUME,
                forall|i: int|
                    0 <= i < cells@.len() ==> #[trigger] cells@[i] == shown(
                        outside,
                        boxes@,
                        i % 18 - 1,
                        i / 324 - 1,
                        (i / 18) % 18 - 1,
                    ),
            decreases PADDED_VOLUME - cells@.len(),
        {
            let i: i32 = cells.len() as i32;
            let (x, y, z): (i32, i32, i32) = (i % 18 - 1, i / 324 - 1, (i / 18) % 18 - 1);
            cells.push(pick(outside, &boxes, x, y, z));
        }
        let n = Neighborhood { cells };
        proof {
            assert(answered(box_at, boxes@));
            assert forall|x: int, y: int, z: int|
                padded(x) && padded(y) && padded(z) implies #[trigger] n.cell(x, y, z) == shown(
                outside,
                boxes@,
                x,
                y,
                z,
            ) by {
                lemma_padded_coords(x, y, z);
                let i = padded_index_spec(x, y, z);
                assert(cells@[i] == shown(
                    outside,
                    boxes@,
                    i % 18 - 1,
                    i / 324 - 1,
                    (i / 18) % 18 - 1,
                ));
            }
        }
        n
    }
}

proof fn lemma_padded_coords(x: int, y: int, z: int)
    requires
        padded(x),
        padded(y),
        padded(z),
    ensures
        ({
            let i = padded_index_spec(x, y, z);
            &&& 0 <= i < PADDED_VOLUME
            &&& i % 18 - 1 == x
            &&& i / 324 - 1 == y
            &&& (i / 18) % 18 - 1 == z
        }),
{
    let i = padded_index_spec(x, y, z);
    assert(i / 18 == (z + 1) + (y + 1) * 18);
}

fn pick<'a, C: CellBox>(
    outside: C::Cell,
    boxes: &Vec<Option<&'a C>>,
    x: i32,
    y: i32,
    z: i32,
) -> (c: C::Cell)
    requires
        boxes@.len() == 27,
        forall|k: int| 0 <= k < 27 ==> ((#[trigger] boxes@[k]) matches Some(b) ==> b.readable()),
        padded(x as int),
        padded(y as int),
        padded(z as int),
    ensures
        c == shown(outside, boxes@, x as int, y as int, z as int),
{
    let (dx, lx): (i32, i32) = split_padded(x);
    let (dy, ly): (i32, i32) = split_padded(y);
    let (dz, lz): (i32, i32) = split_padded(z);
    let k: usize = ((dx + 1) + (dz + 1) * 3 + (dy + 1) * 9) as usize;
    match boxes[k] {
        Some(b) => b.read(Chunk::index(lx as usize, ly as usize, lz as usize)),
        None => outside,
    }
}

fn split_padded(c: i32) -> (r: (i32, i32))
    requires
        padded(c as int),
    ensures
        r.0 == side(c as int),
        r.1 == inside(c as int),
        0 <= r.1 < 16,
{
    if c < 0 {
        (-1, 15)
    } else if c > 15 {
        (1, 0)
    } else {
        (0, c)
    }
}

/// A padded cell is the world's: across a border the cells of the chunk beyond go on, so
/// that the cell at `x` along an axis is the one at `x` modulo sixteen of the chunk that
/// `x` divided by sixteen leads to; each of the 27 chunks has its own place, and a missing
/// one shows what is outside.
pub proof fn lemma_padding_is_the_world<'a, C: CellBox>(
    outside: C::Cell,
    boxes: Seq<Option<&'a C>>,
    x: int,
    y: int,
    z: int,
)
    requires
        padded(x),
        padded(y),
        padded(z),
        boxes.len() == 27,
    ensures
        ({
            let k = (x / 16 + 1) + (z / 16 + 1) * 3 + (y / 16 + 1) * 9;
            &&& 0 <= k < 27
            &&& boxes[k] is Some ==> shown(outside, boxes, x, y, z) == boxes[k]->0.cell_of(
                x % 16 + (z % 16) * 16 + (y % 16) * 256,
            )
            &&& boxes[k] is None ==> shown(outside, boxes, x, y, z) == outside
        }),
{
}

/// Every padded cell has a place of its own.
pub proof fn lemma_padded_cells_differ(x: int, y: int, z: int, a: int, b: int, c: int)
    requires
        padded(x),
        padded(y),
        padded(z),
        padded(a),
        padded(b),
        padded(c),
        padded_index_spec(x, y, z) == padded_index_spec(a, b, c),
    ensures
        x == a && y == b && z == c,
{
    lemma_padded_coords(x, y, z);
    lemma_padded_coords(a, b, c);
}

} // verus!
