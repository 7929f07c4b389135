//! Face connectivity of chunks and the visibility pass rooted at the camera.
//!
//! Opaque terrain walls chunks off from view. A chunk's connectivity says between
//! which of its faces a sightline passes through a pocket of cells that do not
//! block sight; the visibility pass walks from the camera's chunk, leaving a chunk
//! only through faces that connect to the one it came in by.
use vstd::prelude::*;

use crate::block::{BlockId, BlockState};
use crate::coord::Face;
use crate::reach::{
    lemma_reach_back, lemma_reach_join, lemma_reach_keeps, lemma_reach_self, lemma_reach_step,
    reaches,
};
use crate::world::brick::{cell_index_spec, ChunkPayload, PayloadView};
use crate::world::chunk::{lemma_index_local_inverse, local_of_spec, Chunk, CHUNK_VOLUME};

verus! {

/// Which pairs of a chunk's faces a sightline passes between, one bit per pair.
#[derive(Clone, Copy, PartialEq, Eq, Debug, Structural)]
pub struct Connectivity {
    pub bits: u16,
}

/// The bit of an unordered pair of places.
pub open spec fn pair_index(a: usize, b: usize) -> u16 {
    let lo = if a < b {
        a
    } else {
        b
    };
    let hi = if a < b {
        b
    } else {
        a
    };
    (if lo == 0 {
        hi - 1
    } else if lo == 1 {
        hi + 3
    } else if lo == 2 {
        hi + 6
    } else if lo == 3 {
        hi + 8
    } else {
        hi + 9
    }) as u16
}

/// The mask of an unordered pair of faces; empty for a face with itself.
pub open spec fn pair_bit_spec(a: Face, b: Face) -> u16 {
    if a == b {
        0
    } else {
        1u16 << pair_index(a.index_spec(), b.index_spec())
    }
}

/// The mask of an unordered pair of faces; empty for a face with itself.
pub fn pair_bit(a: Face, b: Face) -> (m: u16)
    ensures
        m == pair_bit_spec(a, b),
{
    let i: usize = a.index();
    let j: usize = b.index();
    if i == j {
        return 0;
    }
    let lo: usize = if i < j {
        i
    } else {
        j
    };
    let hi: usize = if i < j {
        j
    } else {
        i
    };
    assert(lo * (11 - lo) <= 30) by (nonlinear_arith)
        requires
            0 <= lo <= 5,
    ;
    assert(lo * (11 - lo) == if lo == 0 {
        0int
    } else if lo == 1 {
        10
    } else if lo == 2 {
        18
    } else if lo == 3 {
        24
    } else {
        28
    }) by {
        assert(lo == 0 || lo == 1 || lo == 2 || lo == 3 || lo == 4);
    }
    let index: usize = lo * (11 - lo) / 2 + (hi - lo - 1);
    1u16 << (index as u16)
}

proof fn lemma_pair_masks(x: u16, i: u16, j: u16)
    by (bit_vector)
    requires
        i < 15,
        j < 15,
    ensures
        (x | (1u16 << i)) & (1u16 << j) != 0 <==> (x & (1u16 << j) != 0 || i == j),
        0x7FFFu16 & (1u16 << j) != 0,
        0u16 & (1u16 << j) == 0,
        x & 0u16 == 0,
{
}

/// Distinct pairs of faces have distinct bits.
pub proof fn lemma_pairs_distinct(a: Face, b: Face, c: Face, d: Face)
    requires
        a != b,
        c != d,
    ensures
        pair_index(a.index_spec(), b.index_spec()) < 15,
        pair_index(a.index_spec(), b.index_spec()) == pair_index(c.index_spec(), d.index_spec())
            <==> (a == c && b == d) || (a == d && b == c),
{
}

/// Whether a set of faces, one bit per face, holds a face.
pub open spec fn has_face(faces: u8, f: Face) -> bool {
    faces & (1u8 << (f.index_spec() as u8)) != 0
}

pub proof fn lemma_face_masks(m: u8, i: u8, j: u8)
    by (bit_vector)
    requires
        i < 7,
        j < 7,
    ensures
        (m | (1u8 << i)) & (1u8 << j) != 0 <==> (m & (1u8 << j) != 0 || i == j),
        0u8 & (1u8 << j) == 0,
        1u8 << 6u8 == 64u8,
{
}

/// The set with one more face; other bits stay.
pub fn with_face(faces: u8, f: Face) -> (r: u8)
    ensures
        forall|g: Face| #[trigger] has_face(r, g) == (has_face(faces, g) || f == g),
        (r & (1u8 << 6u8) != 0) == (faces & (1u8 << 6u8) != 0),
{
    let i: u8 = f.index() as u8;
    proof {
        lemma_face_masks(faces, i, 6);
        assert forall|g: Face| #[trigger]
            has_face(faces | (1u8 << i), g) == (has_face(faces, g) || f == g) by {
            lemma_face_masks(faces, i, g.index_spec() as u8);
        }
    }
    faces | (1u8 << i)
}

/// Whether a set of faces holds a face.
pub fn holds_face(faces: u8, f: Face) -> (b: bool)
    ensures
        b == has_face(faces, f),
{
    faces & (1u8 << (f.index() as u8)) != 0
}

/// Whether cell `i` lies on face `f` of its chunk.
pub open spec fn on_face(i: int, f: Face) -> bool {
    let c = local_of_spec(i);
    f.touches_spec(c.0, c.1, c.2)
}

/// The faces that the cell at local coordinates lies on.
pub fn boundary_faces(x: usize, y: usize, z: usize) -> (m: u8)
    ensures
        forall|f: Face| #[trigger] has_face(m, f) == f.touches_spec(x as int, y as int, z as int),
{
    let mut m: u8 = 0;
    let mut i: usize = 0;
    proof {
        assert forall|f: Face| !#[trigger] has_face(0u8, f) by {
            lemma_face_masks(0, 0, f.index_spec() as u8);
        }
    }
    while i < 6
        invariant
            i <= 6,
            forall|f: Face| #[trigger]
                has_face(m, f) == (f.index_spec() < i && f.touches_spec(
                    x as int,
                    y as int,
                    z as int,
                )),
        decreases 6 - i,
    {
        let f = Face::at(i);
        if f.touches(x, y, z) {
            m = with_face(m, f);
        }
        i = i + 1;
    }
    m
}

/// The neighbours, within the chunk, of the cell at local coordinates.
pub open spec fn neighbours_spec(x: int, y: int, z: int) -> Seq<(int, int, int)> {
    (if x > 0 {
        seq![(x - 1, y, z)]
    } else {
        Seq::empty()
    }) + (if x < 15 {
        seq![(x + 1, y, z)]
    } else {
        Seq::empty()
    }) + (if y > 0 {
        seq![(x, y - 1, z)]
    } else {
        Seq::empty()
    }) + (if y < 15 {
        seq![(x, y + 1, z)]
    } else {
        Seq::empty()
    }) + (if z > 0 {
        seq![(x, y, z - 1)]
    } else {
        Seq::empty()
    }) + (if z < 15 {
        seq![(x, y, z + 1)]
    } else {
        Seq::empty()
    })
}

pub open spec fn ints(c: (usize, usize, usize)) -> (int, int, int) {
    (c.0 as int, c.1 as int, c.2 as int)
}

/// The neighbours, within the chunk, of the cell at local coordinates.
pub fn orthogonal_neighbours(x: usize, y: usize, z: usize) -> (out: Vec<(usize, usize, usize)>)
    requires
        x < 16,
        y < 16,
        z < 16,
    ensures
        out@.map_values(|c: (usize, usize, usize)| ints(c)) == neighbours_spec(
            x as int,
            y as int,
            z as int,
        ),
{
    let mut out: Vec<(usize, usize, usize)> = Vec::with_capacity(6);
    if x > 0 {
        out.push((x - 1, y, z));
    }
    if x < 15 {
        out.push((x + 1, y, z));
    }
    if y > 0 {
        out.push((x, y - 1, z));
    }
    if y < 15 {
        out.push((x, y + 1, z));
    }
    if z > 0 {
        out.push((x, y, z - 1));
    }
    if z < 15 {
        out.push((x, y, z + 1));
    }
    assert(out@.map_values(|c: (usize, usize, usize)| ints(c)) =~= neighbours_spec(
        x as int,
        y as int,
        z as int,
    ));
    out
}

/// Whether two cells of a chunk share a side.
pub open spec fn adjacent(i: int, j: int) -> bool {
    let (a, b) = (local_of_spec(i), local_of_spec(j));
    let (dx, dy, dz) = (a.0 - b.0, a.1 - b.1, a.2 - b.2);
    ||| (dx == 1 || dx == -1) && dy == 0 && dz == 0
    ||| dx == 0 && (dy == 1 || dy == -1) && dz == 0
    ||| dx == 0 && dy == 0 && (dz == 1 || dz == -1)
}

/// Whether a sightline passes from cell `i` straight into cell `j`.
pub open spec fn opens(open: Seq<bool>, i: int, j: int) -> bool {
    &&& 0 <= i < CHUNK_VOLUME && open[i]
    &&& 0 <= j < CHUNK_VOLUME && open[j]
    &&& adjacent(i, j)
}

/// The step relation of [`opens`].
pub open spec fn opening(open: Seq<bool>) -> spec_fn(int, int) -> bool {
    |i: int, j: int| opens(open, i, j)
}

/// Whether two cells belong to one pocket of open cells.
pub open spec fn joined(open: Seq<bool>, i: int, j: int) -> bool {
    0 <= i < CHUNK_VOLUME && open[i] && reaches(opening(open), i, j)
}

/// Whether one pocket touches both faces, at the cells `i` and `j`.
pub open spec fn pocket_spans(open: Seq<bool>, a: Face, b: Face, i: int, j: int) -> bool {
    joined(open, i, j) && on_face(i, a) && on_face(j, b)
}

/// Whether a sightline passes between two different faces through a pocket.
pub open spec fn sees(open: Seq<bool>, a: Face, b: Face) -> bool {
    a != b && exists|i: int, j: int| #[trigger] pocket_spans(open, a, b, i, j)
}

/// How many cells are not marked yet, from place `n` on.
pub open spec fn unmarked(v: Seq<bool>, n: int) -> nat
    decreases v.len() - n,
{
    if n >= v.len() {
        0
    } else {
        (if v[n] {
            0nat
        } else {
            1nat
        }) + unmarked(v, n + 1)
    }
}

proof fn lemma_mark(v: Seq<bool>, j: int, n: int)
    requires
        0 <= n <= v.len(),
        0 <= j < v.len(),
        !v[j],
    ensures
        unmarked(v.update(j, true), n) == unmarked(v, n) - (if n <= j {
            1int
        } else {
            0int
        }),
    decreases v.len() - n,
{
    if n < v.len() {
        lemma_mark(v, j, n + 1);
    }
}

/// What [`Connectivity::flood`] has found when no cell is waiting.
spec fn settled(open: Seq<bool>, seen: Seq<bool>) -> bool {
    &&& seen.len() == CHUNK_VOLUME
    &&& forall|i: int| 0 <= i < CHUNK_VOLUME && #[trigger] seen[i] ==> open[i]
    &&& forall|i: int, j: int|
        #![trigger opens(open, i, j)]
        opens(open, i, j) && seen[i] ==> seen[j]
}

proof fn lemma_opens_symmetric(open: Seq<bool>)
    ensures
        forall|x: int, y: int| #[trigger] opening(open)(x, y) ==> opening(open)(y, x),
{
    assert forall|x: int, y: int| #[trigger] opening(open)(x, y) implies opening(open)(y, x) by {
        assert(opens(open, x, y));
        assert(opens(open, y, x));
    }
}

/// A settled set that holds a cell holds its pocket.
proof fn lemma_settled_pocket(open: Seq<bool>, seen: Seq<bool>, i: int, j: int)
    requires
        settled(open, seen),
        joined(open, i, j),
    ensures
        0 <= j < CHUNK_VOLUME,
        open[j],
        seen[i] == seen[j],
{
    let step = opening(open);
    let inside = |k: int| 0 <= k < CHUNK_VOLUME && open[k];
    assert forall|x: int, y: int| #[trigger] step(x, y) && inside(x) implies inside(y) by {
        assert(opens(open, x, y));
    }
    lemma_reach_keeps(step, inside, i, j);
    let kept = |k: int| seen[k];
    assert forall|x: int, y: int| #[trigger] step(x, y) && kept(x) implies kept(y) by {
        assert(opens(open, x, y));
    }
    if seen[i] {
        lemma_reach_keeps(step, kept, i, j);
    }
    if seen[j] {
        lemma_opens_symmetric(open);
        lemma_reach_back(step, i, j);
        lemma_reach_keeps(step, kept, j, i);
    }
}

impl Connectivity {
    /// Nothing connects: a chunk that blocks sight throughout.
    pub fn sealed() -> (c: Self)
        ensures
            c == (Connectivity { bits: 0 }),
            forall|a: Face, b: Face| !#[trigger] c.connects_spec(a, b),
    {
        proof {
            assert forall|a: Face, b: Face|
                !#[trigger] (Connectivity { bits: 0 }).connects_spec(a, b) by {
                if a != b {
                    lemma_pairs_distinct(a, b, a, b);
                    lemma_pair_masks(0, 0, pair_index(a.index_spec(), b.index_spec()));
                } else {
                    lemma_pair_masks(0, 0, 0);
                }
            }
        }
        Connectivity { bits: 0 }
    }

    /// Every two faces connect: a chunk open throughout.
    pub fn open() -> (c: Self)
        ensures
            c == (Connectivity { bits: 0x7FFF }),
            forall|a: Face, b: Face| #[trigger] c.connects_spec(a, b) == (a != b),
    {
        proof {
            assert forall|a: Face, b: Face| #[trigger]
                (Connectivity { bits: 0x7FFF }).connects_spec(a, b) == (a != b) by {
                if a != b {
                    lemma_pairs_distinct(a, b, a, b);
                    lemma_pair_masks(0, 0, pair_index(a.index_spec(), b.index_spec()));
                } else {
                    lemma_pair_masks(0x7FFF, 0, 0);
                }
            }
        }
        Connectivity { bits: 0x7FFF }
    }

    /// Whether a sightline that comes in by `a` can leave by `b`.
    pub open spec fn connects_spec(self, a: Face, b: Face) -> bool {
        self.bits & pair_bit_spec(a, b) != 0
    }

    /// Whether a sightline that comes in by `a` can leave by `b`.
    pub fn connects(self, a: Face, b: Face) -> (r: bool)
        ensures
            r == self.connects_spec(a, b),
    {
        self.bits & pair_bit(a, b) != 0
    }

    fn connect(&mut self, a: Face, b: Face)
        requires
            a != b,
        ensures
            forall|c: Face, d: Face| #[trigger]
                final(self).connects_spec(c, d) == (old(self).connects_spec(c, d) || (a == c && b
                    == d) || (a == d && b == c)),
    {
        let ghost before = self.bits;
        self.bits = self.bits | pair_bit(a, b);
        proof {
            assert forall|c: Face, d: Face| #[trigger]
                self.connects_spec(c, d) == (old(self).connects_spec(c, d) || (a == c && b == d)
                    || (a == d && b == c)) by {
                if c != d {
                    lemma_pairs_distinct(a, b, c, d);
                    lemma_pairs_distinct(c, d, c, d);
                    lemma_pair_masks(
                        before,
                        pair_index(a.index_spec(), b.index_spec()),
                        pair_index(c.index_spec(), d.index_spec()),
                    );
                } else {
                    lemma_pair_masks(before, 0, 0);
                    lemma_pair_masks(self.bits, 0, 0);
                }
            }
        }
    }

    /// Connects every two of the faces that a pocket touches.
    pub fn add_pocket(&mut self, faces: u8)
        ensures
            forall|a: Face, b: Face| #[trigger]
                final(self).connects_spec(a, b) == (old(self).connects_spec(a, b) || (a != b
                    && has_face(faces, a) && has_face(faces, b))),
    {
        let mut i: usize = 0;
        while i < 6
            invariant
                i <= 6,
                forall|a: Face, b: Face| #[trigger]
                    self.connects_spec(a, b) == (old(self).connects_spec(a, b) || (a != b
                        && has_face(faces, a) && has_face(faces, b) && (a.index_spec() < i
                        || b.index_spec() < i))),
            decreases 6 - i,
        {
            let a = Face::at(i);
            let mut j: usize = i + 1;
            while j < 6
                invariant
                    i < j <= 6,
                    a.index_spec() == i,
                    forall|c: Face, d: Face| #[trigger]
                        self.connects_spec(c, d) == (old(self).connects_spec(c, d) || (c != d
                            && has_face(faces, c) && has_face(faces, d) && (c.index_spec() < i
                            || d.index_spec() < i || (c == a && d.index_spec() < j) || (d == a
                            && c.index_spec() < j)))),
                decreases 6 - j,
            {
                let b = Face::at(j);
                if holds_face(faces, a) && holds_face(faces, b) {
                    self.connect(a, b);
                }
                j = j + 1;
            }
            i = i + 1;
        }
    }
}

/// What a fill from `start` keeps: it adds cells of the pocket to `base` only, and
/// only added cells wait.
spec fn filling(open: Seq<bool>, base: Seq<bool>, seen: Seq<bool>, stack: Seq<usize>, start: int) -> bool {
    &&& open.len() == CHUNK_VOLUME
    &&& seen.len() == CHUNK_VOLUME
    &&& settled(open, base)
    &&& 0 <= start < CHUNK_VOLUME && seen[start] && !base[start]
    &&& forall|i: int| 0 <= i < CHUNK_VOLUME && #[trigger] seen[i] ==> open[i]
    &&& forall|i: int| 0 <= i < CHUNK_VOLUME && base[i] ==> #[trigger] seen[i]
    &&& forall|i: int|
        0 <= i < CHUNK_VOLUME && #[trigger] seen[i] && !base[i] ==> joined(open, start, i)
    &&& forall|k: int|
        0 <= k < stack.len() ==> (#[trigger] stack[k]) < CHUNK_VOLUME && seen[stack[k] as int]
            && !base[stack[k] as int]
}

/// Whether a cell waits.
pub open spec fn waits(stack: Seq<usize>, i: int) -> bool {
    exists|k: int| 0 <= k < stack.len() && #[trigger] stack[k] == i
}

/// Whether neighbour `j` of cell `i` is among those from place `m` on.
pub open spec fn still_listed(list: Seq<(usize, usize, usize)>, m: int, j: int) -> bool {
    exists|k: int|
        m <= k < list.len() && cell_index_spec(
            (#[trigger] list[k]).0 as int,
            list[k].1 as int,
            list[k].2 as int,
        ) == j
}

/// Every open neighbour of a found cell is found, or the cell waits, or it is `cur`
/// and the neighbour is still listed.
spec fn accounted(
    open: Seq<bool>,
    seen: Seq<bool>,
    stack: Seq<usize>,
    cur: int,
    list: Seq<(usize, usize, usize)>,
    m: int,
) -> bool {
    forall|i: int, j: int|
        #![trigger opens(open, i, j)]
        opens(open, i, j) && seen[i] && !seen[j] ==> waits(stack, i) || (i == cur && still_listed(
            list,
            m,
            j,
        ))
}

/// Every neighbour of a cell is in its list, and the list holds neighbours only.
pub proof fn lemma_neighbours(i: int, list: Seq<(usize, usize, usize)>)
    requires
        0 <= i < CHUNK_VOLUME,
        ({
            let c = local_of_spec(i);
            list.map_values(|c: (usize, usize, usize)| ints(c)) == neighbours_spec(c.0, c.1, c.2)
        }),
    ensures
        forall|k: int|
            0 <= k < list.len() ==> (#[trigger] list[k]).0 < 16 && list[k].1 < 16 && list[k].2 < 16
                && adjacent(
                i,
                cell_index_spec(list[k].0 as int, list[k].1 as int, list[k].2 as int),
            ),
        forall|j: int|
            0 <= j < CHUNK_VOLUME && #[trigger] adjacent(i, j) ==> still_listed(list, 0, j),
{
    let c = local_of_spec(i);
    let want = neighbours_spec(c.0, c.1, c.2);
    let got = list.map_values(|c: (usize, usize, usize)| ints(c));
    assert forall|k: int| 0 <= k < list.len() implies (#[trigger] list[k]).0 < 16 && list[k].1 < 16
        && list[k].2 < 16 && adjacent(
        i,
        cell_index_spec(list[k].0 as int, list[k].1 as int, list[k].2 as int),
    ) by {
        assert(got[k] == want[k]);
        assert(ints(list[k]) == want[k]);
        lemma_near(c.0, c.1, c.2, k);
        lemma_index_local_inverse(i, list[k].0 as int, list[k].1 as int, list[k].2 as int);
    }
    assert forall|j: int| 0 <= j < CHUNK_VOLUME && #[trigger] adjacent(i, j) implies still_listed(
        list,
        0,
        j,
    ) by {
        let d = local_of_spec(j);
        lemma_index_local_inverse(j, 0, 0, 0);
        assert(want.contains(d)) by {
            lemma_in_neighbours(c.0, c.1, c.2, d);
        }
        let k = choose|k: int| 0 <= k < want.len() && want[k] == d;
        assert(got[k] == d);
        assert(ints(list[k]) == d);
    }
}

proof fn lemma_near(x: int, y: int, z: int, k: int)
    requires
        0 <= x < 16,
        0 <= y < 16,
        0 <= z < 16,
        0 <= k < neighbours_spec(x, y, z).len(),
    ensures
        ({
            let d = neighbours_spec(x, y, z)[k];
            let (dx, dy, dz) = (x - d.0, y - d.1, z - d.2);
            &&& 0 <= d.0 < 16 && 0 <= d.1 < 16 && 0 <= d.2 < 16
            &&& {
                ||| (dx == 1 || dx == -1) && dy == 0 && dz == 0
                ||| dx == 0 && (dy == 1 || dy == -1) && dz == 0
                ||| dx == 0 && dy == 0 && (dz == 1 || dz == -1)
            }
        }),
{
    let a = if x > 0 {
        1int
    } else {
        0
    };
    let b = a + if x < 15 {
        1int
    } else {
        0
    };
    let c = b + if y > 0 {
        1int
    } else {
        0
    };
    let e = c + if y < 15 {
        1int
    } else {
        0
    };
    let f = e + if z > 0 {
        1int
    } else {
        0
    };
    let s = neighbours_spec(x, y, z);
    if k < a {
        assert(s[k] == (x - 1, y, z));
    } else if k < b {
        assert(s[k] == (x + 1, y, z));
    } else if k < c {
        assert(s[k] == (x, y - 1, z));
    } else if k < e {
        assert(s[k] == (x, y + 1, z));
    } else if k < f {
        assert(s[k] == (x, y, z - 1));
    } else {
        assert(s[k] == (x, y, z + 1));
    }
}

proof fn lemma_in_neighbours(x: int, y: int, z: int, d: (int, int, int))
    requires
        0 <= x < 16,
        0 <= y < 16,
        0 <= z < 16,
        0 <= d.0 < 16,
        0 <= d.1 < 16,
        0 <= d.2 < 16,
        ({
            let (dx, dy, dz) = (x - d.0, y - d.1, z - d.2);
            ||| (dx == 1 || dx == -1) && dy == 0 && dz == 0
            ||| dx == 0 && (dy == 1 || dy == -1) && dz == 0
            ||| dx == 0 && dy == 0 && (dz == 1 || dz == -1)
        }),
    ensures
        neighbours_spec(x, y, z).contains(d),
{
    let s = neighbours_spec(x, y, z);
    let a = if x > 0 {
        1int
    } else {
        0
    };
    let b = a + if x < 15 {
        1int
    } else {
        0
    };
    let c = b + if y > 0 {
        1int
    } else {
        0
    };
    let e = c + if y < 15 {
        1int
    } else {
        0
    };
    let f = e + if z > 0 {
        1int
    } else {
        0
    };
    if d.0 == x - 1 {
        assert(s[0] == d);
    } else if d.0 == x + 1 {
        assert(s[a] == d);
    } else if d.1 == y - 1 {
        assert(s[b] == d);
    } else if d.1 == y + 1 {
        assert(s[c] == d);
    } else if d.2 == z - 1 {
        assert(s[e] == d);
    } else {
        assert(s[f] == d);
    }
}

/// The faces that found cells outside `stack` touch are in `faces`, and `faces`
/// holds no others than found cells touch.
spec fn faces_so_far(
    base: Seq<bool>,
    seen: Seq<bool>,
    stack: Seq<usize>,
    faces: u8,
) -> bool {
    &&& forall|i: int, f: Face|
        #![trigger seen[i], has_face(faces, f)]
        0 <= i < CHUNK_VOLUME && seen[i] && !base[i] && on_face(i, f) && !waits(stack, i)
            ==> has_face(faces, f)
    &&& forall|f: Face| #[trigger]
        has_face(faces, f) ==> exists|i: int|
            0 <= i < CHUNK_VOLUME && #[trigger] seen[i] && !base[i] && on_face(i, f)
}

/// Fills the pocket of `start` and gives the faces that it touches.
fn fill_pocket(open: &Vec<bool>, seen: &mut Vec<bool>, start: usize) -> (faces: u8)
    requires
        open@.len() == CHUNK_VOLUME,
        settled(open@, old(seen)@),
        start < CHUNK_VOLUME,
        open@[start as int],
        !old(seen)@[start as int],
    ensures
        settled(open@, final(seen)@),
        forall|i: int|
            0 <= i < CHUNK_VOLUME ==> #[trigger] final(seen)@[i] == (old(seen)@[i] || joined(
                open@,
                start as int,
                i,
            )),
        forall|f: Face| #[trigger]
            has_face(faces, f) <==> exists|i: int| #[trigger]
                joined(open@, start as int, i) && on_face(i, f),
{
    let ghost base = seen@;
    let ghost step = opening(open@);
    let mut stack: Vec<usize> = Vec::new();
    let mut faces: u8 = 0;
    seen.set(start, true);
    stack.push(start);
    proof {
        lemma_reach_self(step, start as int);
        lemma_mark(base, start as int, 0);
        assert(stack@[0] == start);
        assert(waits(stack@, start as int));
        assert forall|f: Face| !#[trigger] has_face(0u8, f) by {
            lemma_face_masks(0, 0, f.index_spec() as u8);
        }
        assert forall|i: int, j: int| #[trigger] opens(open@, i, j) && seen@[i] && !seen@[j] implies waits(
            stack@,
            i,
        ) by {
            assert(base[i] || i == start);
        }
    }
    while stack.len() > 0
        invariant
            step == opening(open@),
            filling(open@, base, seen@, stack@, start as int),
            accounted(open@, seen@, stack@, -1, Seq::empty(), 0),
            faces_so_far(base, seen@, stack@, faces),
        decreases unmarked(seen@, 0) + stack@.len(),
    {
        let ghost stack0 = stack@;
        let ghost seen0 = seen@;
        let ghost faces0 = faces;
        let i: usize = stack.pop().unwrap();
        assert(stack0[stack0.len() - 1] == i);
        let (x, y, z) = Chunk::local_of(i);
        let touched: u8 = boundary_faces(x, y, z);
        faces = join_faces(faces, touched);
        let list = orthogonal_neighbours(x, y, z);
        let mut m: usize = 0;
        proof {
            lemma_neighbours(i as int, list@);
            lemma_pop(stack0, stack@);
            assert(accounted(open@, seen@, stack@, i as int, list@, 0)) by {
                assert forall|p: int, q: int|
                    #[trigger] opens(open@, p, q) && seen@[p] && !seen@[q] implies waits(stack@, p)
                    || (p == i && still_listed(list@, 0, q)) by {
                    assert(waits(stack0, p));
                }
            }
            assert(faces_so_far(base, seen@, stack@, faces)) by {
                assert forall|k: int, f: Face|
                    #![trigger seen@[k], has_face(faces, f)]
                    0 <= k < CHUNK_VOLUME && seen@[k] && !base[k] && on_face(k, f) && !waits(
                        stack@,
                        k,
                    ) implies has_face(faces, f) by {
                    if k != i {
                        assert(!waits(stack0, k));
                        assert(has_face(faces0, f));
                    }
                }
                assert forall|f: Face| #[trigger] has_face(faces, f) implies exists|k: int|
                    0 <= k < CHUNK_VOLUME && #[trigger] seen@[k] && !base[k] && on_face(k, f) by {
                    if !has_face(faces0, f) {
                        assert(seen@[i as int] && !base[i as int] && on_face(i as int, f));
                    }
                }
            }
        }
        while m < list.len()
            invariant
                m <= list@.len(),
                filling(open@, base, seen@, stack@, start as int),
                0 <= i < CHUNK_VOLUME,
                seen@[i as int],
                !base[i as int],
                step == opening(open@),
                accounted(open@, seen@, stack@, i as int, list@, m as int),
                faces_so_far(base, seen@, stack@, faces),
                forall|k: int|
                    0 <= k < list@.len() ==> (#[trigger] list@[k]).0 < 16 && list@[k].1 < 16
                        && list@[k].2 < 16 && adjacent(
                        i as int,
                        cell_index_spec(list@[k].0 as int, list@[k].1 as int, list@[k].2 as int),
                    ),
                unmarked(seen@, 0) + stack@.len() < unmarked(seen0, 0) + stack0.len(),
            decreases list@.len() - m,
        {
            let (nx, ny, nz) = list[m];
            let j: usize = Chunk::index(nx, ny, nz);
            proof {
                lemma_index_local_inverse(0, nx as int, ny as int, nz as int);
                assert(list@[m as int] == (nx, ny, nz));
                assert(adjacent(i as int, j as int));
            }
            let ghost stack1 = stack@;
            let ghost seen1 = seen@;
            if !seen[j] && open[j] {
                seen.set(j, true);
                stack.push(j);
                proof {
                    lemma_push(stack1, j);
                    lemma_mark(seen1, j as int, 0);
                    assert(opens(open@, i as int, j as int));
                    assert(joined(open@, start as int, i as int));
                    lemma_reach_step(step, start as int, i as int, j as int);
                    assert(settled(open@, base));
                    if base[j as int] {
                        assert(opens(open@, j as int, i as int));
                    }
                    assert(faces_so_far(base, seen@, stack@, faces)) by {
                        assert forall|k: int, f: Face|
                            #![trigger seen@[k], has_face(faces, f)]
                            0 <= k < CHUNK_VOLUME && seen@[k] && !base[k] && on_face(k, f)
                                && !waits(stack@, k) implies has_face(faces, f) by {
                            assert(k != j);
                            assert(seen1[k]);
                            assert(!waits(stack1, k));
                        }
                        assert forall|f: Face| #[trigger] has_face(faces, f) implies exists|k: int|
                            0 <= k < CHUNK_VOLUME && #[trigger] seen@[k] && !base[k] && on_face(
                                k,
                                f,
                            ) by {
                            let k = choose|k: int|
                                0 <= k < CHUNK_VOLUME && #[trigger] seen1[k] && !base[k]
                                    && on_face(k, f);
                            assert(seen@[k]);
                        }
                    }
                }
            }
            proof {
                assert(accounted(open@, seen@, stack@, i as int, list@, m + 1)) by {
                    assert forall|p: int, q: int|
                        #[trigger] opens(open@, p, q) && seen@[p] && !seen@[q] implies waits(
                        stack@,
                        p,
                    ) || (p == i && still_listed(list@, m + 1, q)) by {
                        if p != j || seen1[p] {
                            assert(seen1[p] && !seen1[q]);
                            if waits(stack1, p) {
                                assert(waits(stack@, p));
                            } else {
                                assert(p == i && still_listed(list@, m as int, q));
                                let k = choose|k: int|
                                    m <= k < list@.len() && cell_index_spec(
                                        (#[trigger] list@[k]).0 as int,
                                        list@[k].1 as int,
                                        list@[k].2 as int,
                                    ) == q;
                                assert(k != m);
                                assert(list@[k] == list@[k]);
                            }
                        }
                    }
                }
            }
            m = m + 1;
        }
        proof {
            assert(accounted(open@, seen@, stack@, -1, Seq::empty(), 0)) by {
                assert forall|p: int, q: int|
                    #[trigger] opens(open@, p, q) && seen@[p] && !seen@[q] implies waits(
                    stack@,
                    p,
                ) by {
                    assert(!still_listed(list@, list@.len() as int, q));
                }
            }
        }
    }
    proof {
        assert forall|i: int| !waits(stack@, i) by {}
        assert(settled(open@, seen@)) by {
            assert forall|i: int, j: int| #[trigger] opens(open@, i, j) && seen@[i] implies seen@[j] by {
                assert(!waits(stack@, i));
            }
        }
        assert forall|i: int| 0 <= i < CHUNK_VOLUME implies #[trigger] seen@[i] == (base[i]
            || joined(open@, start as int, i)) by {
            if joined(open@, start as int, i) {
                lemma_settled_pocket(open@, seen@, start as int, i);
            }
        }
        assert forall|f: Face| #[trigger] has_face(faces, f) <==> exists|i: int| #[trigger]
            joined(open@, start as int, i) && on_face(i, f) by {
            if has_face(faces, f) {
                let i = choose|i: int|
                    0 <= i < CHUNK_VOLUME && #[trigger] seen@[i] && !base[i] && on_face(i, f);
                assert(joined(open@, start as int, i));
            }
            if exists|i: int| #[trigger] joined(open@, start as int, i) && on_face(i, f) {
                let i = choose|i: int| #[trigger]
                    joined(open@, start as int, i) && on_face(i, f);
                lemma_settled_pocket(open@, base, start as int, i);
                lemma_settled_pocket(open@, seen@, start as int, i);
                assert(seen@[i] && !base[i] && !waits(stack@, i));
            }
        }
    }
    faces
}

proof fn lemma_pop(before: Seq<usize>, after: Seq<usize>)
    requires
        before.len() > 0,
        after == before.drop_last(),
    ensures
        forall|k: int| #[trigger]
            waits(before, k) ==> waits(after, k) || k == before[before.len() - 1],
        forall|k: int| #[trigger] waits(after, k) ==> waits(before, k),
{
    assert forall|k: int| #[trigger] waits(before, k) implies waits(after, k) || k
        == before[before.len() - 1] by {
        let j = choose|j: int| 0 <= j < before.len() && #[trigger] before[j] == k;
        if j < before.len() - 1 {
            assert(after[j] == k);
        }
    }
    assert forall|k: int| #[trigger] waits(after, k) implies waits(before, k) by {
        let j = choose|j: int| 0 <= j < after.len() && #[trigger] after[j] == k;
        assert(before[j] == k);
    }
}

pub proof fn lemma_push(before: Seq<usize>, j: usize)
    ensures
        forall|k: int| #[trigger] waits(before.push(j), k) == (waits(before, k) || k == j),
{
    let after = before.push(j);
    assert(after[before.len() as int] == j);
    assert forall|k: int| #[trigger] waits(after, k) == (waits(before, k) || k == j) by {
        if waits(before, k) {
            let i = choose|i: int| 0 <= i < before.len() && #[trigger] before[i] == k;
            assert(after[i] == k);
        }
        if waits(after, k) && k != j {
            let i = choose|i: int| 0 <= i < after.len() && #[trigger] after[i] == k;
            assert(before[i] == k);
        }
    }
}

fn join_faces(a: u8, b: u8) -> (r: u8)
    ensures
        forall|f: Face| #[trigger] has_face(r, f) == (has_face(a, f) || has_face(b, f)),
{
    proof {
        assert forall|f: Face| #[trigger] has_face(a | b, f) == (has_face(a, f) || has_face(b, f)) by {
            let k = f.index_spec() as u8;
            assert((a | b) & (1u8 << k) != 0 <==> a & (1u8 << k) != 0 || b & (1u8 << k) != 0)
                by (bit_vector);
        }
    }
    a | b
}

impl Connectivity {
    /// The connectivity of a chunk whose open cells are given: two faces connect
    /// where one pocket of open cells touches both.
    pub fn flood(open: &Vec<bool>) -> (conn: Connectivity)
        requires
            open@.len() == CHUNK_VOLUME,
        ensures
            forall|a: Face, b: Face| #[trigger] conn.connects_spec(a, b) == sees(open@, a, b),
    {
        let mut seen: Vec<bool> = Vec::with_capacity(CHUNK_VOLUME);
        while seen.len() < CHUNK_VOLUME
            invariant
                seen@.len() <= CHUNK_VOLUME,
                forall|i: int| 0 <= i < seen@.len() ==> !#[trigger] seen@[i],
            decreases CHUNK_VOLUME - seen@.len(),
        {
            seen.push(false);
        }
        let mut conn = Connectivity::sealed();
        let mut start: usize = 0;
        while start < CHUNK_VOLUME
            invariant
                start <= CHUNK_VOLUME,
                open@.len() == CHUNK_VOLUME,
                settled(open@, seen@),
                forall|i: int| 0 <= i < start && open@[i] ==> #[trigger] seen@[i],
                forall|a: Face, b: Face| #[trigger]
                    conn.connects_spec(a, b) ==> sees(open@, a, b),
                forall|a: Face, b: Face, i: int, j: int| #[trigger]
                    pocket_spans(open@, a, b, i, j) && a != b && seen@[i] ==> conn.connects_spec(
                        a,
                        b,
                    ),
            decreases CHUNK_VOLUME - start,
        {
            if !seen[start] && open[start] {
                let ghost base = seen@;
                let ghost before = conn;
                let faces: u8 = fill_pocket(open, &mut seen, start);
                conn.add_pocket(faces);
                proof {
                    lemma_reach_self(opening(open@), start as int);
                    assert(joined(open@, start as int, start as int));
                    lemma_pocket_added(open@, base, seen@, start as int, faces, before, conn);
                }
            }
            start = start + 1;
        }
        proof {
            assert forall|a: Face, b: Face| #[trigger]
                conn.connects_spec(a, b) == sees(open@, a, b) by {
                if sees(open@, a, b) {
                    let (i, j) = choose|i: int, j: int| #[trigger]
                        pocket_spans(open@, a, b, i, j);
                    assert(pocket_spans(open@, a, b, i, j));
                    assert(seen@[i]);
                }
            }
        }
        conn
    }
}

proof fn lemma_pocket_added(
    open: Seq<bool>,
    base: Seq<bool>,
    seen: Seq<bool>,
    start: int,
    faces: u8,
    before: Connectivity,
    after: Connectivity,
)
    requires
        0 <= start < CHUNK_VOLUME,
        open[start],
        settled(open, base),
        forall|i: int|
            0 <= i < CHUNK_VOLUME ==> #[trigger] seen[i] == (base[i] || joined(open, start, i)),
        forall|f: Face| #[trigger]
            has_face(faces, f) <==> exists|i: int| #[trigger]
                joined(open, start, i) && on_face(i, f),
        forall|a: Face, b: Face| #[trigger] before.connects_spec(a, b) ==> sees(open, a, b),
        forall|a: Face, b: Face, i: int, j: int| #[trigger]
            pocket_spans(open, a, b, i, j) && a != b && base[i] ==> before.connects_spec(a, b),
        forall|a: Face, b: Face| #[trigger]
            after.connects_spec(a, b) == (before.connects_spec(a, b) || (a != b && has_face(
                faces,
                a,
            ) && has_face(faces, b))),
    ensures
        forall|a: Face, b: Face| #[trigger] after.connects_spec(a, b) ==> sees(open, a, b),
        forall|a: Face, b: Face, i: int, j: int| #[trigger]
            pocket_spans(open, a, b, i, j) && a != b && seen[i] ==> after.connects_spec(a, b),
{
    let step = opening(open);
    lemma_opens_symmetric(open);
    assert forall|a: Face, b: Face| #[trigger] after.connects_spec(a, b) implies sees(
        open,
        a,
        b,
    ) by {
        if !before.connects_spec(a, b) {
            assert(has_face(faces, a) && has_face(faces, b));
            let i = choose|i: int| #[trigger] joined(open, start, i) && on_face(i, a);
            let j = choose|i: int| #[trigger] joined(open, start, i) && on_face(i, b);
            lemma_settled_pocket(open, base, start, i);
            lemma_reach_back(step, start, i);
            lemma_reach_join(step, i, start, j);
            assert(pocket_spans(open, a, b, i, j));
        }
    }
    assert forall|a: Face, b: Face, i: int, j: int| #[trigger]
        pocket_spans(open, a, b, i, j) && a != b && seen[i] implies after.connects_spec(a, b) by {
        if base[i] {
            assert(before.connects_spec(a, b));
        } else {
            assert(joined(open, start, i));
            lemma_reach_join(step, start, i, j);
            assert(joined(open, start, j));
            assert(has_face(faces, a) && has_face(faces, b));
        }
    }
}

/// Whether `open` holds, for each cell of the chunk, whether `blocks_sight` lets a
/// sightline pass its block.
pub open spec fn classified<F: Fn(BlockId) -> bool>(
    blocks_sight: F,
    chunk: Chunk,
    open: Seq<bool>,
) -> bool {
    &&& open.len() == CHUNK_VOLUME
    &&& forall|i: int|
        0 <= i < CHUNK_VOLUME ==> call_ensures(blocks_sight, (chunk.cell(i),), !#[trigger] open[i])
}

/// Whether `conn` is the connectivity of a chunk with these open cells.
pub open spec fn is_connectivity(conn: Connectivity, open: Seq<bool>) -> bool {
    forall|a: Face, b: Face| #[trigger] conn.connects_spec(a, b) == sees(open, a, b)
}

/// Every cell of an open chunk is joined to the corner cell.
proof fn lemma_all_open(open: Seq<bool>, i: int)
    requires
        open.len() == CHUNK_VOLUME,
        forall|k: int| 0 <= k < CHUNK_VOLUME ==> #[trigger] open[k],
        0 <= i < CHUNK_VOLUME,
    ensures
        joined(open, 0, i),
    decreases i,
{
    let step = opening(open);
    if i == 0 {
        lemma_reach_self(step, 0int);
    } else {
        let c = local_of_spec(i);
        let d = if c.0 > 0 {
            (c.0 - 1, c.1, c.2)
        } else if c.2 > 0 {
            (c.0, c.1, c.2 - 1)
        } else {
            (c.0, c.1 - 1, c.2)
        };
        lemma_index_local_inverse(i, d.0, d.1, d.2);
        let j = cell_index_spec(d.0, d.1, d.2);
        lemma_all_open(open, j);
        assert(opens(open, j, i));
        lemma_reach_step(step, 0int, j, i);
    }
}

/// In a chunk open throughout, every two different faces connect; in one that is
/// closed throughout, none do.
pub proof fn lemma_uniform_connectivity(open: Seq<bool>, a: Face, b: Face)
    requires
        open.len() == CHUNK_VOLUME,
    ensures
        (forall|k: int| 0 <= k < CHUNK_VOLUME ==> #[trigger] open[k]) ==> sees(open, a, b) == (a
            != b),
        (forall|k: int| 0 <= k < CHUNK_VOLUME ==> !#[trigger] open[k]) ==> !sees(open, a, b),
{
    if forall|k: int| 0 <= k < CHUNK_VOLUME ==> #[trigger] open[k] {
        let step = opening(open);
        let i = corner_on(a);
        let j = corner_on(b);
        lemma_all_open(open, i);
        lemma_all_open(open, j);
        lemma_opens_symmetric(open);
        lemma_reach_back(step, 0int, i);
        lemma_reach_join(step, i, 0int, j);
        assert(pocket_spans(open, a, b, i, j));
    }
    if forall|k: int| 0 <= k < CHUNK_VOLUME ==> !#[trigger] open[k] {
        if sees(open, a, b) {
            let (i, j) = choose|i: int, j: int| #[trigger] pocket_spans(open, a, b, i, j);
            assert(open[i]);
        }
    }
}

/// A cell on a face.
spec fn corner_on(f: Face) -> int {
    match f {
        Face::PosX => 15,
        Face::PosZ => 240,
        Face::PosY => 3840,
        _ => 0,
    }
}

impl Connectivity {
    /// The connectivity of a chunk, where `blocks_sight` says which blocks are opaque.
    /// A uniform chunk needs no scan; a palette is classified once per entry.
    pub fn compute<F: Fn(BlockId) -> bool>(chunk: &Chunk, blocks_sight: F) -> (conn: Connectivity)
        requires
            chunk.wf(),
            forall|id: BlockId| call_requires(blocks_sight, (id,)),
        ensures
            exists|open: Seq<bool>| #[trigger]
                classified(blocks_sight, *chunk, open) && is_connectivity(conn, open),
    {
        let ghost cells = chunk.payload();
        match &chunk.data().payload {
            ChunkPayload::Uniform(v) => {
                let blocked: bool = blocks_sight(v.id);
                let ghost open = Seq::new(CHUNK_VOLUME as nat, |i: int| !blocked);
                proof {
                    assert forall|a: Face, b: Face| sees(open, a, b) == (!blocked && a != b) by {
                        lemma_uniform_connectivity(open, a, b);
                    }
                    assert(classified(blocks_sight, *chunk, open));
                }
                if blocked {
                    Self::sealed()
                } else {
                    Self::open()
                }
            },
            ChunkPayload::Paletted { palette, cells } => {
                let sight: Vec<bool> = classify_palette(palette, &blocks_sight);
                let mut open: Vec<bool> = Vec::with_capacity(CHUNK_VOLUME);
                while open.len() < CHUNK_VOLUME
                    invariant
                        chunk.payload() == (PayloadView::Paletted {
                            palette: palette@,
                            cells: cells@,
                        }),
                        chunk.wf(),
                        open@.len() <= CHUNK_VOLUME,
                        sight@.len() == palette@.len(),
                        forall|k: int|
                            0 <= k < palette@.len() ==> call_ensures(
                                blocks_sight,
                                (palette@[k].id,),
                                #[trigger] sight@[k],
                            ),
                        forall|i: int|
                            0 <= i < open@.len() ==> call_ensures(
                                blocks_sight,
                                (chunk.cell(i),),
                                !#[trigger] open@[i],
                            ),
                    decreases CHUNK_VOLUME - open@.len(),
                {
                    let i: usize = open.len();
                    let k: usize = cells[i] as usize;
                    assert(chunk.cell(i as int) == palette@[k as int].id);
                    let b: bool = sight[k];
                    open.push(!b);
                    assert(!open@[i as int] == sight@[k as int]);
                }
                assert(classified(blocks_sight, *chunk, open@));
                Self::flood(&open)
            },
            ChunkPayload::Dense(cells) => {
                let mut open: Vec<bool> = Vec::with_capacity(CHUNK_VOLUME);
                while open.len() < CHUNK_VOLUME
                    invariant
                        chunk.payload() == PayloadView::Dense(cells@),
                        chunk.wf(),
                        forall|id: BlockId| call_requires(blocks_sight, (id,)),
                        open@.len() <= CHUNK_VOLUME,
                        forall|i: int|
                            0 <= i < open@.len() ==> call_ensures(
                                blocks_sight,
                                (chunk.cell(i),),
                                !#[trigger] open@[i],
                            ),
                    decreases CHUNK_VOLUME - open@.len(),
                {
                    let i: usize = open.len();
                    assert(chunk.cell(i as int) == cells@[i as int].id);
                    let b: bool = blocks_sight(cells[i].id);
                    open.push(!b);
                }
                assert(classified(blocks_sight, *chunk, open@));
                Self::flood(&open)
            },
        }
    }
}

fn classify_palette<F: Fn(BlockId) -> bool>(palette: &Vec<BlockState>, blocks_sight: &F) -> (sight:
    Vec<bool>)
    requires
        forall|id: BlockId| call_requires(*blocks_sight, (id,)),
    ensures
        sight@.len() == palette@.len(),
        forall|k: int|
            0 <= k < palette@.len() ==> call_ensures(
                *blocks_sight,
                (palette@[k].id,),
                #[trigger] sight@[k],
            ),
{
    let mut sight: Vec<bool> = Vec::with_capacity(palette.len());
    while sight.len() < palette.len()
        invariant
            forall|id: BlockId| call_requires(*blocks_sight, (id,)),
            sight@.len() <= palette@.len(),
            forall|k: int|
                0 <= k < sight@.len() ==> call_ensures(
                    *blocks_sight,
                    (palette@[k].id,),
                    #[trigger] sight@[k],
                ),
        decreases palette@.len() - sight@.len(),
    {
        let k: usize = sight.len();
        let b: bool = blocks_sight(palette[k].id);
        sight.push(b);
    }
    sight
}

/// Sight between two faces goes both ways.
pub proof fn lemma_sight_goes_both_ways(open: Seq<bool>, a: Face, b: Face)
    ensures
        sees(open, a, b) == sees(open, b, a),
{
    lemma_sees_back(open, a, b);
    lemma_sees_back(open, b, a);
}

proof fn lemma_sees_back(open: Seq<bool>, a: Face, b: Face)
    ensures
        sees(open, a, b) ==> sees(open, b, a),
{
    if sees(open, a, b) {
        let (i, j) = choose|i: int, j: int| #[trigger] pocket_spans(open, a, b, i, j);
        lemma_opens_symmetric(open);
        lemma_reach_back(opening(open), i, j);
        let inside = |k: int| 0 <= k < CHUNK_VOLUME && open[k];
        assert forall|x: int, y: int| #[trigger] opening(open)(x, y) && inside(x) implies inside(
            y,
        ) by {
            assert(opens(open, x, y));
        }
        lemma_reach_keeps(opening(open), inside, i, j);
        assert(pocket_spans(open, b, a, j, i));
    }
}

/// Opening cells up never takes sight away.
pub proof fn lemma_opening_keeps_sight(less: Seq<bool>, more: Seq<bool>, a: Face, b: Face)
    requires
        forall|i: int| 0 <= i < CHUNK_VOLUME && #[trigger] less[i] ==> more[i],
        sees(less, a, b),
    ensures
        sees(more, a, b),
{
    let (i, j) = choose|i: int, j: int| #[trigger] pocket_spans(less, a, b, i, j);
    assert forall|x: int, y: int| #[trigger] opening(less)(x, y) implies opening(more)(x, y) by {
        assert(opens(less, x, y));
        assert(less[x] && less[y]);
    }
    assert(less[i]);
    crate::reach::lemma_reach_more(opening(less), opening(more), i, j);
    assert(pocket_spans(more, a, b, i, j));
}

/// A cell's coordinate along a face's axis.
pub open spec fn depth_along(f: Face, i: int) -> int {
    let l = local_of_spec(i);
    match f {
        Face::NegX | Face::PosX => l.0,
        Face::NegY | Face::PosY => l.1,
        Face::NegZ | Face::PosZ => l.2,
    }
}

/// A wall blocks sight: where a whole layer of cells across an axis is closed, no sight
/// passes from one end of the axis to the other.
pub proof fn lemma_walls_block_sight(open: Seq<bool>, f: Face, at: int)
    requires
        0 <= at < 16,
        forall|i: int| 0 <= i < CHUNK_VOLUME && depth_along(f, i) == at ==> !#[trigger] open[i],
    ensures
        !sees(open, f, f.opposite_spec()),
{
    if sees(open, f, f.opposite_spec()) {
        let (i, j) = choose|i: int, j: int|
            #[trigger] pocket_spans(open, f, f.opposite_spec(), i, j);
        let low = depth_along(f, i) < at;
        let same_side = |k: int|
            0 <= k < CHUNK_VOLUME && open[k] && (depth_along(f, k) < at) == low;
        assert forall|x: int, y: int| #[trigger] opening(open)(x, y) && same_side(
            x,
        ) implies same_side(y) by {
            assert(opens(open, x, y));
        }
        lemma_reach_keeps(opening(open), same_side, i, j);
        assert(open[i] && open[j]);
    }
}

/// A tunnel gives sight: where a straight row of cells is open from one face to the
/// opposite one, each sees the other.
pub proof fn lemma_tunnels_give_sight(open: Seq<bool>, f: Face, u: int, v: int)
    requires
        0 <= u < 16,
        0 <= v < 16,
        forall|n: int|
            0 <= n < 16 ==> open[#[trigger] tunnel_cell(f, n, u, v)],
    ensures
        sees(open, f, f.opposite_spec()),
{
    lemma_tunnel(open, f, u, v, 15);
    let (lo, hi) = (tunnel_cell(f, 0, u, v), tunnel_cell(f, 15, u, v));
    lemma_tunnel_cell(f, 0, u, v);
    lemma_tunnel_cell(f, 15, u, v);
    assert(open[lo]);
    lemma_far_ends(f, u, v);
    let g = match f {
        Face::PosX | Face::NegX => Face::NegX,
        Face::PosY | Face::NegY => Face::NegY,
        Face::PosZ | Face::NegZ => Face::NegZ,
    };
    assert(pocket_spans(open, g, g.opposite_spec(), lo, hi));
    lemma_sight_goes_both_ways(open, g, g.opposite_spec());
}

/// The cell `n` along a straight row across a face's axis.
pub open spec fn tunnel_cell(f: Face, n: int, u: int, v: int) -> int {
    match f {
        Face::NegX | Face::PosX => n + u * 16 + v * 256,
        Face::NegY | Face::PosY => u + v * 16 + n * 256,
        Face::NegZ | Face::PosZ => u + n * 16 + v * 256,
    }
}

proof fn lemma_tunnel_cell(f: Face, n: int, u: int, v: int)
    requires
        0 <= n < 16,
        0 <= u < 16,
        0 <= v < 16,
    ensures
        0 <= tunnel_cell(f, n, u, v) < CHUNK_VOLUME,
        local_of_spec(tunnel_cell(f, n, u, v)) == (match f {
            Face::NegX | Face::PosX => (n, v, u),
            Face::NegY | Face::PosY => (u, n, v),
            Face::NegZ | Face::PosZ => (u, v, n),
        }),
{
    crate::world::chunk::lemma_index_local_inverse(0, n, v, u);
    crate::world::chunk::lemma_index_local_inverse(0, u, n, v);
    crate::world::chunk::lemma_index_local_inverse(0, u, v, n);
}

proof fn lemma_far_ends(f: Face, u: int, v: int)
    requires
        0 <= u < 16,
        0 <= v < 16,
    ensures
        ({
            let g = match f {
                Face::PosX | Face::NegX => Face::NegX,
                Face::PosY | Face::NegY => Face::NegY,
                Face::PosZ | Face::NegZ => Face::NegZ,
            };
            on_face(tunnel_cell(f, 0, u, v), g) && on_face(
                tunnel_cell(f, 15, u, v),
                g.opposite_spec(),
            )
        }),
{
    lemma_tunnel_cell(f, 0, u, v);
    lemma_tunnel_cell(f, 15, u, v);
}

proof fn lemma_tunnel(open: Seq<bool>, f: Face, u: int, v: int, n: int)
    requires
        0 <= u < 16,
        0 <= v < 16,
        0 <= n < 16,
        forall|k: int|
            0 <= k < 16 ==> open[#[trigger] tunnel_cell(f, k, u, v)],
    ensures
        joined(open, tunnel_cell(f, 0, u, v), tunnel_cell(f, n, u, v)),
    decreases n,
{
    lemma_tunnel_cell(f, 0, u, v);
    lemma_tunnel_cell(f, n, u, v);
    let (a, c) = (tunnel_cell(f, 0, u, v), tunnel_cell(f, n, u, v));
    if n == 0 {
        crate::reach::lemma_reach_self(opening(open), a);
    } else {
        let b = tunnel_cell(f, n - 1, u, v);
        lemma_tunnel(open, f, u, v, n - 1);
        lemma_tunnel_cell(f, n - 1, u, v);
        assert(opens(open, b, c));
        assert(opening(open)(b, c));
        crate::reach::lemma_reach_step(opening(open), a, b, c);
    }
}

/// Every two faces have a bit of their own, whichever comes first, and a face has none with
/// itself.
pub proof fn lemma_pairs_have_bits(a: Face, b: Face)
    ensures
        pair_bit_spec(a, b) == pair_bit_spec(b, a),
        a != b <==> pair_bit_spec(a, b) != 0,
        pair_bit_spec(a, b) < 32768,
{
    let k = pair_index(a.index_spec(), b.index_spec());
    if a != b {
        assert(k < 15);
        assert(1u16 << k != 0 && (1u16 << k) < 32768) by (bit_vector)
            requires
                k < 15,
        ;
    }
}

} // verus!
