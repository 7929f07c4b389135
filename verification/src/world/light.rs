//! Light of one chunk: sky light and block light per cell, the layers that its
//! neighbours show it, and the ceiling that the sky opens above.
use vstd::prelude::*;

use crate::coord::Face;
use crate::world::brick::cell_index_spec;
use crate::world::chunk::{lemma_index_local_inverse, local_of_spec, Chunk, CHUNK_SIZE, CHUNK_VOLUME};

verus! {

/// The brightest light level.
pub const MAX_LIGHT: u8 = 15;

/// Cells of one chunk face.
pub const CHUNK_AREA: usize = 256;

/// Entries of a [`FaceShell`]: six faces of [`CHUNK_AREA`] cells.
pub const SHELL_CELLS: usize = 1536;

/// A light level, `0..=15`.
#[derive(PartialEq, Eq, Debug, Structural)]
pub struct LightLevel {
    level: u8,
}

impl Clone for LightLevel {
    fn clone(&self) -> (r: Self)
        ensures
            r == *self,
    {
        *self
    }
}

impl Copy for LightLevel {

}

impl LightLevel {
    #[verifier::type_invariant]
    spec fn in_range(self) -> bool {
        self.level <= MAX_LIGHT
    }

    /// The level as a number.
    pub closed spec fn value(self) -> u8 {
        self.level
    }

    /// The level `v`, or the brightest one where `v` is above it.
    pub fn new(v: u8) -> (r: Self)
        ensures
            r.value() == (if v > MAX_LIGHT {
                MAX_LIGHT
            } else {
                v
            }),
    {
        LightLevel {
            level: if v > MAX_LIGHT {
                MAX_LIGHT
            } else {
                v
            },
        }
    }

    /// No light.
    pub fn dark() -> (r: Self)
        ensures
            r.value() == 0,
    {
        LightLevel { level: 0 }
    }

    /// The brightest level.
    pub fn full() -> (r: Self)
        ensures
            r.value() == MAX_LIGHT,
    {
        LightLevel { level: MAX_LIGHT }
    }

    /// The level as a number.
    pub fn get(self) -> (v: u8)
        ensures
            v == self.value(),
            v <= MAX_LIGHT,
    {
        proof {
            use_type_invariant(&self);
        }
        self.level
    }

    /// The level one step further on: one less, and never below no light.
    pub fn attenuated(self) -> (r: Self)
        ensures
            r.value() == (if self.value() == 0 {
                0int
            } else {
                self.value() - 1
            }),
    {
        proof {
            use_type_invariant(&self);
        }
        if self.level == 0 {
            LightLevel { level: 0 }
        } else {
            LightLevel { level: self.level - 1 }
        }
    }

    /// The brighter of two levels.
    pub fn brighter(self, o: Self) -> (r: Self)
        ensures
            r == (if self.value() >= o.value() {
                self
            } else {
                o
            }),
    {
        if self.level >= o.level {
            self
        } else {
            o
        }
    }
}

/// Two levels of the same value are equal.
pub proof fn lemma_level_value(a: LightLevel, b: LightLevel)
    ensures
        a == b <==> a.value() == b.value(),
{
}

/// Sky light and block light of one cell.
#[derive(Clone, Copy, PartialEq, Eq, Debug, Structural)]
pub struct Lumel {
    pub sky: LightLevel,
    pub block: LightLevel,
}

impl Lumel {
    /// The two levels as numbers.
    pub open spec fn view(self) -> (u8, u8) {
        (self.sky.value(), self.block.value())
    }

    /// No light.
    pub fn dark() -> (r: Self)
        ensures
            r@ == (0u8, 0u8),
    {
        Lumel { sky: LightLevel::dark(), block: LightLevel::dark() }
    }

    /// The brightest light of both kinds.
    pub fn full() -> (r: Self)
        ensures
            r@ == (MAX_LIGHT, MAX_LIGHT),
    {
        Lumel { sky: LightLevel::full(), block: LightLevel::full() }
    }

    fn open_sky() -> (r: Self)
        ensures
            r@ == (MAX_LIGHT, 0u8),
    {
        Lumel { sky: LightLevel::full(), block: LightLevel::dark() }
    }
}

/// Two cells of the same levels are equal.
pub proof fn lemma_lumel_view(a: Lumel, b: Lumel)
    ensures
        a == b <==> a@ == b@,
{
    lemma_level_value(a.sky, b.sky);
    lemma_level_value(a.block, b.block);
}

/// The light of one chunk: one lumel where every cell agrees, else one per cell.
pub struct LightGrid {
    repr: Repr,
}

enum Repr {
    Uniform(Lumel),
    Cells(Box<[Lumel; CHUNK_VOLUME]>),
}

/// The place in a face layer of the cell at local coordinates.
pub open spec fn slot_spec(face: Face, x: int, y: int, z: int) -> int {
    match face {
        Face::NegX | Face::PosX => y + z * 16,
        Face::NegZ | Face::PosZ => x + y * 16,
        Face::NegY | Face::PosY => x + z * 16,
    }
}

/// The cell, on the given layer across the face's axis, of a place in the face.
pub open spec fn layer_cell_spec(face: Face, layer: int, slot: int) -> int {
    let (a, b) = (slot % 16, slot / 16);
    match face {
        Face::NegX | Face::PosX => cell_index_spec(layer, a, b),
        Face::NegZ | Face::PosZ => cell_index_spec(a, b, layer),
        Face::NegY | Face::PosY => cell_index_spec(a, layer, b),
    }
}

/// The layer of a chunk's own cells that lie on a face.
pub open spec fn own_layer_spec(face: Face) -> int {
    match face {
        Face::PosX | Face::PosY | Face::PosZ => 15,
        _ => 0,
    }
}

/// The layer, of the neighbour across a face, that touches the face.
pub open spec fn near_layer_spec(face: Face) -> int {
    match face {
        Face::PosX | Face::PosY | Face::PosZ => 0,
        _ => 15,
    }
}

fn layer_cell(face: Face, layer: usize, slot: usize) -> (i: usize)
    requires
        layer < 16,
        slot < CHUNK_AREA,
    ensures
        i == layer_cell_spec(face, layer as int, slot as int),
        i < CHUNK_VOLUME,
{
    let a: usize = slot % CHUNK_SIZE;
    let b: usize = slot / CHUNK_SIZE;
    match face {
        Face::NegX | Face::PosX => Chunk::index(layer, a, b),
        Face::NegZ | Face::PosZ => Chunk::index(a, b, layer),
        Face::NegY | Face::PosY => Chunk::index(a, layer, b),
    }
}

/// The layer, of the neighbour across a face, that touches the face.
pub fn near_layer(face: Face) -> (n: usize)
    ensures
        n == near_layer_spec(face),
{
    match face {
        Face::PosX | Face::PosY | Face::PosZ => 0,
        _ => CHUNK_SIZE - 1,
    }
}

/// The chunk's own cell at a place in a face.
pub fn face_index(face: Face, slot: usize) -> (i: usize)
    requires
        slot < CHUNK_AREA,
    ensures
        i == layer_cell_spec(face, own_layer_spec(face), slot as int),
        i < CHUNK_VOLUME,
{
    let layer: usize = match face {
        Face::PosX | Face::PosY | Face::PosZ => CHUNK_SIZE - 1,
        _ => 0,
    };
    layer_cell(face, layer, slot)
}

/// Every place of a face's layer is the place of a cell on that face.
pub proof fn lemma_slot_cell(face: Face, slot: int)
    requires
        0 <= slot < CHUNK_AREA,
    ensures
        ({
            let c = layer_cell_spec(face, own_layer_spec(face), slot);
            let l = local_of_spec(c);
            &&& 0 <= c < CHUNK_VOLUME
            &&& face.touches_spec(l.0, l.1, l.2)
            &&& slot_spec(face, l.0, l.1, l.2) == slot
        }),
{
    let (a, b, n) = (slot % 16, slot / 16, own_layer_spec(face));
    let (x, y, z) = match face {
        Face::NegX | Face::PosX => (n, a, b),
        Face::NegZ | Face::PosZ => (a, b, n),
        Face::NegY | Face::PosY => (a, n, b),
    };
    lemma_index_local_inverse(0, x, y, z);
    assert(local_of_spec(cell_index_spec(x, y, z)) == (x, y, z));
}

/// Every cell on a face has a place in its layer.
pub proof fn lemma_cell_slot(face: Face, i: int)
    requires
        0 <= i < CHUNK_VOLUME,
        face.touches_spec(local_of_spec(i).0, local_of_spec(i).1, local_of_spec(i).2),
    ensures
        ({
            let l = local_of_spec(i);
            let s = slot_spec(face, l.0, l.1, l.2);
            &&& 0 <= s < CHUNK_AREA
            &&& layer_cell_spec(face, own_layer_spec(face), s) == i
        }),
{
    let (x, y, z) = local_of_spec(i);
    lemma_index_local_inverse(i, 0, 0, 0);
    let (a, b) = match face {
        Face::NegX | Face::PosX => (y, z),
        Face::NegZ | Face::PosZ => (x, y),
        Face::NegY | Face::PosY => (x, z),
    };
    let s = slot_spec(face, x, y, z);
    assert(s == a + b * 16);
    assert(s % 16 == a && s / 16 == b);
}

impl LightGrid {
    /// Whether the grid holds a lumel for every cell.
    pub closed spec fn wf(self) -> bool {
        self.repr matches Repr::Cells(c) ==> c@.len() == CHUNK_VOLUME
    }

    /// The lumel of the whole grid, where it is stored as one.
    pub closed spec fn flat(self) -> Option<Lumel> {
        match self.repr {
            Repr::Uniform(v) => Some(v),
            Repr::Cells(_) => None,
        }
    }

    /// The lumel of a grid that is stored cell by cell.
    pub closed spec fn stored(self, i: int) -> Lumel {
        match self.repr {
            Repr::Uniform(v) => v,
            Repr::Cells(c) => c@[i],
        }
    }

    /// The light of cell `i`.
    pub open spec fn cell(self, i: int) -> Lumel {
        match self.flat() {
            Some(v) => v,
            None => self.stored(i),
        }
    }

    /// The light of all cells.
    pub open spec fn view(self) -> Seq<Lumel> {
        Seq::new(CHUNK_VOLUME as nat, |i: int| self.cell(i))
    }

    /// The same light everywhere, stored as one lumel.
    pub(crate) fn uniform(v: Lumel) -> (g: Self)
        ensures
            g.wf(),
            g.flat() == Some(v),
    {
        LightGrid { repr: Repr::Uniform(v) }
    }

    /// Light cell by cell.
    pub(crate) fn from_cells(cells: Box<[Lumel; CHUNK_VOLUME]>) -> (g: Self)
        ensures
            g.wf(),
            g.flat() is None,
            forall|i: int| 0 <= i < CHUNK_VOLUME ==> #[trigger] g.cell(i) == cells@[i],
    {
        LightGrid { repr: Repr::Cells(cells) }
    }

    /// No light anywhere.
    pub fn dark() -> (g: Self)
        ensures
            g.wf(),
            g.flat() is Some,
            g.flat()->0@ == (0u8, 0u8),
    {
        Self::uniform(Lumel::dark())
    }

    /// The brightest light of both kinds everywhere.
    pub fn full() -> (g: Self)
        ensures
            g.wf(),
            g.flat() is Some,
            g.flat()->0@ == (MAX_LIGHT, MAX_LIGHT),
    {
        Self::uniform(Lumel::full())
    }

    /// Full sky light and no block light: a chunk open to the sky.
    pub fn open_sky() -> (g: Self)
        ensures
            g.wf(),
            g.flat() is Some,
            g.flat()->0@ == (MAX_LIGHT, 0u8),
    {
        Self::uniform(Lumel::open_sky())
    }

    /// The light of a cell.
    pub fn at(&self, idx: usize) -> (l: Lumel)
        requires
            self.wf(),
            idx < CHUNK_VOLUME,
        ensures
            l == self.cell(idx as int),
    {
        match &self.repr {
            Repr::Uniform(v) => *v,
            Repr::Cells(c) => c[idx],
        }
    }

    /// Whether the grid is stored as one lumel.
    pub fn is_uniform(&self) -> (b: bool)
        ensures
            b == (self.flat() is Some),
    {
        matches!(&self.repr, Repr::Uniform(_))
    }

    /// Sets the light of a cell.
    pub fn set(&mut self, idx: usize, v: Lumel)
        requires
            old(self).wf(),
            idx < CHUNK_VOLUME,
        ensures
            final(self).wf(),
            final(self)@ == old(self)@.update(idx as int, v),
            final(self).flat() is Some <==> old(self).flat() == Some(v),
    {
        let whole = match &self.repr {
            Repr::Uniform(u) => Some(*u),
            Repr::Cells(_) => None,
        };
        match whole {
            Some(u) => {
                if u == v {
                    assert(self@ =~= old(self)@.update(idx as int, v));
                    return;
                }
                let mut cells: Box<[Lumel; CHUNK_VOLUME]> = Box::new([u;CHUNK_VOLUME]);
                cells[idx] = v;
                self.repr = Repr::Cells(cells);
            },
            None => {
                if let Repr::Cells(cells) = &mut self.repr {
                    cells[idx] = v;
                }
            },
        }
        assert(self@ =~= old(self)@.update(idx as int, v));
    }

    /// The grid stored with one lumel per cell.
    pub fn to_dense(&self) -> (g: Self)
        requires
            self.wf(),
        ensures
            g.wf(),
            g.flat() is None,
            g@ == self@,
    {
        let mut cells: Box<[Lumel; CHUNK_VOLUME]> = Box::new([Lumel::dark();CHUNK_VOLUME]);
        let mut i: usize = 0;
        while i < CHUNK_VOLUME
            invariant
                self.wf(),
                i <= CHUNK_VOLUME,
                forall|k: int| 0 <= k < i ==> #[trigger] cells@[k] == self.cell(k),
            decreases CHUNK_VOLUME - i,
        {
            cells[i] = self.at(i);
            i = i + 1;
        }
        let g = Self::from_cells(cells);
        assert(g@ =~= self@);
        g
    }

    /// Whether any cell on a face has block light above one: level one fades out
    /// before it can enter a neighbour.
    pub fn has_border_blocklight(&self) -> (b: bool)
        requires
            self.wf(),
        ensures
            b == exists|f: Face, s: int| #[trigger] self.border_block(f, s),
    {
        match &self.repr {
            Repr::Uniform(v) => {
                let b: bool = v.block.get() > 1;
                proof {
                    if b {
                        assert(self.border_block(Face::NegX, 0));
                    }
                }
                b
            },
            Repr::Cells(_) => {
                let mut k: usize = 0;
                while k < 6
                    invariant
                        self.wf(),
                        k <= 6,
                        forall|f: Face, s: int| #[trigger]
                            self.border_block(f, s) ==> f.index_spec() >= k,
                    decreases 6 - k,
                {
                    let face = Face::at(k);
                    let mut slot: usize = 0;
                    while slot < CHUNK_AREA
                        invariant
                            self.wf(),
                            slot <= CHUNK_AREA,
                            face.index_spec() == k,
                            forall|f: Face, s: int| #[trigger]
                                self.border_block(f, s) ==> f.index_spec() > k || (f == face && s
                                    >= slot),
                        decreases CHUNK_AREA - slot,
                    {
                        let l = self.at(face_index(face, slot));
                        if l.block.get() > 1 {
                            assert(self.border_block(face, slot as int));
                            return true;
                        }
                        assert(!self.border_block(face, slot as int));
                        slot = slot + 1;
                    }
                    k = k + 1;
                }
                false
            },
        }
    }

    /// Whether the cell at a place of a face has block light above one.
    pub open spec fn border_block(self, f: Face, s: int) -> bool {
        0 <= s < CHUNK_AREA && self.cell(layer_cell_spec(f, own_layer_spec(f), s)).block.value() > 1
    }

    /// Copies the row of cells at `(y, z)`.
    pub fn copy_row(&self, y: usize, z: usize, out: &mut [Lumel; CHUNK_SIZE])
        requires
            self.wf(),
            y < 16,
            z < 16,
        ensures
            forall|x: int|
                0 <= x < 16 ==> #[trigger] final(out)@[x] == self.cell(
                    cell_index_spec(x, y as int, z as int),
                ),
    {
        let mut x: usize = 0;
        while x < CHUNK_SIZE
            invariant
                self.wf(),
                x <= 16,
                y < 16,
                z < 16,
                forall|k: int|
                    0 <= k < x ==> #[trigger] out@[k] == self.cell(
                        cell_index_spec(k, y as int, z as int),
                    ),
            decreases CHUNK_SIZE - x,
        {
            out[x] = self.at(Chunk::index(x, y, z));
            x = x + 1;
        }
    }

    /// The number of bytes that the cells take.
    pub fn allocated_bytes(&self) -> (n: usize)
        ensures
            n == (if self.flat() is Some {
                0int
            } else {
                2 * CHUNK_VOLUME
            }),
    {
        match &self.repr {
            Repr::Uniform(_) => 0,
            Repr::Cells(_) => 2 * CHUNK_VOLUME,
        }
    }

    /// Whether two grids hold the same light, however they are stored.
    pub fn same_light(&self, other: &LightGrid) -> (b: bool)
        requires
            self.wf(),
            other.wf(),
        ensures
            b == (self@ == other@),
    {
        let mut i: usize = 0;
        while i < CHUNK_VOLUME
            invariant
                self.wf(),
                other.wf(),
                i <= CHUNK_VOLUME,
                forall|k: int| 0 <= k < i ==> #[trigger] self.cell(k) == other.cell(k),
            decreases CHUNK_VOLUME - i,
        {
            if self.at(i) != other.at(i) {
                assert(self@[i as int] != other@[i as int]);
                return false;
            }
            i = i + 1;
        }
        assert(self@ =~= other@);
        true
    }
}

/// Whether the light on a face of two grids differs.
pub open spec fn border_differs(a: LightGrid, b: LightGrid, face: Face, slot: int) -> bool {
    let i = layer_cell_spec(face, own_layer_spec(face), slot);
    0 <= slot < CHUNK_AREA && a.cell(i) != b.cell(i)
}

/// Whether the light on a face of two grids differs anywhere.
pub fn border_changed(a: &LightGrid, b: &LightGrid, face: Face) -> (r: bool)
    requires
        a.wf(),
        b.wf(),
    ensures
        r == exists|s: int| #[trigger] border_differs(*a, *b, face, s),
{
    let mut slot: usize = 0;
    while slot < CHUNK_AREA
        invariant
            a.wf(),
            b.wf(),
            slot <= CHUNK_AREA,
            forall|s: int| #[trigger] border_differs(*a, *b, face, s) ==> s >= slot,
        decreases CHUNK_AREA - slot,
    {
        let i: usize = face_index(face, slot);
        if a.at(i) != b.at(i) {
            assert(border_differs(*a, *b, face, slot as int));
            return true;
        }
        assert(!border_differs(*a, *b, face, slot as int));
        slot = slot + 1;
    }
    false
}

/// The six layers of neighbouring light that touch a chunk.
pub struct FaceShell {
    faces: Vec<Lumel>,
}

impl FaceShell {
    pub closed spec fn wf(self) -> bool {
        self.faces@.len() == SHELL_CELLS
    }

    /// The light across a face at a place in it.
    pub closed spec fn lumel(self, face: Face, slot: int) -> Lumel {
        self.faces@[face.index_spec() * 256 + slot]
    }

    /// No light across any face.
    pub fn dark() -> (s: Self)
        ensures
            s.wf(),
            forall|f: Face, k: int|
                0 <= k < CHUNK_AREA ==> (#[trigger] s.lumel(f, k))@ == (0u8, 0u8),
    {
        let mut faces: Vec<Lumel> = Vec::with_capacity(SHELL_CELLS);
        while faces.len() < SHELL_CELLS
            invariant
                faces@.len() <= SHELL_CELLS,
                forall|i: int| 0 <= i < faces@.len() ==> (#[trigger] faces@[i])@ == (0u8, 0u8),
            decreases SHELL_CELLS - faces@.len(),
        {
            faces.push(Lumel::dark());
        }
        FaceShell { faces }
    }

    /// The light across a face at `(a, b)`.
    pub fn at(&self, face: Face, a: usize, b: usize) -> (l: Lumel)
        requires
            self.wf(),
            a < 16,
            b < 16,
        ensures
            l == self.lumel(face, a + b * 16),
    {
        self.faces[face.index() * CHUNK_AREA + a + b * CHUNK_SIZE]
    }

    /// The light across a face at a place in it.
    pub fn at_slot(&self, face: Face, slot: usize) -> (l: Lumel)
        requires
            self.wf(),
            slot < CHUNK_AREA,
        ensures
            l == self.lumel(face, slot as int),
    {
        self.faces[face.index() * CHUNK_AREA + slot]
    }

    fn copy_face(&mut self, face: Face, grid: &LightGrid)
        requires
            old(self).wf(),
            grid.wf(),
        ensures
            final(self).wf(),
            forall|f: Face, k: int|
                0 <= k < CHUNK_AREA ==> #[trigger] final(self).lumel(f, k) == if f == face {
                    grid.cell(layer_cell_spec(face, near_layer_spec(face), k))
                } else {
                    old(self).lumel(f, k)
                },
    {
        let layer: usize = near_layer(face);
        let base: usize = face.index() * CHUNK_AREA;
        let mut slot: usize = 0;
        while slot < CHUNK_AREA
            invariant
                self.wf(),
                grid.wf(),
                slot <= CHUNK_AREA,
                layer == near_layer_spec(face),
                base == face.index_spec() * CHUNK_AREA,
                forall|f: Face, k: int|
                    0 <= k < CHUNK_AREA ==> #[trigger] self.lumel(f, k) == if f == face && k
                        < slot {
                        grid.cell(layer_cell_spec(face, near_layer_spec(face), k))
                    } else {
                        old(self).lumel(f, k)
                    },
            decreases CHUNK_AREA - slot,
        {
            let ghost before = *self;
            self.faces.set(base + slot, grid.at(layer_cell(face, layer, slot)));
            proof {
                assert forall|f: Face, k: int| 0 <= k < CHUNK_AREA implies #[trigger] self.lumel(
                    f,
                    k,
                ) == if f == face && k < slot + 1 {
                    grid.cell(layer_cell_spec(face, near_layer_spec(face), k))
                } else {
                    old(self).lumel(f, k)
                } by {
                    assert(before.lumel(f, k) == if f == face && k < slot {
                        grid.cell(layer_cell_spec(face, near_layer_spec(face), k))
                    } else {
                        old(self).lumel(f, k)
                    });
                    if f != face {
                        assert(f.index_spec() != face.index_spec());
                    }
                }
            }
            slot = slot + 1;
        }
    }

    /// Copies the layers that touch a chunk from its neighbours' light; a neighbour
    /// that has none is dark.
    pub fn capture<'a, F: Fn(Face) -> Option<&'a LightGrid>>(grid_at: F) -> (s: Self)
        requires
            forall|f: Face| #[trigger] call_requires(grid_at, (f,)),
            forall|f: Face, g: &LightGrid|
                #[trigger] call_ensures(grid_at, (f,), Some(g)) ==> g.wf(),
        ensures
            s.wf(),
            exists|grids: spec_fn(Face) -> Option<&'a LightGrid>| #[trigger]
                captured(grid_at, grids, s),
    {
        let mut s = FaceShell::dark();
        let ghost mut grids: Map<Face, Option<&'a LightGrid>> = Map::empty();
        let mut k: usize = 0;
        while k < 6
            invariant
                k <= 6,
                s.wf(),
                forall|f: Face| #[trigger] call_requires(grid_at, (f,)),
                forall|f: Face, g: &LightGrid|
                    #[trigger] call_ensures(grid_at, (f,), Some(g)) ==> g.wf(),
                forall|f: Face|
                    f.index_spec() < k ==> call_ensures(grid_at, (f,), #[trigger] grids[f]),
                forall|f: Face, i: int|
                    0 <= i < CHUNK_AREA ==> {
                        let l = #[trigger] s.lumel(f, i);
                        if f.index_spec() < k && grids[f] is Some {
                            l == grids[f]->0.cell(layer_cell_spec(f, near_layer_spec(f), i))
                        } else {
                            l@ == (0u8, 0u8)
                        }
                    },
            decreases 6 - k,
        {
            let face = Face::at(k);
            let answer = grid_at(face);
            proof {
                let before = grids;
                grids = grids.insert(face, answer);
                assert forall|f: Face| f != face implies grids[f] == before[f] by {}
            }
            if let Some(g) = answer {
                assert(g.wf());
                s.copy_face(face, g);
            }
            k = k + 1;
        }
        proof {
            let all = |f: Face| grids[f];
            assert(captured(grid_at, all, s)) by {
                assert forall|f: Face| call_ensures(grid_at, (f,), #[trigger] all(f)) by {
                    assert(f.index_spec() < 6);
                    assert(call_ensures(grid_at, (f,), grids[f]));
                }
            }
        }
        s
    }
}

/// Whether a shell holds what a lookup of neighbours' light shows.
pub open spec fn captured<'a, F: Fn(Face) -> Option<&'a LightGrid>>(
    grid_at: F,
    grids: spec_fn(Face) -> Option<&'a LightGrid>,
    s: FaceShell,
) -> bool {
    &&& forall|f: Face| call_ensures(grid_at, (f,), #[trigger] grids(f))
    &&& forall|f: Face, i: int|
        0 <= i < CHUNK_AREA ==> {
            let l = #[trigger] s.lumel(f, i);
            match grids(f) {
                Some(g) => l == g.cell(layer_cell_spec(f, near_layer_spec(f), i)),
                None => l@ == (0u8, 0u8),
            }
        }
}

/// Where the sky begins in each column of a chunk.
#[derive(Clone)]
pub struct CeilingWindow {
    surface: Vec<i32>,
    min_surface: i32,
}

impl CeilingWindow {
    pub closed spec fn wf(self) -> bool {
        &&& self.surface@.len() == CHUNK_AREA
        &&& forall|i: int| 0 <= i < CHUNK_AREA ==> #[trigger] self.surface@[i] <= self.min_surface
        &&& exists|i: int| 0 <= i < CHUNK_AREA && #[trigger] self.surface@[i] == self.min_surface
    }

    /// The height at and above which a column is open sky.
    pub closed spec fn surface_spec(self, lx: int, lz: int) -> i32 {
        self.surface@[lx + lz * 16]
    }

    /// The lowest height at which every column is open sky.
    pub closed spec fn min_surface_spec(self) -> i32 {
        self.min_surface
    }

    /// The all-open height is the highest surface: every column is open from it on, and
    /// one column is not open below it.
    pub proof fn lemma_all_open_height(self, y: i32)
        requires
            self.wf(),
        ensures
            y >= self.min_surface_spec() <==> forall|lx: int, lz: int|
                0 <= lx < 16 && 0 <= lz < 16 ==> y >= #[trigger] self.surface_spec(lx, lz),
    {
        let i = choose|i: int| 0 <= i < CHUNK_AREA && #[trigger] self.surface@[i] == self.min_surface;
        assert(self.surface_spec(i % 16, i / 16) == self.min_surface);
        assert forall|lx: int, lz: int| 0 <= lx < 16 && 0 <= lz < 16 implies #[trigger] self.surface_spec(
            lx,
            lz,
        ) <= self.min_surface by {
            assert(self.surface@[lx + lz * 16] <= self.min_surface);
        }
    }

    /// The window whose surfaces `height` gives.
    pub fn from_heights<F: Fn(usize, usize) -> i32>(height: F) -> (w: Self)
        requires
            forall|x: usize, z: usize| x < 16 && z < 16 ==> #[trigger] call_requires(height, (x, z)),
        ensures
            w.wf(),
            forall|x: usize, z: usize|
                x < 16 && z < 16 ==> call_ensures(
                    height,
                    (x, z),
                    #[trigger] w.surface_spec(x as int, z as int),
                ),
    {
        let mut surface: Vec<i32> = Vec::with_capacity(CHUNK_AREA);
        let mut min_surface: i32 = i32::MIN;
        while surface.len() < CHUNK_AREA
            invariant
                forall|x: usize, z: usize|
                    x < 16 && z < 16 ==> #[trigger] call_requires(height, (x, z)),
                surface@.len() <= CHUNK_AREA,
                forall|i: int| 0 <= i < surface@.len() ==> #[trigger] surface@[i] <= min_surface,
                surface@.len() > 0 ==> exists|i: int|
                    0 <= i < surface@.len() && #[trigger] surface@[i] == min_surface,
                surface@.len() == 0 ==> min_surface == i32::MIN,
                forall|i: int|
                    0 <= i < surface@.len() ==> call_ensures(
                        height,
                        ((i % 16) as usize, (i / 16) as usize),
                        #[trigger] surface@[i],
                    ),
            decreases CHUNK_AREA - surface@.len(),
        {
            let n: usize = surface.len();
            let h: i32 = height(n % CHUNK_SIZE, n / CHUNK_SIZE);
            let ghost before = surface@;
            let ghost was = min_surface;
            surface.push(h);
            if h > min_surface {
                min_surface = h;
            }
            proof {
                if min_surface == h {
                    assert(surface@[n as int] == min_surface);
                } else {
                    let i = choose|i: int| 0 <= i < before.len() && #[trigger] before[i] == was;
                    assert(surface@[i] == min_surface);
                }
            }
        }
        let w = CeilingWindow { surface, min_surface };
        proof {
            assert forall|x: usize, z: usize| x < 16 && z < 16 implies call_ensures(
                height,
                (x, z),
                #[trigger] w.surface_spec(x as int, z as int),
            ) by {
                let i = x + z * 16;
                assert(i % 16 == x && i / 16 == z);
                assert(call_ensures(
                    height,
                    ((i % 16) as usize, (i / 16) as usize),
                    surface@[i as int],
                ));
            }
        }
        w
    }

    /// Every column open to the sky.
    pub fn open() -> (w: Self)
        ensures
            w.wf(),
            w.min_surface_spec() == i32::MIN,
            forall|x: int, z: int|
                0 <= x < 16 && 0 <= z < 16 ==> #[trigger] w.surface_spec(x, z) == i32::MIN,
    {
        let mut surface: Vec<i32> = Vec::with_capacity(CHUNK_AREA);
        while surface.len() < CHUNK_AREA
            invariant
                surface@.len() <= CHUNK_AREA,
                forall|i: int| 0 <= i < surface@.len() ==> #[trigger] surface@[i] == i32::MIN,
            decreases CHUNK_AREA - surface@.len(),
        {
            surface.push(i32::MIN);
        }
        assert(surface@[0] == i32::MIN);
        CeilingWindow { surface, min_surface: i32::MIN }
    }

    /// Whether a column is open sky at a height.
    pub fn open_above(&self, lx: usize, lz: usize, world_y: i32) -> (b: bool)
        requires
            self.wf(),
            lx < 16,
            lz < 16,
        ensures
            b == (world_y >= self.surface_spec(lx as int, lz as int)),
    {
        world_y >= self.surface[lx + lz * CHUNK_SIZE]
    }

    /// The lowest height at which every column is open sky.
    pub fn min_surface(&self) -> (y: i32)
        ensures
            y == self.min_surface_spec(),
    {
        self.min_surface
    }

    /// The height at which a column becomes open sky.
    pub fn surface_at(&self, lx: usize, lz: usize) -> (y: i32)
        requires
            self.wf(),
            lx < 16,
            lz < 16,
        ensures
            y == self.surface_spec(lx as int, lz as int),
    {
        self.surface[lx + lz * CHUNK_SIZE]
    }

    /// Raises a column's surface to at least `surface`; never lowers it.
    pub fn raise(&mut self, lx: usize, lz: usize, surface: i32)
        requires
            old(self).wf(),
            lx < 16,
            lz < 16,
        ensures
            final(self).wf(),
            forall|x: int, z: int|
                0 <= x < 16 && 0 <= z < 16 ==> #[trigger] final(self).surface_spec(x, z) == if x
                    == lx && z == lz && surface > old(self).surface_spec(x, z) {
                    surface
                } else {
                    old(self).surface_spec(x, z)
                },
            final(self).min_surface_spec() == (if surface > old(self).min_surface_spec() {
                surface
            } else {
                old(self).min_surface_spec()
            }),
    {
        let k: usize = lx + lz * CHUNK_SIZE;
        let ghost top = choose|i: int|
            0 <= i < CHUNK_AREA && #[trigger] self.surface@[i] == self.min_surface;
        if surface > self.surface[k] {
            self.surface.set(k, surface);
        }
        let cell: i32 = self.surface[k];
        if cell > self.min_surface {
            self.min_surface = cell;
        }
        proof {
            if self.min_surface == old(self).min_surface {
                if top == k {
                    assert(self.surface@[k as int] == self.min_surface);
                } else {
                    assert(self.surface@[top] == self.min_surface);
                }
            } else {
                assert(self.surface@[k as int] == self.min_surface);
            }
        }
    }
}

/// A chunk's light differs at a border exactly where it differs at a cell that touches that
/// border: nothing inside the chunk counts, and the order of the two does not matter.
pub proof fn lemma_borders_are_what_touches(a: LightGrid, b: LightGrid, face: Face, i: int, s: int)
    requires
        0 <= i < CHUNK_VOLUME,
    ensures
        face.touches_spec(local_of_spec(i).0, local_of_spec(i).1, local_of_spec(i).2) && a.cell(i)
            != b.cell(i) ==> exists|t: int| #[trigger] border_differs(a, b, face, t),
        (forall|j: int|
            0 <= j < CHUNK_VOLUME && face.touches_spec(
                local_of_spec(j).0,
                local_of_spec(j).1,
                local_of_spec(j).2,
            ) ==> #[trigger] a.cell(j) == b.cell(j)) ==> !border_differs(a, b, face, s),
        border_differs(a, b, face, s) == border_differs(b, a, face, s),
        face.touches_spec(local_of_spec(i).0, local_of_spec(i).1, local_of_spec(i).2) && a.cell(
            i,
        ).block.value() >= 2 ==> exists|t: int| #[trigger] a.border_block(face, t),
        a.border_block(face, s) ==> exists|j: int|
            0 <= j < CHUNK_VOLUME && (#[trigger] a.cell(j)).block.value() >= 2
                && face.touches_spec(
                local_of_spec(j).0,
                local_of_spec(j).1,
                local_of_spec(j).2,
            ),
{
    if face.touches_spec(local_of_spec(i).0, local_of_spec(i).1, local_of_spec(i).2) {
        lemma_cell_slot(face, i);
        let l = local_of_spec(i);
        let t = slot_spec(face, l.0, l.1, l.2);
        assert(a.cell(i) != b.cell(i) ==> border_differs(a, b, face, t));
        assert(a.cell(i).block.value() >= 2 ==> a.border_block(face, t));
    }
    if 0 <= s < CHUNK_AREA {
        lemma_slot_cell(face, s);
        let j = layer_cell_spec(face, own_layer_spec(face), s);
        assert(a.cell(j) == a.cell(j));
    }
}

} // verus!
