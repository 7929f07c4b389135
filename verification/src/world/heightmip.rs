//! The height pyramid of a world: for each level of detail a grid of ground-height
//! bounds and colours.
//!
//! The finest level samples terrain at the cell centres that far tiles draw. A
//! coarser cell with four finer ones takes their bounds; one at the rim is sampled
//! and widened by the finer cells it has. Bounds therefore always contain those of
//! finer cells, and relief never shrinks upward. Finer levels cover less ground, so
//! every level has about as many cells.
use vstd::arithmetic::power2::pow2;
use vstd::prelude::*;

use crate::block::{BlockId, Detail};
use crate::coord::floor_div;
use crate::ui::Color;
use crate::world::coverage::SectionPos;
use crate::world::generation::TerrainGenerator;
use crate::world::lod::{cell, cell_spec, section_span, section_span_spec};

verus! {

/// Samples per section side.
pub const SECTION_N: i32 = 32;

/// Colour is sampled at every fourth sample of either axis.
pub const COLOR_STRIDE: i32 = 4;

/// What a bake covers: a square of half-side `half_m` metres around the origin, at
/// the levels from `finest` to `coarsest`.
#[derive(Clone, Copy, PartialEq, Eq, Debug, Structural)]
pub struct BakeExtent {
    half_m: i32,
    finest: i8,
    coarsest: i8,
}

impl BakeExtent {
    pub closed spec fn half_spec(self) -> int {
        self.half_m as int
    }

    pub closed spec fn finest_spec(self) -> int {
        self.finest as int
    }

    pub closed spec fn coarsest_spec(self) -> int {
        self.coarsest as int
    }

    #[verifier::type_invariant]
    closed spec fn inv(self) -> bool {
        bakeable(self.half_m as int, self.finest as int, self.coarsest as int)
    }

    /// The extent of a bake.
    pub fn new(half_m: i32, finest: i8, coarsest: i8) -> (e: BakeExtent)
        requires
            bakeable(half_m as int, finest as int, coarsest as int),
        ensures
            e.half_spec() == half_m,
            e.finest_spec() == finest,
            e.coarsest_spec() == coarsest,
    {
        BakeExtent { half_m, finest, coarsest }
    }
}

/// Whether a bake of these measures has 32-bit places: the side of a section of the
/// coarsest level, 32 cells of two to its detail metres, fits, and with it every place
/// in the square.
pub open spec fn bakeable(half_m: int, finest: int, coarsest: int) -> bool {
    &&& 0 < half_m <= i32::MAX
    &&& 0 <= finest <= coarsest <= 25
}

/// One cell of the pyramid: bounds of its ground height, and its mean colour.
#[derive(Clone, Copy, PartialEq, Eq, Debug, Structural)]
pub struct MipCell {
    pub lo: i32,
    pub hi: i32,
    pub color: Color,
}

impl MipCell {
    /// The relief of the cell.
    pub open spec fn err_spec(self) -> int {
        self.hi - self.lo
    }

    /// The relief of the cell; zero for flat ground.
    pub fn err(&self) -> (e: i64)
        ensures
            e == self.err_spec(),
    {
        self.hi as i64 - self.lo as i64
    }

    /// Whether these bounds contain the other's.
    pub open spec fn contains(self, other: MipCell) -> bool {
        self.lo <= other.lo && other.hi <= self.hi
    }
}

/// The lesser of two.
pub open spec fn lesser(a: int, b: int) -> int {
    if a < b {
        a
    } else {
        b
    }
}

/// The greater of two.
pub open spec fn greater(a: int, b: int) -> int {
    if a > b {
        a
    } else {
        b
    }
}

/// The least of the first `n` values.
pub open spec fn least(f: spec_fn(int) -> int, n: int) -> int
    decreases n,
{
    if n <= 1 {
        f(0)
    } else {
        lesser(least(f, n - 1), f(n - 1))
    }
}

/// The greatest of the first `n` values.
pub open spec fn most(f: spec_fn(int) -> int, n: int) -> int
    decreases n,
{
    if n <= 1 {
        f(0)
    } else {
        greater(most(f, n - 1), f(n - 1))
    }
}

/// The sum of the first `n` values.
pub open spec fn total(f: spec_fn(int) -> int, n: int) -> int
    decreases n,
{
    if n <= 0 {
        0
    } else {
        total(f, n - 1) + f(n - 1)
    }
}

proof fn lemma_bounds(f: spec_fn(int) -> int, n: int, k: int)
    requires
        0 <= k < n,
    ensures
        least(f, n) <= f(k) <= most(f, n),
    decreases n,
{
    if k < n - 1 {
        lemma_bounds(f, n - 1, k);
    }
}

/// The colour that every block shows.
pub type ColorFn = spec_fn(BlockId) -> Color;

/// Whether a tint gives the colour that `shown` says, wherever it gives one.
pub open spec fn tints<C: Fn(BlockId) -> Color>(tint: C, shown: ColorFn) -> bool {
    forall|id: BlockId, c: Color| #[trigger] call_ensures(tint, (id,), c) ==> c == shown(id)
}

/// Whether a tint gives every block a colour.
pub open spec fn is_tint<C: Fn(BlockId) -> Color>(tint: C) -> bool {
    forall|id: BlockId| #[trigger] call_requires(tint, (id,))
}

/// World place of sample `i` of section `a` on one axis.
pub open spec fn sample_place(d: int, a: int, i: int) -> int {
    a * section_span_spec(Detail(d as i8)) + i * cell_spec(Detail(d as i8)) + cell_spec(
        Detail(d as i8),
    ) / 2
}

/// The ground height at sample `j` of a section.
pub open spec fn sample_height<G: TerrainGenerator>(terra: G, d: int, ax: int, az: int) -> spec_fn(
    int,
) -> int {
    |j: int|
        terra.height_spec(
            sample_place(d, ax, j % 32) as i32,
            sample_place(d, az, j / 32) as i32,
        ) as int
}

/// The colour at colour sample `j` of a section.
pub open spec fn sample_color<G: TerrainGenerator>(
    terra: G,
    shown: ColorFn,
    d: int,
    ax: int,
    az: int,
    j: int,
) -> Color {
    shown(
        terra.surface_spec(
            sample_place(d, ax, (j % 8) * 4) as i32,
            sample_place(d, az, (j / 8) * 4) as i32,
        ),
    )
}

/// A section sampled from the terrain: bounds over all samples, the mean over the
/// colour samples.
pub open spec fn sampled<G: TerrainGenerator>(
    terra: G,
    shown: ColorFn,
    d: int,
    ax: int,
    az: int,
) -> MipCell {
    let h = sample_height(terra, d, ax, az);
    MipCell {
        lo: least(h, 1024) as i32,
        hi: most(h, 1024) as i32,
        color: Color {
            r: (total(|j: int| sample_color(terra, shown, d, ax, az, j).r as int, 64) / 64) as u8,
            g: (total(|j: int| sample_color(terra, shown, d, ax, az, j).g as int, 64) / 64) as u8,
            b: (total(|j: int| sample_color(terra, shown, d, ax, az, j).b as int, 64) / 64) as u8,
            a: 255,
        },
    }
}

/// Four cells as one: the widest bounds, the mean colour.
pub open spec fn merged(k: Seq<MipCell>) -> MipCell {
    MipCell {
        lo: lesser(lesser(k[0].lo as int, k[1].lo as int), lesser(k[2].lo as int, k[3].lo as int)) as i32,
        hi: greater(
            greater(k[0].hi as int, k[1].hi as int),
            greater(k[2].hi as int, k[3].hi as int),
        ) as i32,
        color: Color {
            r: ((k[0].color.r + k[1].color.r + k[2].color.r + k[3].color.r) / 4) as u8,
            g: ((k[0].color.g + k[1].color.g + k[2].color.g + k[3].color.g) / 4) as u8,
            b: ((k[0].color.b + k[1].color.b + k[2].color.b + k[3].color.b) / 4) as u8,
            a: 255,
        },
    }
}

/// A cell with bounds widened by another, where there is one.
pub open spec fn widened(c: MipCell, k: Option<MipCell>) -> MipCell {
    match k {
        Some(o) => MipCell {
            lo: lesser(c.lo as int, o.lo as int) as i32,
            hi: greater(c.hi as int, o.hi as int) as i32,
            color: c.color,
        },
        None => c,
    }
}

/// A cell from its sample and the finer cells it has: all four merged, else the
/// sample widened.
pub open spec fn joined(sample: MipCell, k: Seq<Option<MipCell>>) -> MipCell {
    if k[0] is Some && k[1] is Some && k[2] is Some && k[3] is Some {
        merged(seq![k[0]->0, k[1]->0, k[2]->0, k[3]->0])
    } else {
        widened(widened(widened(widened(sample, k[0]), k[1]), k[2]), k[3])
    }
}

/// The coverage radius of a level in metres.
pub open spec fn radius(e: BakeExtent, d: int) -> int {
    e.half_spec() / pow2((e.coarsest_spec() - d) as nat) as int
}

/// The first section of a level on either axis.
pub open spec fn first_section(e: BakeExtent, d: int) -> int {
    (-radius(e, d)) / section_span_spec(Detail(d as i8))
}

/// The last section of a level on either axis.
pub open spec fn last_section(e: BakeExtent, d: int) -> int {
    radius(e, d) / section_span_spec(Detail(d as i8))
}

/// Whether a level covers a section.
pub open spec fn covers(e: BakeExtent, d: int, ax: int, az: int) -> bool {
    &&& e.finest_spec() <= d <= e.coarsest_spec()
    &&& first_section(e, d) <= ax <= last_section(e, d)
    &&& first_section(e, d) <= az <= last_section(e, d)
}

/// The cell of a section, if its level covers it.
pub open spec fn baked<G: TerrainGenerator>(
    terra: G,
    shown: ColorFn,
    e: BakeExtent,
    d: int,
    ax: int,
    az: int,
) -> Option<MipCell>
    decreases d - e.finest_spec() + 1,
{
    if !covers(e, d, ax, az) {
        None
    } else {
        Some(
            joined(
                sampled(terra, shown, d, ax, az),
                seq![
                    baked(terra, shown, e, d - 1, 2 * ax, 2 * az),
                    baked(terra, shown, e, d - 1, 2 * ax + 1, 2 * az),
                    baked(terra, shown, e, d - 1, 2 * ax, 2 * az + 1),
                    baked(terra, shown, e, d - 1, 2 * ax + 1, 2 * az + 1),
                ],
            ),
        )
    }
}

/// Bounds of a coarser cell contain those of each finer cell it has, and its relief
/// is at least theirs.
pub proof fn lemma_parent_contains<G: TerrainGenerator>(
    terra: G,
    shown: ColorFn,
    e: BakeExtent,
    d: int,
    ax: int,
    az: int,
    qx: int,
    qz: int,
)
    requires
        0 <= qx <= 1,
        0 <= qz <= 1,
        baked(terra, shown, e, d, ax, az) is Some,
        baked(terra, shown, e, d - 1, 2 * ax + qx, 2 * az + qz) is Some,
    ensures
        ({
            let parent = baked(terra, shown, e, d, ax, az)->0;
            let child = baked(terra, shown, e, d - 1, 2 * ax + qx, 2 * az + qz)->0;
            parent.contains(child) && parent.err_spec() >= child.err_spec()
        }),
{
    let k0 = baked(terra, shown, e, d - 1, 2 * ax, 2 * az);
    let k1 = baked(terra, shown, e, d - 1, 2 * ax + 1, 2 * az);
    let k2 = baked(terra, shown, e, d - 1, 2 * ax, 2 * az + 1);
    let k3 = baked(terra, shown, e, d - 1, 2 * ax + 1, 2 * az + 1);
    let parent = baked(terra, shown, e, d, ax, az)->0;
    let s = sampled(terra, shown, d, ax, az);
    assert(parent == joined(s, seq![k0, k1, k2, k3]));
    if k0 is Some && k1 is Some && k2 is Some && k3 is Some {
        let m = seq![k0->0, k1->0, k2->0, k3->0];
        assert(m[0] == k0->0 && m[1] == k1->0 && m[2] == k2->0 && m[3] == k3->0);
    }
}

/// Bounds of a cell of the finest level contain the ground at each of its samples.
pub proof fn lemma_finest_bounds<G: TerrainGenerator>(
    terra: G,
    shown: ColorFn,
    e: BakeExtent,
    ax: int,
    az: int,
    j: int,
)
    requires
        covers(e, e.finest_spec(), ax, az),
        0 <= j < 1024,
    ensures
        ({
            let c = baked(terra, shown, e, e.finest_spec(), ax, az)->0;
            let h = sample_height(terra, e.finest_spec(), ax, az)(j);
            c.lo <= h <= c.hi
        }),
{
    let d = e.finest_spec();
    let h = sample_height(terra, d, ax, az);
    lemma_bounds(h, 1024, j);
    lemma_least_fits(terra, d, ax, az, 1024);
    let s = sampled(terra, shown, d, ax, az);
    let none = seq![None::<MipCell>, None, None, None];
    assert(baked(terra, shown, e, d - 1, 2 * ax, 2 * az) is None);
    assert(baked(terra, shown, e, d - 1, 2 * ax + 1, 2 * az) is None);
    assert(baked(terra, shown, e, d - 1, 2 * ax, 2 * az + 1) is None);
    assert(baked(terra, shown, e, d - 1, 2 * ax + 1, 2 * az + 1) is None);
    assert(joined(s, none) == s);
}

proof fn lemma_least_fits<G: TerrainGenerator>(terra: G, d: int, ax: int, az: int, n: int)
    requires
        n >= 1,
    ensures
        i32::MIN <= least(sample_height(terra, d, ax, az), n) <= i32::MAX,
        i32::MIN <= most(sample_height(terra, d, ax, az), n) <= i32::MAX,
    decreases n,
{
    let h = sample_height(terra, d, ax, az);
    if n > 1 {
        lemma_least_fits(terra, d, ax, az, n - 1);
    }
}

/// One level of the pyramid: a grid of sections, row by row.
pub struct MipLevel {
    pub detail: i8,
    pub x0: i32,
    pub z0: i32,
    pub nx: usize,
    pub nz: usize,
    pub cells: Vec<MipCell>,
}

impl MipLevel {
    pub open spec fn wf(self) -> bool {
        &&& self.cells@.len() == self.nx * self.nz
        &&& self.nx <= i32::MAX
        &&& self.nz <= i32::MAX
    }

    /// The cell of a section, if the level covers it.
    pub open spec fn at(self, x: int, z: int) -> Option<MipCell> {
        if self.x0 <= x < self.x0 + self.nx && self.z0 <= z < self.z0 + self.nz {
            Some(self.cells@[(z - self.z0) * self.nx + (x - self.x0)])
        } else {
            None
        }
    }

    /// The cell of a section, if the level covers it.
    pub fn get(&self, x: i32, z: i32) -> (r: Option<MipCell>)
        requires
            self.wf(),
        ensures
            r == self.at(x as int, z as int),
    {
        let lx: i64 = x as i64 - self.x0 as i64;
        let lz: i64 = z as i64 - self.z0 as i64;
        if lx < 0 || lz < 0 || lx >= self.nx as i64 || lz >= self.nz as i64 {
            return None;
        }
        let ghost nx = self.nx as int;
        let ghost nz = self.nz as int;
        assert(0 <= lz * nx + lx < nx * nz) by (nonlinear_arith)
            requires
                0 <= lx < nx,
                0 <= lz < nz,
        ;
        assert(lz * nx <= lz * nx + lx);
        assert(lz * nx >= 0) by (nonlinear_arith)
            requires
                0 <= lz,
                0 <= nx,
        ;
        let count: usize = self.cells.len();
        assert(lz * nx + lx < count);
        Some(self.cells[lz as usize * self.nx + lx as usize])
    }
}

fn lo_of(a: i32, b: i32) -> (r: i32)
    ensures
        r == lesser(a as int, b as int),
{
    if a < b {
        a
    } else {
        b
    }
}

fn hi_of(a: i32, b: i32) -> (r: i32)
    ensures
        r == greater(a as int, b as int),
{
    if a > b {
        a
    } else {
        b
    }
}

/// Four cells as one: the widest bounds, the mean colour.
pub fn merge(k: &[MipCell; 4]) -> (c: MipCell)
    ensures
        c == merged(k@),
{
    let r: u32 = (k[0].color.r as u32 + k[1].color.r as u32 + k[2].color.r as u32
        + k[3].color.r as u32) / 4;
    let g: u32 = (k[0].color.g as u32 + k[1].color.g as u32 + k[2].color.g as u32
        + k[3].color.g as u32) / 4;
    let b: u32 = (k[0].color.b as u32 + k[1].color.b as u32 + k[2].color.b as u32
        + k[3].color.b as u32) / 4;
    MipCell {
        lo: lo_of(lo_of(k[0].lo, k[1].lo), lo_of(k[2].lo, k[3].lo)),
        hi: hi_of(hi_of(k[0].hi, k[1].hi), hi_of(k[2].hi, k[3].hi)),
        color: Color { r: r as u8, g: g as u8, b: b as u8, a: 255 },
    }
}

fn widen(c: MipCell, k: Option<MipCell>) -> (r: MipCell)
    ensures
        r == widened(c, k),
{
    match k {
        Some(o) => MipCell { lo: lo_of(c.lo, o.lo), hi: hi_of(c.hi, o.hi), color: c.color },
        None => c,
    }
}

/// Whether a section starts, and all its samples lie, at 32-bit places.
pub open spec fn places_fit(d: int, a: int) -> bool {
    &&& 0 <= d <= 25
    &&& i32::MIN <= sample_place(d, a, 0) - cell_spec(Detail(d as i8)) / 2
    &&& sample_place(d, a, 31) <= i32::MAX
}

fn place(d: i8, a: i32, i: i32) -> (p: i32)
    requires
        places_fit(d as int, a as int),
        0 <= i < 32,
    ensures
        p == sample_place(d as int, a as int, i as int),
{
    let c: i32 = cell(Detail(d));
    let span: i32 = section_span(Detail(d));
    proof {
        assert(span == 32 * c);
        assert(0 <= i * c <= 31 * c) by (nonlinear_arith)
            requires
                0 <= i <= 31,
                0 < c,
        ;
        assert(-0x8000_0000 * 0x7fff_ffff <= a * span <= 0x7fff_ffff * 0x7fff_ffff)
            by (nonlinear_arith)
            requires
                -0x8000_0000 <= a <= 0x7fff_ffff,
                0 < span <= 0x7fff_ffff,
        ;
    }
    (a as i64 * span as i64 + i as i64 * c as i64 + (c / 2) as i64) as i32
}

fn tint_of<C: Fn(BlockId) -> Color>(tint: &C, id: BlockId) -> (c: Color)
    requires
        is_tint(*tint),
    ensures
        forall|shown: ColorFn| #[trigger] tints(*tint, shown) ==> c == shown(id),
{
    let c: Color = tint(id);
    assert(call_ensures(*tint, (id,), c));
    c
}

/// Whether these are the sums of the first `n` colour samples of a section.
spec fn color_sums<G: TerrainGenerator>(
    terra: G,
    shown: ColorFn,
    d: int,
    ax: int,
    az: int,
    n: int,
    r: u32,
    g: u32,
    b: u32,
) -> bool {
    &&& r == total(|j: int| sample_color(terra, shown, d, ax, az, j).r as int, n)
    &&& g == total(|j: int| sample_color(terra, shown, d, ax, az, j).g as int, n)
    &&& b == total(|j: int| sample_color(terra, shown, d, ax, az, j).b as int, n)
}

fn sample_bounds<G: TerrainGenerator>(terra: &G, d: i8, ax: i32, az: i32) -> (r: (i32, i32))
    requires
        terra.ready(),
        places_fit(d as int, ax as int),
        places_fit(d as int, az as int),
    ensures
        r.0 == least(sample_height(*terra, d as int, ax as int, az as int), 1024),
        r.1 == most(sample_height(*terra, d as int, ax as int, az as int), 1024),
{
    let ghost h = sample_height(*terra, d as int, ax as int, az as int);
    let first: i32 = terra.height(place(d, ax, 0), place(d, az, 0));
    let mut lo: i32 = first;
    let mut hi: i32 = first;
    let mut j: i32 = 1;
    assert(h(0) == first);
    while j < 1024
        invariant
            1 <= j <= 1024,
            terra.ready(),
            places_fit(d as int, ax as int),
            places_fit(d as int, az as int),
            h == sample_height(*terra, d as int, ax as int, az as int),
            lo == least(h, j as int),
            hi == most(h, j as int),
        decreases 1024 - j,
    {
        let v: i32 = terra.height(place(d, ax, j % 32), place(d, az, j / 32));
        assert(v == h(j as int));
        lo = lo_of(lo, v);
        hi = hi_of(hi, v);
        j = j + 1;
    }
    (lo, hi)
}

fn sample_tint<G: TerrainGenerator, C: Fn(BlockId) -> Color>(
    terra: &G,
    tint: &C,
    d: i8,
    ax: i32,
    az: i32,
) -> (c: Color)
    requires
        is_tint(*tint),
        terra.ready(),
        places_fit(d as int, ax as int),
        places_fit(d as int, az as int),
    ensures
        forall|shown: ColorFn| #[trigger]
            tints(*tint, shown) ==> c == sampled(
                *terra,
                shown,
                d as int,
                ax as int,
                az as int,
            ).color,
{
    let mut r: u32 = 0;
    let mut g: u32 = 0;
    let mut b: u32 = 0;
    let mut j: i32 = 0;
    while j < 64
        invariant
            0 <= j <= 64,
            is_tint(*tint),
            terra.ready(),
            places_fit(d as int, ax as int),
            places_fit(d as int, az as int),
            forall|shown: ColorFn| #[trigger]
                tints(*tint, shown) ==> color_sums(
                    *terra,
                    shown,
                    d as int,
                    ax as int,
                    az as int,
                    j as int,
                    r,
                    g,
                    b,
                ),
            r <= 255 * j,
            g <= 255 * j,
            b <= 255 * j,
        decreases 64 - j,
    {
        let id = terra.surface_at(
            place(d, ax, (j % 8) * COLOR_STRIDE),
            place(d, az, (j / 8) * COLOR_STRIDE),
        );
        let c = tint_of(tint, id);
        let ghost (r0, g0, b0) = (r, g, b);
        r = r + c.r as u32;
        g = g + c.g as u32;
        b = b + c.b as u32;
        proof {
            assert forall|shown: ColorFn| #[trigger] tints(*tint, shown) implies color_sums(
                *terra,
                shown,
                d as int,
                ax as int,
                az as int,
                j + 1,
                r,
                g,
                b,
            ) by {
                assert(c == sample_color(*terra, shown, d as int, ax as int, az as int, j as int));
                assert(color_sums(
                    *terra,
                    shown,
                    d as int,
                    ax as int,
                    az as int,
                    j as int,
                    r0,
                    g0,
                    b0,
                ));
            }
        }
        j = j + 1;
    }
    Color { r: (r / 64) as u8, g: (g / 64) as u8, b: (b / 64) as u8, a: 255 }
}

/// A section sampled from the terrain.
pub fn sample_section<G: TerrainGenerator, C: Fn(BlockId) -> Color>(
    terra: &G,
    tint: &C,
    d: i8,
    ax: i32,
    az: i32,
) -> (c: MipCell)
    requires
        is_tint(*tint),
        terra.ready(),
        places_fit(d as int, ax as int),
        places_fit(d as int, az as int),
    ensures
        forall|shown: ColorFn| #[trigger]
            tints(*tint, shown) ==> c == sampled(*terra, shown, d as int, ax as int, az as int),
{
    let (lo, hi) = sample_bounds(terra, d, ax, az);
    let color = sample_tint(terra, tint, d, ax, az);
    MipCell { lo, hi, color }
}

/// The pyramid: one level per level of detail, finest first.
pub struct HeightMip {
    pub finest: i8,
    pub coarsest: i8,
    pub levels: Vec<MipLevel>,
}

/// Whether a level has the grid of a bake.
pub open spec fn level_shaped(e: BakeExtent, d: int, l: MipLevel) -> bool {
    &&& l.wf()
    &&& l.detail == d
    &&& l.x0 == first_section(e, d)
    &&& l.z0 == first_section(e, d)
    &&& l.nx == last_section(e, d) - first_section(e, d) + 1
    &&& l.nz == l.nx
}

/// Whether a level holds what a bake puts into it.
pub open spec fn level_baked<G: TerrainGenerator>(
    terra: G,
    shown: ColorFn,
    e: BakeExtent,
    d: int,
    l: MipLevel,
) -> bool {
    &&& level_shaped(e, d, l)
    &&& forall|x: int, z: int| #[trigger] l.at(x, z) == baked(terra, shown, e, d, x, z)
}

/// Whether a level holds what a bake puts into it, for all colours that the tint gives.
pub open spec fn level_tinted<G: TerrainGenerator, C: Fn(BlockId) -> Color>(
    terra: G,
    tint: C,
    e: BakeExtent,
    d: int,
    l: MipLevel,
) -> bool {
    &&& level_shaped(e, d, l)
    &&& forall|shown: ColorFn| #[trigger]
        tints(tint, shown) ==> level_baked(terra, shown, e, d, l)
}

/// The sections that a level covers, and their places, are within bounds.
proof fn lemma_grid(e: BakeExtent, d: int)
    requires
        bakeable(e.half_spec(), e.finest_spec(), e.coarsest_spec()),
        e.finest_spec() <= d <= e.coarsest_spec(),
    ensures
        0 <= radius(e, d) <= i32::MAX,
        section_span_spec(Detail(d as i8)) > 0,
        0 <= last_section(e, d) < 0x400_0000,
        -0x400_0000 <= first_section(e, d) <= 0,
        forall|a: int|
            first_section(e, d) <= a <= last_section(e, d) ==> #[trigger] places_fit(d, a),
{
    let h = e.half_spec();
    let r = radius(e, d);
    let p = pow2((e.coarsest_spec() - d) as nat) as int;
    let q = pow2(d as nat) as int;
    let w = pow2((26 - d) as nat) as int;
    let span = 32 * q;
    assert(section_span_spec(Detail(d as i8)) == span);
    vstd::arithmetic::power2::lemma_pow2_pos((e.coarsest_spec() - d) as nat);
    vstd::arithmetic::power2::lemma_pow2_pos(d as nat);
    vstd::arithmetic::power2::lemma_pow2_adds((26 - d) as nat, d as nat);
    vstd::arithmetic::power2::lemma2_to64();
    vstd::arithmetic::power2::lemma2_to64_rest();
    assert(w * span == 0x8000_0000) by (nonlinear_arith)
        requires
            span == 32 * q,
            w * q == 0x400_0000,
    ;
    assert(w <= 0x400_0000) by (nonlinear_arith)
        requires
            w * q == 0x400_0000,
            q >= 1,
            w >= 0,
    ;
    vstd::arithmetic::div_mod::lemma_div_is_ordered_by_denominator(h, 1, p);
    vstd::arithmetic::div_mod::lemma_div_pos_is_pos(h, p);
    vstd::arithmetic::div_mod::lemma_div_pos_is_pos(r, span);
    let m = r / span;
    let f = (-r) / span;
    vstd::arithmetic::div_mod::lemma_fundamental_div_mod(r, span);
    vstd::arithmetic::div_mod::lemma_fundamental_div_mod(-r, span);
    assert(m < w && -w <= f <= 0) by (nonlinear_arith)
        requires
            span > 0,
            0 <= r < w * span,
            r == span * m + r % span,
            0 <= r % span < span,
            -r == span * f + (-r) % span,
            0 <= (-r) % span < span,
    ;
    assert forall|a: int| f <= a <= m implies #[trigger] places_fit(d, a) by {
        assert(a * span >= -(w * span)) by (nonlinear_arith)
            requires
                -w <= a,
                span > 0,
        ;
        assert(a * span + span <= w * span) by (nonlinear_arith)
            requires
                a + 1 <= w,
                span > 0,
        ;
    }
}

fn kid(child: &Option<&MipLevel>, x: i32, z: i32) -> (r: Option<MipCell>)
    requires
        child matches Some(l) ==> l.wf(),
    ensures
        r == (match *child {
            Some(l) => l.at(x as int, z as int),
            None => None,
        }),
{
    match child {
        Some(l) => l.get(x, z),
        None => None,
    }
}

fn join_cells(sample: MipCell, k: &[Option<MipCell>; 4]) -> (c: MipCell)
    ensures
        c == joined(sample, k@),
{
    match (k[0], k[1], k[2], k[3]) {
        (Some(a), Some(b), Some(c), Some(d)) => {
            let kids: [MipCell; 4] = [a, b, c, d];
            assert(kids@ =~= seq![k@[0]->0, k@[1]->0, k@[2]->0, k@[3]->0]);
            merge(&kids)
        },
        _ => widen(widen(widen(widen(sample, k[0]), k[1]), k[2]), k[3]),
    }
}

/// One level over its grid. Cells that all four finer ones cover are not sampled.
fn build_cell<G: TerrainGenerator, C: Fn(BlockId) -> Color>(
    terra: &G,
    tint: &C,
    d: i8,
    ax: i32,
    az: i32,
    child: &Option<&MipLevel>,
) -> (c: MipCell)
    requires
        is_tint(*tint),
        terra.ready(),
        places_fit(d as int, ax as int),
        places_fit(d as int, az as int),
        -0x400_0000 <= ax <= 0x400_0000,
        -0x400_0000 <= az <= 0x400_0000,
        child matches Some(l) ==> l.wf(),
    ensures
        ({
            let at = |x: int, z: int|
                match *child {
                    Some(l) => l.at(x, z),
                    None => None,
                };
            forall|shown: ColorFn| #[trigger]
                tints(*tint, shown) ==> c == joined(
                    sampled(*terra, shown, d as int, ax as int, az as int),
                    seq![
                        at(2 * ax, 2 * az),
                        at(2 * ax + 1, 2 * az),
                        at(2 * ax, 2 * az + 1),
                        at(2 * ax + 1, 2 * az + 1),
                    ],
                )
        }),
{
    let kids: [Option<MipCell>; 4] = [
        kid(child, 2 * ax, 2 * az),
        kid(child, 2 * ax + 1, 2 * az),
        kid(child, 2 * ax, 2 * az + 1),
        kid(child, 2 * ax + 1, 2 * az + 1),
    ];
    let ghost at = |x: int, z: int|
        match *child {
            Some(l) => l.at(x, z),
            None => None,
        };
    assert(kids@ =~= seq![
        at(2 * ax, 2 * az),
        at(2 * ax + 1, 2 * az),
        at(2 * ax, 2 * az + 1),
        at(2 * ax + 1, 2 * az + 1),
    ]);
    match (kids[0], kids[1], kids[2], kids[3]) {
        (Some(a), Some(b), Some(c), Some(d)) => {
            let four: [MipCell; 4] = [a, b, c, d];
            assert(four@ =~= seq![kids@[0]->0, kids@[1]->0, kids@[2]->0, kids@[3]->0]);
            merge(&four)
        },
        _ => {
            let sample = sample_section(terra, tint, d, ax, az);
            join_cells(sample, &kids)
        },
    }
}

fn build_level<G: TerrainGenerator, C: Fn(BlockId) -> Color>(
    terra: &G,
    tint: &C,
    e: &BakeExtent,
    d: i8,
    child: Option<&MipLevel>,
) -> (l: MipLevel)
    requires
        is_tint(*tint),
        terra.ready(),
        bakeable(e.half_spec(), e.finest_spec(), e.coarsest_spec()),
        e.finest_spec() <= d <= e.coarsest_spec(),
        match child {
            Some(c) => d > e.finest_spec() && level_tinted(*terra, *tint, *e, d - 1, *c),
            None => d == e.finest_spec(),
        },
    ensures
        level_tinted(*terra, *tint, *e, d as int, l),
{
    proof {
        lemma_grid(*e, d as int);
    }
    let gap: i32 = cell(Detail(e.coarsest - d));
    let r: i32 = e.half_m / gap;
    let span: i32 = section_span(Detail(d));
    let x0: i32 = floor_div(-r, span);
    let last: i32 = floor_div(r, span);
    let n: usize = (last - x0 + 1) as usize;
    let ghost nn = n as int;
    let mut cells: Vec<MipCell> = Vec::new();
    let mut sz: usize = 0;
    assert(n <= 0x800_0000);
    while sz < n
        invariant
            sz <= n,
            n <= 0x800_0000,
            nn == n,
            is_tint(*tint),
            terra.ready(),
            bakeable(e.half_spec(), e.finest_spec(), e.coarsest_spec()),
            e.finest_spec() <= d <= e.coarsest_spec(),
            match child {
                Some(c) => d > e.finest_spec() && level_tinted(*terra, *tint, *e, d - 1, *c),
                None => d == e.finest_spec(),
            },
            x0 == first_section(*e, d as int),
            last == last_section(*e, d as int),
            n == last - x0 + 1,
            -0x400_0000 <= x0 <= 0 <= last < 0x400_0000,
            forall|a: int| x0 <= a <= last ==> #[trigger] places_fit(d as int, a),
            cells@.len() == sz * n,
            forall|shown: ColorFn| #[trigger]
                tints(*tint, shown) ==> rows_baked(
                    *terra,
                    shown,
                    *e,
                    d as int,
                    nn,
                    sz as int,
                    0,
                    cells@,
                ),
        decreases n - sz,
    {
        build_row(terra, tint, e, d, &child, x0, last, n, sz, &mut cells);
        assert(sz * nn + nn == (sz + 1) * nn) by (nonlinear_arith);
        sz = sz + 1;
    }
    let l = MipLevel { detail: d, x0, z0: x0, nx: n, nz: n, cells };
    proof {
        assert forall|shown: ColorFn| #[trigger] tints(*tint, shown) implies level_baked(
            *terra,
            shown,
            *e,
            d as int,
            l,
        ) by {
            lemma_rows(*terra, shown, *e, d as int, l);
        }
    }
    l
}

/// Whether the first `sz` rows of a level, and the first `sx` cells of the next, hold
/// what a bake puts there.
spec fn rows_baked<G: TerrainGenerator>(
    terra: G,
    shown: ColorFn,
    e: BakeExtent,
    d: int,
    n: int,
    sz: int,
    sx: int,
    cells: Seq<MipCell>,
) -> bool {
    let x0 = first_section(e, d);
    forall|i: int, k: int|
        0 <= k <= sz && 0 <= i < n && (k < sz || i < sx) ==> Some(#[trigger] cells[k * n + i])
            == baked(terra, shown, e, d, x0 + i, x0 + k)
}

/// A level with all its rows baked is baked.
proof fn lemma_rows<G: TerrainGenerator>(
    terra: G,
    shown: ColorFn,
    e: BakeExtent,
    d: int,
    l: MipLevel,
)
    requires
        e.finest_spec() <= d <= e.coarsest_spec(),
        level_shaped(e, d, l),
        rows_baked(terra, shown, e, d, l.nx as int, l.nx as int, 0, l.cells@),
    ensures
        level_baked(terra, shown, e, d, l),
{
    let x0 = first_section(e, d);
    let n = l.nx as int;
    assert forall|x: int, z: int| #[trigger] l.at(x, z) == baked(terra, shown, e, d, x, z) by {
        if x0 <= x < x0 + n && x0 <= z < x0 + n {
            assert(Some(l.cells@[(z - x0) * n + (x - x0)]) == baked(
                terra,
                shown,
                e,
                d,
                x0 + (x - x0),
                x0 + (z - x0),
            ));
        }
    }
}

/// One more cell of a row.
proof fn lemma_row_cell<G: TerrainGenerator>(
    terra: G,
    shown: ColorFn,
    e: BakeExtent,
    d: int,
    n: int,
    sz: int,
    sx: int,
    cells: Seq<MipCell>,
    c: MipCell,
)
    requires
        rows_baked(terra, shown, e, d, n, sz, sx, cells),
        0 <= sz,
        0 <= sx < n,
        cells.len() == sz * n + sx,
        Some(c) == baked(
            terra,
            shown,
            e,
            d,
            first_section(e, d) + sx,
            first_section(e, d) + sz,
        ),
    ensures
        rows_baked(terra, shown, e, d, n, sz, sx + 1, cells.push(c)),
{
    let x0 = first_section(e, d);
    let after = cells.push(c);
    assert forall|i: int, k: int|
        0 <= k <= sz && 0 <= i < n && (k < sz || i < sx + 1) implies Some(
        #[trigger] after[k * n + i],
    ) == baked(terra, shown, e, d, x0 + i, x0 + k) by {
        if k < sz {
            assert(0 <= k * n + i < sz * n) by (nonlinear_arith)
                requires
                    0 <= k,
                    k + 1 <= sz,
                    0 <= i < n,
            ;
            assert(cells[k * n + i] == after[k * n + i]);
        } else {
            assert(k * n + i == sz * n + i);
            if i < sx {
                assert(sz * n >= 0) by (nonlinear_arith)
                    requires
                        sz >= 0,
                        n > 0,
                ;
                assert(cells[k * n + i] == after[k * n + i]);
            }
        }
    }
}

/// A cell joined from its sample and the finer cells it has is the baked one.
proof fn lemma_cell_joined<G: TerrainGenerator>(
    terra: G,
    shown: ColorFn,
    e: BakeExtent,
    d: int,
    x: int,
    z: int,
    child: Option<MipLevel>,
)
    requires
        covers(e, d, x, z),
        match child {
            Some(l) => level_baked(terra, shown, e, d - 1, l),
            None => d == e.finest_spec(),
        },
    ensures
        ({
            let at = |x: int, z: int|
                match child {
                    Some(l) => l.at(x, z),
                    None => None,
                };
            baked(terra, shown, e, d, x, z) == Some(
                joined(
                    sampled(terra, shown, d, x, z),
                    seq![
                        at(2 * x, 2 * z),
                        at(2 * x + 1, 2 * z),
                        at(2 * x, 2 * z + 1),
                        at(2 * x + 1, 2 * z + 1),
                    ],
                ),
            )
        }),
{
    let at = |x: int, z: int|
        match child {
            Some(l) => l.at(x, z),
            None => None,
        };
    assert forall|u: int, v: int| #[trigger] at(u, v) == baked(terra, shown, e, d - 1, u, v) by {
        match child {
            Some(l) => {
                assert(l.at(u, v) == baked(terra, shown, e, d - 1, u, v));
            },
            None => {
                assert(!covers(e, d - 1, u, v));
            },
        }
    }
    assert(at(2 * x, 2 * z) == baked(terra, shown, e, d - 1, 2 * x, 2 * z));
    assert(at(2 * x + 1, 2 * z) == baked(terra, shown, e, d - 1, 2 * x + 1, 2 * z));
    assert(at(2 * x, 2 * z + 1) == baked(terra, shown, e, d - 1, 2 * x, 2 * z + 1));
    assert(at(2 * x + 1, 2 * z + 1) == baked(terra, shown, e, d - 1, 2 * x + 1, 2 * z + 1));
}

/// One row of a level.
fn build_row<G: TerrainGenerator, C: Fn(BlockId) -> Color>(
    terra: &G,
    tint: &C,
    e: &BakeExtent,
    d: i8,
    child: &Option<&MipLevel>,
    x0: i32,
    last: i32,
    n: usize,
    sz: usize,
    cells: &mut Vec<MipCell>,
)
    requires
        is_tint(*tint),
        terra.ready(),
        e.finest_spec() <= d <= e.coarsest_spec(),
        0 <= e.finest_spec(),
        match *child {
            Some(c) => d > e.finest_spec() && level_tinted(*terra, *tint, *e, d - 1, *c),
            None => d == e.finest_spec(),
        },
        x0 == first_section(*e, d as int),
        last == last_section(*e, d as int),
        n == last - x0 + 1,
        n <= 0x800_0000,
        sz < n,
        -0x400_0000 <= x0 <= 0 <= last < 0x400_0000,
        forall|a: int| x0 <= a <= last ==> #[trigger] places_fit(d as int, a),
        old(cells)@.len() == sz * n,
        forall|shown: ColorFn| #[trigger]
            tints(*tint, shown) ==> rows_baked(
                *terra,
                shown,
                *e,
                d as int,
                n as int,
                sz as int,
                0,
                old(cells)@,
            ),
    ensures
        final(cells)@.len() == sz * n + n,
        forall|shown: ColorFn| #[trigger]
            tints(*tint, shown) ==> rows_baked(
                *terra,
                shown,
                *e,
                d as int,
                n as int,
                sz + 1,
                0,
                final(cells)@,
            ),
{
    let az: i32 = x0 + sz as i32;
    let mut sx: usize = 0;
    while sx < n
        invariant
            sx <= n,
            is_tint(*tint),
            terra.ready(),
            e.finest_spec() <= d <= e.coarsest_spec(),
            0 <= e.finest_spec(),
            match *child {
                Some(c) => d > e.finest_spec() && level_tinted(*terra, *tint, *e, d - 1, *c),
                None => d == e.finest_spec(),
            },
            x0 == first_section(*e, d as int),
            last == last_section(*e, d as int),
            n == last - x0 + 1,
            n <= 0x800_0000,
            sz < n,
            az == x0 + sz,
            -0x400_0000 <= x0 <= 0 <= last < 0x400_0000,
            forall|a: int| x0 <= a <= last ==> #[trigger] places_fit(d as int, a),
            cells@.len() == sz * n + sx,
            forall|shown: ColorFn| #[trigger]
                tints(*tint, shown) ==> rows_baked(
                    *terra,
                    shown,
                    *e,
                    d as int,
                    n as int,
                    sz as int,
                    sx as int,
                    cells@,
                ),
        decreases n - sx,
    {
        let ax: i32 = x0 + sx as i32;
        assert(places_fit(d as int, ax as int) && places_fit(d as int, az as int));
        let c = build_cell(terra, tint, d, ax, az, child);
        let ghost before = cells@;
        cells.push(c);
        proof {
            let finer: Option<MipLevel> = match *child {
                Some(l) => Some(*l),
                None => None,
            };
            let at = |x: int, z: int|
                match *child {
                    Some(l) => l.at(x, z),
                    None => None,
                };
            let also = |x: int, z: int|
                match finer {
                    Some(l) => l.at(x, z),
                    None => None,
                };
            assert(covers(*e, d as int, ax as int, az as int));
            assert forall|shown: ColorFn| #[trigger] tints(*tint, shown) implies rows_baked(
                *terra,
                shown,
                *e,
                d as int,
                n as int,
                sz as int,
                sx + 1,
                cells@,
            ) by {
                lemma_cell_joined(*terra, shown, *e, d as int, ax as int, az as int, finer);
                assert(at =~= also);
                lemma_row_cell(
                    *terra,
                    shown,
                    *e,
                    d as int,
                    n as int,
                    sz as int,
                    sx as int,
                    before,
                    c,
                );
            }
        }
        sx = sx + 1;
    }
}

impl HeightMip {
    /// Whether the levels are one per level of detail, finest first.
    pub open spec fn wf(self) -> bool {
        &&& 0 <= self.finest <= self.coarsest <= 25
        &&& self.levels@.len() == self.coarsest - self.finest + 1
        &&& forall|k: int|
            0 <= k < self.levels@.len() ==> (#[trigger] self.levels@[k]).wf()
                && self.levels@[k].detail == self.finest + k
    }

    /// Bakes the pyramid of a terrain.
    pub fn bake<G: TerrainGenerator, C: Fn(BlockId) -> Color>(
        terra: &G,
        tint: &C,
        extent: &BakeExtent,
    ) -> (m: HeightMip)
        requires
            is_tint(*tint),
            terra.ready(),
        ensures
            m.wf(),
            m.finest == extent.finest_spec(),
            m.coarsest == extent.coarsest_spec(),
            forall|k: int|
                0 <= k < m.levels@.len() ==> level_tinted(
                    *terra,
                    *tint,
                    *extent,
                    m.finest + k,
                    #[trigger] m.levels@[k],
                ),
    {
        proof {
            use_type_invariant(extent);
        }
        let finest: i8 = extent.finest;
        let coarsest: i8 = extent.coarsest;
        let mut levels: Vec<MipLevel> = Vec::new();
        let mut d: i8 = finest;
        while d <= coarsest
            invariant
                is_tint(*tint),
                terra.ready(),
                bakeable(extent.half_spec(), extent.finest_spec(), extent.coarsest_spec()),
                finest == extent.finest_spec(),
                coarsest == extent.coarsest_spec(),
                coarsest <= 25,
                finest <= d <= coarsest + 1,
                levels@.len() == d - finest,
                forall|k: int|
                    0 <= k < levels@.len() ==> level_tinted(
                        *terra,
                        *tint,
                        *extent,
                        finest + k,
                        #[trigger] levels@[k],
                    ),
            decreases coarsest + 1 - d,
        {
            let n: usize = levels.len();
            let child: Option<&MipLevel> = if n > 0 {
                Some(&levels[n - 1])
            } else {
                None
            };
            let l = build_level(terra, tint, extent, d, child);
            levels.push(l);
            d = d + 1;
        }
        HeightMip { finest, coarsest, levels }
    }

    /// The cell of a section, if it is baked.
    pub open spec fn cell_spec(self, pos: SectionPos) -> Option<MipCell> {
        if self.finest <= pos.detail.0 <= self.coarsest {
            self.levels@[pos.detail.0 - self.finest].at(pos.x as int, pos.z as int)
        } else {
            None
        }
    }

    /// The cell of a section, if it is baked.
    pub fn cell(&self, pos: SectionPos) -> (r: Option<MipCell>)
        requires
            self.wf(),
        ensures
            r == self.cell_spec(pos),
    {
        if pos.detail.0 < self.finest || pos.detail.0 > self.coarsest {
            return None;
        }
        self.levels[(pos.detail.0 - self.finest) as usize].get(pos.x, pos.z)
    }

    /// The bounds of a section's ground and its error. A section beyond the bake
    /// counts as wholly uncertain: bounds of the whole height domain, and an error
    /// of one cell of its detail.
    pub fn summary(&self, pos: SectionPos, domain_h: i32) -> (r: (i32, i32, i64))
        requires
            self.wf(),
            0 <= pos.detail.0 <= 30,
        ensures
            r == (match self.cell_spec(pos) {
                Some(c) => (c.lo, c.hi, c.err_spec() as i64),
                None => (0i32, domain_h, cell_spec(pos.detail) as i64),
            }),
    {
        match self.cell(pos) {
            Some(c) => (c.lo, c.hi, c.err()),
            None => (0, domain_h, cell(pos.detail) as i64),
        }
    }

    /// The mean colour of a baked section.
    pub fn color(&self, pos: SectionPos) -> (r: Option<Color>)
        requires
            self.wf(),
        ensures
            r == (match self.cell_spec(pos) {
                Some(c) => Some(c.color),
                None => None,
            }),
    {
        match self.cell(pos) {
            Some(c) => Some(c.color),
            None => None,
        }
    }

    /// The ground bounds of a baked section.
    pub fn relief_band(&self, pos: SectionPos) -> (r: Option<(i32, i32)>)
        requires
            self.wf(),
        ensures
            r == (match self.cell_spec(pos) {
                Some(c) => Some((c.lo, c.hi)),
                None => None,
            }),
    {
        match self.cell(pos) {
            Some(c) => Some((c.lo, c.hi)),
            None => None,
        }
    }

    /// The ground below which nothing shows at a place, read at the coarsest level.
    pub fn coarse_lo(&self, wx: i32, wz: i32) -> (r: Option<i32>)
        requires
            self.wf(),
        ensures
            r == (match self.levels@.last().at(
                wx as int / section_span_spec(Detail(self.coarsest)),
                wz as int / section_span_spec(Detail(self.coarsest)),
            ) {
                Some(c) => Some(c.lo),
                None => None,
            }),
    {
        let n: usize = self.levels.len();
        let span: i32 = section_span(Detail(self.coarsest));
        match self.levels[n - 1].get(floor_div(wx, span), floor_div(wz, span)) {
            Some(c) => Some(c.lo),
            None => None,
        }
    }
}

/// A section's samples stand in it: sample `i` along an axis is at the middle of cell `i`
/// of the section's thirty-two, so never outside the section.
pub proof fn lemma_samples_stand_in_their_section(d: int, a: int, i: int)
    requires
        0 <= d <= 25,
        0 <= i < 32,
    ensures
        ({
            let cell = pow2(d as nat) as int;
            let p = sample_place(d, a, i);
            &&& cell >= 1
            &&& a * (32 * cell) + i * cell <= p < a * (32 * cell) + i * cell + cell
            &&& a * (32 * cell) <= p < (a + 1) * (32 * cell)
            &&& 2 * (p - (a * (32 * cell) + i * cell)) <= cell
        }),
{
    let cell = pow2(d as nat) as int;
    vstd::arithmetic::power2::lemma_pow2_pos(d as nat);
    assert((d as i8) as nat == d as nat);
    assert(i * cell + cell <= 32 * cell) by (nonlinear_arith)
        requires
            0 <= i < 32,
            cell >= 1,
    ;
    assert(0 <= i * cell) by (nonlinear_arith)
        requires
            0 <= i,
            cell >= 1,
    ;
    assert((a + 1) * (32 * cell) == a * (32 * cell) + 32 * cell) by (nonlinear_arith);
}

/// A section of four finer ones is bounded as tightly as they are together: it holds every
/// one of them, and its ends are ends of theirs. Its color is their mean.
pub proof fn lemma_merge_is_tight(k: Seq<MipCell>)
    requires
        k.len() == 4,
    ensures
        ({
            let m = merged(k);
            &&& m.contains(k[0]) && m.contains(k[1]) && m.contains(k[2]) && m.contains(k[3])
            &&& m.lo == k[0].lo || m.lo == k[1].lo || m.lo == k[2].lo || m.lo == k[3].lo
            &&& m.hi == k[0].hi || m.hi == k[1].hi || m.hi == k[2].hi || m.hi == k[3].hi
            &&& 4 * m.color.r <= k[0].color.r + k[1].color.r + k[2].color.r + k[3].color.r < 4
                * m.color.r + 4
            &&& 4 * m.color.g <= k[0].color.g + k[1].color.g + k[2].color.g + k[3].color.g < 4
                * m.color.g + 4
            &&& 4 * m.color.b <= k[0].color.b + k[1].color.b + k[2].color.b + k[3].color.b < 4
                * m.color.b + 4
            &&& m.color.a == 255
        }),
{
}

/// A section that lacks some of its four finer ones is bounded by its own samples and by
/// those that it has, and keeps its own color.
pub proof fn lemma_partial_merge(sample: MipCell, k: Seq<Option<MipCell>>, i: int)
    requires
        k.len() == 4,
        0 <= i < 4,
        k[0] is None || k[1] is None || k[2] is None || k[3] is None,
    ensures
        joined(sample, k).contains(sample),
        k[i] is Some ==> joined(sample, k).contains(k[i]->0),
        joined(sample, k).color == sample.color,
        k[0] is None && k[1] is None && k[2] is None && k[3] is None ==> joined(sample, k)
            == sample,
{
}

proof fn lemma_least_met(f: spec_fn(int) -> int, n: int) -> (k: (int, int))
    requires
        n >= 1,
    ensures
        0 <= k.0 < n,
        0 <= k.1 < n,
        f(k.0) == least(f, n),
        f(k.1) == most(f, n),
    decreases n,
{
    if n == 1 {
        (0, 0)
    } else {
        let (a, b) = lemma_least_met(f, n - 1);
        (
            if f(n - 1) <= least(f, n - 1) {
                n - 1
            } else {
                a
            },
            if f(n - 1) >= most(f, n - 1) {
                n - 1
            } else {
                b
            },
        )
    }
}

/// The finest sections are bounded by their samples, no lower and no higher than met: every
/// sample lies between the two bounds, and each bound is a sample.
pub proof fn lemma_sampled_bounds_are_met<G: TerrainGenerator>(
    terra: G,
    shown: ColorFn,
    d: int,
    ax: int,
    az: int,
    j: int,
)
    requires
        0 <= j < 1024,
    ensures
        ({
            let c = sampled(terra, shown, d, ax, az);
            let at = |k: int|
                terra.height_spec(
                    sample_place(d, ax, k % 32) as i32,
                    sample_place(d, az, k / 32) as i32,
                );
            &&& c.lo <= at(j) <= c.hi
            &&& exists|k: int| 0 <= k < 1024 && #[trigger] at(k) == c.lo
            &&& exists|k: int| 0 <= k < 1024 && #[trigger] at(k) == c.hi
        }),
{
    let h = sample_height(terra, d, ax, az);
    let at = |k: int|
        terra.height_spec(
            sample_place(d, ax, k % 32) as i32,
            sample_place(d, az, k / 32) as i32,
        );
    lemma_bounds(h, 1024, j);
    lemma_least_fits(terra, d, ax, az, 1024);
    let (a, b) = lemma_least_met(h, 1024);
    assert(h(j) == at(j));
    assert(h(a) == at(a));
    assert(h(b) == at(b));
}

/// The extent is covered: the coarsest sections hold every column within the extent, and
/// each finer level every column within half of the next one's distance.
pub proof fn lemma_extent_is_covered(e: BakeExtent, d: int, x: int, z: int)
    requires
        bakeable(e.half_spec(), e.finest_spec(), e.coarsest_spec()),
        e.finest_spec() <= d <= e.coarsest_spec(),
        -radius(e, d) <= x <= radius(e, d),
        -radius(e, d) <= z <= radius(e, d),
    ensures
        covers(
            e,
            d,
            x / section_span_spec(Detail(d as i8)),
            z / section_span_spec(Detail(d as i8)),
        ),
        d == e.coarsest_spec() ==> radius(e, d) == e.half_spec(),
        d < e.coarsest_spec() ==> radius(e, d) == radius(e, d + 1) / 2,
{
    let span = section_span_spec(Detail(d as i8));
    vstd::arithmetic::power2::lemma_pow2_pos((d as i8) as nat);
    let r = radius(e, d);
    assert(span > 0);
    vstd::arithmetic::div_mod::lemma_div_is_ordered(-r, x, span);
    vstd::arithmetic::div_mod::lemma_div_is_ordered(x, r, span);
    vstd::arithmetic::div_mod::lemma_div_is_ordered(-r, z, span);
    vstd::arithmetic::div_mod::lemma_div_is_ordered(z, r, span);
    let n = (e.coarsest_spec() - d) as nat;
    if n == 0 {
        vstd::arithmetic::power2::lemma2_to64();
    } else {
        vstd::arithmetic::power2::lemma_pow2_unfold(n);
        vstd::arithmetic::power2::lemma_pow2_pos((n - 1) as nat);
        let p = pow2((n - 1) as nat) as int;
        assert(pow2(n) == 2 * p);
        vstd::arithmetic::div_mod::lemma_div_denominator(e.half_spec(), p, 2);
        assert(p * 2 == 2 * p);
    }
}

proof fn lemma_total_bounds(f: spec_fn(int) -> int, n: int, lo: int, hi: int)
    requires
        0 <= n,
        forall|j: int| 0 <= j < n ==> lo <= #[trigger] f(j) <= hi,
    ensures
        n * lo <= total(f, n) <= n * hi,
    decreases n,
{
    if n > 0 {
        lemma_total_bounds(f, n - 1, lo, hi);
        assert(lo <= f(n - 1) <= hi);
        assert(n * lo == (n - 1) * lo + lo) by (nonlinear_arith);
        assert(n * hi == (n - 1) * hi + hi) by (nonlinear_arith);
    } else {
        assert(n * lo == 0 && n * hi == 0) by (nonlinear_arith)
            requires
                n == 0,
        ;
    }
}

/// The colour of a sampled section lies, channel by channel, within the colours of the ground
/// at its colour samples, which stand four cells apart, eight by eight; it is opaque.
pub proof fn lemma_sampled_colour_is_the_grounds<G: TerrainGenerator>(
    terra: G,
    shown: ColorFn,
    d: int,
    ax: int,
    az: int,
    lo: Color,
    hi: Color,
)
    requires
        forall|i: int, k: int|
            0 <= i < 8 && 0 <= k < 8 ==> {
                let c = shown(
                    terra.surface_spec(
                        #[trigger] sample_place(d, ax, 4 * i) as i32,
                        #[trigger] sample_place(d, az, 4 * k) as i32,
                    ),
                );
                &&& lo.r <= c.r <= hi.r
                &&& lo.g <= c.g <= hi.g
                &&& lo.b <= c.b <= hi.b
            },
    ensures
        ({
            let c = sampled(terra, shown, d, ax, az).color;
            &&& lo.r <= c.r <= hi.r
            &&& lo.g <= c.g <= hi.g
            &&& lo.b <= c.b <= hi.b
            &&& c.a == 255
        }),
{
    let r = |j: int| sample_color(terra, shown, d, ax, az, j).r as int;
    let g = |j: int| sample_color(terra, shown, d, ax, az, j).g as int;
    let b = |j: int| sample_color(terra, shown, d, ax, az, j).b as int;
    assert forall|j: int| 0 <= j < 64 implies lo.r <= #[trigger] r(j) <= hi.r && lo.g <= g(j)
        <= hi.g && lo.b <= b(j) <= hi.b by {
        let (i, k) = (j % 8, j / 8);
        assert(0 <= i < 8 && 0 <= k < 8);
        assert(sample_place(d, ax, (j % 8) * 4) == sample_place(d, ax, 4 * i));
        assert(sample_place(d, az, (j / 8) * 4) == sample_place(d, az, 4 * k));
    }
    assert forall|j: int| 0 <= j < 64 implies lo.g <= #[trigger] g(j) <= hi.g by {
        assert(r(j) >= lo.r);
    }
    assert forall|j: int| 0 <= j < 64 implies lo.b <= #[trigger] b(j) <= hi.b by {
        assert(r(j) >= lo.r);
    }
    lemma_total_bounds(r, 64, lo.r as int, hi.r as int);
    lemma_total_bounds(g, 64, lo.g as int, hi.g as int);
    lemma_total_bounds(b, 64, lo.b as int, hi.b as int);
}

} // verus!
