//! The integer diffusion world: plates, continents, climate and column fill.
//!
//! Two macro passes write eight channels per column: plates and continents first,
//! then climate, which reads the first pass around the column. The noise that the
//! first pass shapes, and the blending of overlapping windows, come from outside;
//! here stand the rules that turn samples into terrain.
use vstd::prelude::*;

use crate::block::BlockId;
use crate::coord::floor_rem;
use crate::world::chunk::{
    lemma_uniform_is_cheapest, local_of_spec, Chunk, ChunkData, CHUNK_VOLUME,
};
use crate::world::generation::{
    cell_hash, cell_hash_spec, column_in_world, layer_in_world, ColumnHeights, CHUNK_COLUMNS,
};
use crate::world::placement::{Resolved, SurfaceKind, SURFACE_SCATTER_SALT};
use crate::world::q16::{
    clamp_q16, clamp_q16_spec, div_toward_zero, lemma_blends, lemma_blends_follow, lemma_products,
    lemma_rounds_to_nearest, lerp_q16, lerp_q16_spec, mul_q16, mul_q16_spec, norm01, norm01_spec,
    q16_round, q16_round_spec, smoothstep_q16, smoothstep_q16_spec, toward_zero, whole_part, HALF,
    ONE,
};

verus! {

/// Sea level in blocks.
pub const SEA: i32 = 20;

/// The number of channels of a column.
pub const CHANNELS: usize = 8;

/// Elevation over sea level in metres.
pub const CH_ELEV: usize = 0;

/// Temperature; holds continentalness between the two passes.
pub const CH_TEMP: usize = 1;

/// Humidity.
pub const CH_HUMID: usize = 2;

/// Geology: the region in the low byte, its hardness above.
pub const CH_GEOL: usize = 3;

/// Water: a flag for columns that are a basin.
pub const CH_WATER: usize = 4;

/// Caves. Nothing is written there yet.
pub const CH_CAVES: usize = 5;

/// Sky. Nothing is written there yet.
pub const CH_SKY: usize = 6;

/// Detail. Nothing is written there yet.
pub const CH_DETAIL: usize = 7;

/// The flag of a basin in the water channel.
pub const WATER_BASIN: i32 = 256;

/// The side of a plate cell in metres.
pub const CELL_PLATE: i32 = 3000;

/// The side of a volcanic cell in metres.
pub const CELL_VOLC: i32 = 1500;

/// The sum of four octaves that halve each time.
pub const FBM4: i32 = 122880;

/// Continentalness at the edge of the deep sea (0.22).
pub const C_DEEP: i32 = 14417;

/// Continentalness at the edge of the shelf (0.32).
pub const C_SHELF: i32 = 20971;

/// Continentalness at the coast (0.42).
pub const C_COAST: i32 = 27525;

/// Continentalness of low land (0.55).
pub const C_LOW: i32 = 36044;

/// Continentalness of high land (0.75).
pub const C_UP: i32 = 49152;

/// The deepest sea bed, on a plate boundary: -60 metres.
pub const TRENCH: i32 = -3932160;

/// The height of a mountain belt on a plate boundary: 85 metres.
pub const BELT_AMP: i32 = 5570560;

/// The loss of temperature per metre.
pub const LAPSE_Q16: i32 = 262;

/// The slope of a volcanic cone (0.35).
pub const POINT_35: i32 = 22937;

/// Bhaskara's approximation of the sine of an angle between 0 and 180 degrees.
pub open spec fn sin_bhaskara_spec(deg: int) -> int {
    if deg <= 0 || deg >= 180 {
        0
    } else if deg == 90 {
        ONE as int
    } else {
        (4 * (deg * (180 - deg)) * ONE) / (40500 - deg * (180 - deg))
    }
}

proof fn lemma_angle(deg: int)
    requires
        0 < deg < 180,
    ensures
        0 < deg * (180 - deg) <= 8100,
        0 <= sin_bhaskara_spec(deg) <= ONE,
{
    let p = deg * (180 - deg);
    assert(0 < p <= 8100) by (nonlinear_arith)
        requires
            0 < deg < 180,
            p == deg * (180 - deg),
    {
        let d = deg - 90;
        assert(deg * (180 - deg) == 8100 - d * d) by (nonlinear_arith)
            requires
                d == deg - 90,
        ;
        assert(d * d >= 0) by (nonlinear_arith);
        assert(deg * (180 - deg) > 0) by (nonlinear_arith)
            requires
                0 < deg < 180,
        ;
    }
    let den = 40500 - p;
    assert(0 <= (4 * p * 65536) / den <= 65536) by (nonlinear_arith)
        requires
            0 < p <= 8100,
            den == 40500 - p,
    ;
}

/// Bhaskara's approximation of the sine of an angle in degrees.
pub fn sin_bhaskara_q16(deg: i32) -> (r: i32)
    ensures
        r == sin_bhaskara_spec(deg as int),
        0 <= r <= ONE,
{
    if deg <= 0 || deg >= 180 {
        return 0;
    }
    if deg == 90 {
        return ONE;
    }
    proof {
        lemma_angle(deg as int);
    }
    let p: i32 = deg * (180 - deg);
    let num: i64 = (4 * p) as i64 * ONE as i64;
    let den: i64 = (40500 - p) as i64;
    (num / den) as i32
}

/// The cosine of `i` parts of a 256-part turn.
pub open spec fn cos_k_spec(i: int) -> int {
    let s = (i % 256 + 64) % 256;
    let half = if s <= 128 {
        s
    } else {
        256 - s
    };
    let sine = sin_bhaskara_spec((half * 180 + 64) / 128);
    if s <= 128 {
        sine
    } else {
        -sine
    }
}

/// The cosine of `i` parts of a 256-part turn.
pub fn cos_k(i: usize) -> (r: i32)
    ensures
        r == cos_k_spec(i as int),
        -ONE <= r <= ONE,
{
    let q: i32 = (i % 256) as i32;
    let s: i32 = (q + 64) % 256;
    let half: i32 = if s <= 128 {
        s
    } else {
        256 - s
    };
    let deg: i32 = (half * 180 + 64) / 128;
    let sine: i32 = sin_bhaskara_q16(deg);
    if s <= 128 {
        sine
    } else {
        -sine
    }
}

/// The cosine of the latitude of a row; a full turn every 16384 metres.
pub open spec fn cos_lat_spec(z: i32) -> i32 {
    let t = z as int % 16384;
    lerp_q16_spec(
        cos_k_spec(t / 64) as i32,
        cos_k_spec(t / 64 + 1) as i32,
        ((t % 64) * 1024) as i32,
    )
}

/// The cosine of the latitude of a row; a full turn every 16384 metres.
pub fn cos_lat(z: i32) -> (r: i32)
    ensures
        r == cos_lat_spec(z),
{
    let t: i32 = floor_rem(z, 16384);
    let i: usize = (t / 64) as usize;
    let frac: i32 = (t % 64) * 1024;
    lerp_q16(cos_k(i), cos_k(i + 1), frac)
}

/// The seam of latitudes: one turn along, everything repeats.
pub proof fn lemma_latitude_repeats(z: i32, w: i32)
    requires
        w == z + 16384,
    ensures
        cos_lat_spec(w) == cos_lat_spec(z),
{
    assert(w as int % 16384 == z as int % 16384);
}

/// The continentalness of the elevation knots.
pub const KNOT_AT: [i32; 7] = [0, 14417, 20971, 27525, 36044, 49152, 65536];

/// The elevations of the knots, in metres.
pub const KNOT_ELEV: [i32; 7] = [-2621440, -2621440, -524288, 131072, 524288, 1966080, 2949120];

/// The elevation on the stretch that ends in knot `i`.
pub open spec fn stretch(cont: i32, i: int) -> i32 {
    lerp_q16_spec(
        KNOT_ELEV@[i - 1],
        KNOT_ELEV@[i],
        (((cont - KNOT_AT@[i - 1]) * 65536) / (KNOT_AT@[i] - KNOT_AT@[i - 1])) as i32,
    )
}

/// The elevation from knot `i` on.
pub open spec fn spline_from(cont: i32, i: int) -> i32
    decreases 7 - i,
{
    if i >= 7 {
        KNOT_ELEV@[6]
    } else if cont <= KNOT_AT@[i] {
        stretch(cont, i)
    } else {
        spline_from(cont, i + 1)
    }
}

/// Base elevation over continentalness: deep sea, shelf, coast, low and high land.
pub open spec fn elev_spline_spec(cont: i32) -> i32 {
    if cont <= 0 {
        KNOT_ELEV@[0]
    } else {
        spline_from(cont, 1)
    }
}

/// Base elevation over continentalness: deep sea, shelf, coast, low and high land.
pub fn elev_spline(cont: i32) -> (e: i32)
    ensures
        e == elev_spline_spec(cont),
{
    if cont <= KNOT_AT[0] {
        return KNOT_ELEV[0];
    }
    let mut i: usize = 1;
    while i < 7
        invariant
            1 <= i <= 7,
            cont > KNOT_AT@[i - 1],
            spline_from(cont, 1) == spline_from(cont, i as int),
        decreases 7 - i,
    {
        if cont <= KNOT_AT[i] {
            let c0: i32 = KNOT_AT[i - 1];
            let c1: i32 = KNOT_AT[i];
            let span: i64 = c1 as i64 - c0 as i64;
            let t: i64 = ((cont as i64 - c0 as i64) * 65536) / span;
            return lerp_q16(KNOT_ELEV[i - 1], KNOT_ELEV[i], t as i32);
        }
        i = i + 1;
    }
    KNOT_ELEV[6]
}

/// How much of a boundary feature is left at a distance in metres: half of it at
/// 300 metres.
pub open spec fn scale_300_spec(dist_m: i32) -> i32 {
    let d = if dist_m < 0 {
        0
    } else {
        dist_m
    };
    let den = 300i32.wrapping_add(d);
    if den <= 0 {
        ONE
    } else {
        (19660800int / den as int) as i32
    }
}

/// How much of a boundary feature is left at a distance in metres.
pub fn scale_300(dist_m: i32) -> (r: i32)
    ensures
        r == scale_300_spec(dist_m),
{
    let d: i32 = if dist_m < 0 {
        0
    } else {
        dist_m
    };
    let den: i32 = 300i32.wrapping_add(d);
    if den <= 0 {
        ONE
    } else {
        19660800 / den
    }
}

/// The relief factor of a setting in hundredths. Only the offered steps count.
pub open spec fn relief_q16_spec(hundredths: i32) -> i32 {
    if hundredths == 50 {
        HALF
    } else if hundredths == 150 {
        (ONE + HALF) as i32
    } else if hundredths == 200 {
        (ONE * 2) as i32
    } else if hundredths == 400 {
        (ONE * 4) as i32
    } else {
        ONE
    }
}

/// The relief factor of a setting in hundredths. Only the offered steps count.
pub fn relief_q16(hundredths: i32) -> (r: i32)
    ensures
        r == relief_q16_spec(hundredths),
{
    match hundredths {
        50 => HALF,
        100 => ONE,
        150 => ONE + HALF,
        200 => ONE * 2,
        400 => ONE * 4,
        _ => ONE,
    }
}

/// Whether a geological region is volcanic: one in six, by its low byte.
pub open spec fn is_volcanic_spec(id: u32) -> bool {
    (id % 256) % 6 == 0
}

/// Whether a geological region is volcanic.
pub fn is_volcanic(id: u32) -> (b: bool)
    ensures
        b == is_volcanic_spec(id),
{
    (id % 256) % 6 == 0
}

/// Whether a water word says basin. Blended words count from half the flag on.
pub open spec fn is_basin_spec(w: i32) -> bool {
    w as int % 512 >= 128
}

/// Whether a water word says basin.
pub fn is_basin(w: i32) -> (b: bool)
    ensures
        b == is_basin_spec(w),
{
    floor_rem(w, 512) >= 128
}

/// What the noise fields give for one column of the plate pass.
#[derive(Clone, Copy, PartialEq, Eq, Debug, Structural)]
pub struct PlateNoise {
    /// Distance to the nearest plate centre, in cells.
    pub near: i32,
    /// Distance to the second nearest.
    pub second: i32,
    /// The id of the nearest plate.
    pub plate: u32,
    /// A uniform roll of that id.
    pub hardness: u32,
    /// The continent field at the warped place.
    pub continent: i32,
    /// The folded belt field.
    pub ridge: i32,
    /// Distance to the nearest volcanic vent, in cells.
    pub vent: i32,
    /// The humidity field.
    pub humid: i32,
}

/// The place at which the continent field is read: shifted by a warp in metres.
pub fn warped(x: i32, z: i32, dx: i32, dz: i32) -> (r: (i32, i32))
    ensures
        r.0 == x.wrapping_add((dx as int / 65536) as i32),
        r.1 == z.wrapping_add((dz as int / 65536) as i32),
{
    (x.wrapping_add(whole_part(dx as i64) as i32), z.wrapping_add(whole_part(dz as i64) as i32))
}

/// A distance in cells, as metres.
pub open spec fn metres(cells: i32, side: i32) -> i32 {
    ((cells * side) / 65536) as i32
}

fn to_metres(cells: i32, side: i32) -> (m: i32)
    requires
        0 <= side <= 3000,
    ensures
        m == metres(cells, side),
{
    assert(-0x8000_0000 * 3000 <= cells * side <= 0x8000_0000 * 3000) by (nonlinear_arith)
        requires
            -0x8000_0000 <= cells < 0x8000_0000,
            0 <= side <= 3000,
    ;
    whole_part(cells as i64 * side as i64) as i32
}

/// Continentalness, lifted so that land takes about half of the map.
pub open spec fn continentalness(field: i32) -> i32 {
    clamp_q16_spec(norm01_spec(field, FBM4).wrapping_add(6553), 0, ONE)
}

/// How far a column is land, from the shelf's edge to the coast.
pub open spec fn land_share(cont: i32) -> i32 {
    smoothstep_q16_spec(toward_zero((cont - C_SHELF) * 65536, 6554) as i32)
}

/// Elevation before mountains: seas deepen toward plate boundaries.
pub open spec fn bed_elev(cont: i32, bound_m: i32) -> i32 {
    if cont < C_COAST {
        lerp_q16_spec(elev_spline_spec(cont), TRENCH, scale_300_spec(bound_m))
    } else {
        elev_spline_spec(cont)
    }
}

/// The height of the mountain belt along a plate boundary.
pub open spec fn belt_height(ridge: i32, bound_m: i32, cont: i32) -> i32 {
    mul_q16_spec(
        mul_q16_spec(mul_q16_spec(ridge, scale_300_spec(bound_m)), BELT_AMP),
        land_share(cont),
    )
}

/// Elevation with the cone and crater of a vent at a distance in metres.
pub open spec fn with_vent(elev: i32, dist_m: i32) -> i32 {
    let cone = 5898240i32.wrapping_sub(mul_q16_spec(dist_m.wrapping_mul(ONE), POINT_35));
    let raised = if cone > 0 {
        elev.wrapping_add(cone)
    } else {
        elev
    };
    if dist_m < 12 {
        raised.wrapping_sub(1310720)
    } else {
        raised
    }
}

/// Elevation of a column at plain relief.
pub open spec fn plain_elev(n: PlateNoise) -> i32 {
    let bound_m = metres(n.second.wrapping_sub(n.near), CELL_PLATE);
    let cont = continentalness(n.continent);
    let base = bed_elev(cont, bound_m).wrapping_add(belt_height(n.ridge, bound_m, cont));
    if is_volcanic_spec(n.plate) {
        with_vent(base, metres(n.vent, CELL_VOLC))
    } else {
        base
    }
}

/// The geology word: region in the low byte, hardness above.
pub open spec fn geology(n: PlateNoise) -> i32 {
    ((n.plate % 256 + (n.hardness / 256) * 256) as u32) as i32
}

/// The eight channels after the plate pass.
pub open spec fn plates_spec(relief: i32, n: PlateNoise) -> Seq<i32> {
    seq![
        mul_q16_spec(plain_elev(n), relief),
        continentalness(n.continent),
        norm01_spec(n.humid, FBM4),
        geology(n),
        0i32,
        0i32,
        0i32,
        0i32,
    ]
}

/// What the climate pass reads of the plate pass around a column.
#[derive(Clone, Copy, Debug)]
pub struct Surroundings {
    /// Elevations within two columns, by row and then column; the column itself
    /// stands in the middle.
    pub elev: [[i32; 5]; 5],
    pub cont: i32,
    pub humid: i32,
    /// Humidity two columns to the west.
    pub humid_west: i32,
    pub geol: i32,
}

impl Surroundings {
    /// Whether every column within two is higher.
    pub open spec fn basin(self) -> bool {
        forall|dz: int, dx: int|
            0 <= dz < 5 && 0 <= dx < 5 && !(dz == 2 && dx == 2) ==> (#[trigger] self.elev@[dz]@[dx])
                > self.elev@[2]@[2]
    }

    /// Temperature: by latitude, falling with height, and milder toward the sea.
    pub open spec fn temperature(self, z: i32) -> i32 {
        let lat = mul_q16_spec(cos_lat_spec(z), HALF).wrapping_add(HALF);
        let lapse = mul_q16_spec(self.elev@[2]@[2], LAPSE_Q16);
        let pull = mul_q16_spec(16384, ONE.wrapping_sub(self.cont));
        clamp_q16_spec(lerp_q16_spec(lat.wrapping_sub(lapse), HALF, pull), 0, ONE)
    }

    /// The rain that higher ground to the west holds back.
    pub open spec fn rain_shadow(self) -> i32 {
        let de = self.elev@[2]@[0].wrapping_sub(self.elev@[2]@[2]);
        if de <= 0 {
            0
        } else if de / 40 > ONE {
            ONE
        } else {
            (de / 40) as i32
        }
    }

    /// Humidity: blended with the west, less the rain shadow, more toward the sea.
    pub open spec fn humidity(self) -> i32 {
        let blend = mul_q16_spec(self.humid, HALF).wrapping_add(
            mul_q16_spec(self.humid_west, HALF),
        );
        clamp_q16_spec(
            blend.wrapping_sub(self.rain_shadow()).wrapping_add(
                mul_q16_spec(13107, ONE.wrapping_sub(self.cont)),
            ),
            0,
            ONE,
        )
    }
}

/// The eight channels after the climate pass.
pub open spec fn climate_spec(st: Surroundings, z: i32) -> Seq<i32> {
    seq![
        st.elev@[2]@[2],
        st.temperature(z),
        st.humidity(),
        st.geol,
        if st.basin() {
            WATER_BASIN
        } else {
            0i32
        },
        0i32,
        0i32,
        0i32,
    ]
}

/// The rules of the two macro passes.
#[derive(Clone, Copy, PartialEq, Eq, Debug, Structural)]
pub struct V2Score {
    pub relief: i32,
}

fn vented(elev: i32, dist_m: i32) -> (e: i32)
    ensures
        e == with_vent(elev, dist_m),
{
    let cone: i32 = 5898240i32.wrapping_sub(mul_q16(dist_m.wrapping_mul(ONE), POINT_35));
    let raised: i32 = if cone > 0 {
        elev.wrapping_add(cone)
    } else {
        elev
    };
    if dist_m < 12 {
        raised.wrapping_sub(1310720)
    } else {
        raised
    }
}

fn land_of(cont: i32) -> (r: i32)
    ensures
        r == land_share(cont),
{
    smoothstep_q16(div_toward_zero((cont as i64 - C_SHELF as i64) * 65536, 6554) as i32)
}

impl V2Score {
    /// The plate pass: elevation, continentalness, humidity and geology of a
    /// column from its noise.
    pub fn plates(&self, n: &PlateNoise) -> (out: [i32; CHANNELS])
        ensures
            out@ == plates_spec(self.relief, *n),
    {
        let bound_m: i32 = to_metres(n.second.wrapping_sub(n.near), CELL_PLATE);
        let geol: u32 = n.plate % 256 + (n.hardness / 256) * 256;
        let cont: i32 = clamp_q16(norm01(n.continent, FBM4).wrapping_add(6553), 0, ONE);
        let mut elev: i32 = elev_spline(cont);
        if cont < C_COAST {
            elev = lerp_q16(elev, TRENCH, scale_300(bound_m));
        }
        let land: i32 = land_of(cont);
        let belt: i32 = mul_q16(mul_q16(n.ridge, scale_300(bound_m)), BELT_AMP);
        elev = elev.wrapping_add(mul_q16(belt, land));
        if is_volcanic(n.plate) {
            elev = vented(elev, to_metres(n.vent, CELL_VOLC));
        }
        elev = mul_q16(elev, self.relief);
        let humid: i32 = norm01(n.humid, FBM4);
        let out: [i32; CHANNELS] = [elev, cont, humid, geol as i32, 0, 0, 0, 0];
        assert(out@ =~= plates_spec(self.relief, *n));
        out
    }

    /// The climate pass: temperature, humidity and basins from the plate pass
    /// around a column.
    pub fn climate(&self, st: &Surroundings, z: i32) -> (out: [i32; CHANNELS])
        ensures
            out@ == climate_spec(*st, z),
    {
        let elev: i32 = st.elev[2][2];
        let lat: i32 = mul_q16(cos_lat(z), HALF).wrapping_add(HALF);
        let lapse: i32 = mul_q16(elev, LAPSE_Q16);
        let pull: i32 = mul_q16(16384, ONE.wrapping_sub(st.cont));
        let temp: i32 = clamp_q16(lerp_q16(lat.wrapping_sub(lapse), HALF, pull), 0, ONE);
        let mut h: i32 = mul_q16(st.humid, HALF).wrapping_add(mul_q16(st.humid_west, HALF));
        let de: i32 = st.elev[2][0].wrapping_sub(elev);
        let shadow: i32 = if de > 0 {
            let v: i32 = de / 40;
            if v > ONE {
                ONE
            } else {
                v
            }
        } else {
            0
        };
        h = h.wrapping_sub(shadow);
        h = h.wrapping_add(mul_q16(13107, ONE.wrapping_sub(st.cont)));
        h = clamp_q16(h, 0, ONE);
        let water: i32 = if st.is_low() {
            WATER_BASIN
        } else {
            0
        };
        let out: [i32; CHANNELS] = [elev, temp, h, st.geol, water, 0, 0, 0];
        assert(out@ =~= climate_spec(*st, z));
        out
    }
}

/// The eight channels after a pass: plates first, climate second; later passes keep
/// what is there.
pub open spec fn pass_spec(
    relief: i32,
    phase: u32,
    n: PlateNoise,
    st: Surroundings,
    prev: Seq<i32>,
    z: i32,
) -> Seq<i32> {
    if phase == 0 {
        plates_spec(relief, n)
    } else if phase == 1 {
        climate_spec(st, z)
    } else {
        prev
    }
}

impl V2Score {
    /// The eight channels of a column after a pass, from its noise, what the pass
    /// before left around it, and its own channels then.
    pub fn all(
        &self,
        phase: u32,
        n: &PlateNoise,
        st: &Surroundings,
        prev: &[i32; CHANNELS],
        z: i32,
    ) -> (out: [i32; CHANNELS])
        ensures
            out@ == pass_spec(self.relief, phase, *n, *st, prev@, z),
    {
        if phase == 0 {
            self.plates(n)
        } else if phase == 1 {
            self.climate(st, z)
        } else {
            *prev
        }
    }

    /// One channel of a column after a pass. A channel that there is none of keeps its
    /// value.
    pub fn predict(
        &self,
        ch: u32,
        phase: u32,
        n: &PlateNoise,
        st: &Surroundings,
        prev: &[i32; CHANNELS],
        z: i32,
        current: i32,
    ) -> (v: i32)
        ensures
            v == if ch < CHANNELS {
                pass_spec(self.relief, phase, *n, *st, prev@, z)[ch as int]
            } else {
                current
            },
    {
        if ch as usize >= CHANNELS {
            return current;
        }
        self.all(phase, n, st, prev, z)[ch as usize]
    }
}

impl Surroundings {
    /// Whether every column within two is higher.
    fn is_low(&self) -> (b: bool)
        ensures
            b == self.basin(),
    {
        let elev: i32 = self.elev[2][2];
        let mut k: usize = 0;
        while k < 25
            invariant
                k <= 25,
                elev == self.elev@[2]@[2],
                forall|dz: int, dx: int|
                    0 <= dz < 5 && 0 <= dx < 5 && !(dz == 2 && dx == 2) && dz * 5 + dx < k ==> (
                    #[trigger] self.elev@[dz]@[dx]) > elev,
            decreases 25 - k,
        {
            let dz: usize = k / 5;
            let dx: usize = k % 5;
            if !(dz == 2 && dx == 2) && self.elev[dz][dx] <= elev {
                assert(self.elev@[dz as int]@[dx as int] <= elev);
                return false;
            }
            k = k + 1;
        }
        true
    }
}

/// A column that the climate pass marks reads back as a basin, and no other does.
pub proof fn lemma_basin_reads_back(st: Surroundings, z: i32)
    ensures
        is_basin_spec(climate_spec(st, z)[CH_WATER as int]) == st.basin(),
{
}

/// Both climate values stay within zero and one.
pub proof fn lemma_climate_range(st: Surroundings, z: i32)
    ensures
        0 <= climate_spec(st, z)[CH_TEMP as int] <= ONE,
        0 <= climate_spec(st, z)[CH_HUMID as int] <= ONE,
{
}

/// The look of a column.
#[derive(Clone, Copy, PartialEq, Eq, Debug, Structural)]
pub enum Biome {
    Coast,
    Tundra,
    Taiga,
    Grassland,
    Savanna,
    Desert,
    Badlands,
    Rainforest,
    Alpine,
    Volcanic,
    Wetland,
}

/// The biome of land that is neither volcanic, alpine, coast nor wetland.
pub open spec fn climate_biome(temp: i32, humid: i32, elev: i32) -> Biome {
    if temp < 16384 {
        Biome::Tundra
    } else if temp < 26214 && humid > 26214 {
        Biome::Taiga
    } else if temp > 36044 && humid > 42598 {
        Biome::Rainforest
    } else if temp > 36044 && humid < 18350 {
        Biome::Desert
    } else if temp > 36044 && humid < 26214 && elev > 15 * ONE {
        Biome::Badlands
    } else if temp > 36044 && humid < 39321 {
        Biome::Savanna
    } else {
        Biome::Grassland
    }
}

/// `v` with a dither of a sixteenth, from sixteen bits of a roll.
pub open spec fn dithered(v: i32, bits: u32) -> i32 {
    clamp_q16_spec(v.wrapping_add(((bits - 32768) / 16) as i32), 0, ONE)
}

/// The biome of a column. Climate is dithered by the roll of its top cell, so
/// borders dissolve instead of ending on a line.
pub open spec fn biome_spec(
    temp: i32,
    humid: i32,
    elev: i32,
    geol: i32,
    basin: bool,
    wx: i32,
    height: i32,
    wz: i32,
    seed: i64,
) -> Biome {
    let roll = cell_hash_spec(seed ^ SURFACE_SCATTER_SALT, wx, height, wz);
    let t = dithered(temp, roll % 65536);
    let h = dithered(humid, roll / 65536);
    if is_volcanic_spec(geol as u32) && elev > 8 * ONE {
        Biome::Volcanic
    } else if elev >= 40 * ONE {
        Biome::Alpine
    } else if 0 <= elev < 2 * ONE {
        Biome::Coast
    } else if basin && h > HALF && 0 <= elev < 10 * ONE {
        Biome::Wetland
    } else {
        climate_biome(t, h, elev)
    }
}

fn dither(v: i32, bits: u32) -> (r: i32)
    requires
        bits < 65536,
    ensures
        r == dithered(v, bits),
{
    let b: i32 = bits as i32;
    let d: i32 = crate::coord::floor_div(b - 32768, 16);
    clamp_q16(v.wrapping_add(d), 0, ONE)
}

/// The biome of a column.
pub fn classify(
    temp: i32,
    humid: i32,
    elev: i32,
    geol: i32,
    basin: bool,
    wx: i32,
    height: i32,
    wz: i32,
    seed: i64,
) -> (b: Biome)
    ensures
        b == biome_spec(temp, humid, elev, geol, basin, wx, height, wz, seed),
{
    let roll: u32 = cell_hash(seed ^ SURFACE_SCATTER_SALT, wx, height, wz);
    let t: i32 = dither(temp, roll % 65536);
    let h: i32 = dither(humid, roll / 65536);
    if is_volcanic(geol as u32) && elev > 8 * ONE {
        return Biome::Volcanic;
    }
    if elev >= 40 * ONE {
        return Biome::Alpine;
    }
    if elev >= 0 && elev < 2 * ONE {
        return Biome::Coast;
    }
    if basin && h > HALF && elev >= 0 && elev < 10 * ONE {
        return Biome::Wetland;
    }
    if t < 16384 {
        Biome::Tundra
    } else if t < 26214 && h > 26214 {
        Biome::Taiga
    } else if t > 36044 && h > 42598 {
        Biome::Rainforest
    } else if t > 36044 && h < 18350 {
        Biome::Desert
    } else if t > 36044 && h < 26214 && elev > 15 * ONE {
        Biome::Badlands
    } else if t > 36044 && h < 39321 {
        Biome::Savanna
    } else {
        Biome::Grassland
    }
}

/// A dither moves a value in range by less than a thirty-second, keeps it in range
/// and keeps the order of values: a roll in the middle changes nothing, and away from
/// the ends sixteen parts of the roll move the value by one.
pub proof fn lemma_dither_is_small(v: i32, w: i32, bits: u32)
    requires
        0 <= v <= w <= 65536,
        bits < 65536,
    ensures
        0 <= dithered(v, bits) <= dithered(w, bits) <= 65536,
        v - 2048 <= dithered(v, bits) <= v + 2047,
        bits == 32768 ==> dithered(v, bits) == v,
        2048 <= v <= 63488 ==> 16 * (dithered(v, bits) - v) <= bits - 32768 < 16 * (dithered(
            v,
            bits,
        ) - v) + 16,
{
}

/// Hot dry land is desert and hot wet land is rainforest. A column that is not
/// volcanic, alpine, coast or wetland, and whose dithered temperature is over 0.55, is
/// desert under a dithered humidity of 0.28 and rainforest over one of 0.65; no other
/// column is.
pub proof fn lemma_hot_land(
    temp: i32,
    humid: i32,
    elev: i32,
    geol: i32,
    basin: bool,
    wx: i32,
    height: i32,
    wz: i32,
    seed: i64,
)
    requires
        ({
            let b = biome_spec(temp, humid, elev, geol, basin, wx, height, wz, seed);
            b != Biome::Volcanic && b != Biome::Alpine && b != Biome::Coast && b != Biome::Wetland
        }),
    ensures
        ({
            let b = biome_spec(temp, humid, elev, geol, basin, wx, height, wz, seed);
            let roll = cell_hash_spec(seed ^ SURFACE_SCATTER_SALT, wx, height, wz);
            let t = dithered(temp, roll % 65536);
            let h = dithered(humid, roll / 65536);
            &&& t > 36044 && h < 18350 ==> b == Biome::Desert
            &&& t > 36044 && h > 42598 ==> b == Biome::Rainforest
            &&& b == Biome::Desert ==> t > 36044 && h < 18350
            &&& b == Biome::Rainforest ==> t > 36044 && h > 42598
        }),
{
}

/// Whatever the roll, land well inside a climate has that climate's biome: hot and
/// dry is desert, hot and wet is rainforest, cold is tundra, cool and moist is taiga,
/// hot and neither dry nor wet is savanna, and mild is grassland.
pub proof fn lemma_clear_climates(
    temp: i32,
    humid: i32,
    elev: i32,
    geol: i32,
    basin: bool,
    wx: i32,
    height: i32,
    wz: i32,
    seed: i64,
)
    requires
        0 <= temp <= 65536,
        0 <= humid <= 65536,
        elev < 0 || 10 * 65536 <= elev < 40 * 65536,
        (geol as u32 % 256) % 6 != 0 || elev <= 8 * 65536,
    ensures
        ({
            let b = biome_spec(temp, humid, elev, geol, basin, wx, height, wz, seed);
            &&& temp >= 38093 && humid <= 16302 ==> b == Biome::Desert
            &&& temp >= 38093 && humid >= 44647 ==> b == Biome::Rainforest
            &&& temp >= 38093 && 20398 <= humid <= 24166 ==> b == (if elev > 15 * 65536 {
                Biome::Badlands
            } else {
                Biome::Savanna
            })
            &&& temp >= 38093 && 28262 <= humid <= 37273 ==> b == Biome::Savanna
            &&& temp <= 14336 ==> b == Biome::Tundra
            &&& 18432 <= temp <= 24166 && humid >= 28263 ==> b == Biome::Taiga
            &&& 28262 <= temp <= 33996 ==> b == Biome::Grassland
        }),
{
    let roll = cell_hash_spec(seed ^ SURFACE_SCATTER_SALT, wx, height, wz);
    lemma_dither_is_small(temp, temp, roll % 65536);
    lemma_dither_is_small(humid, humid, roll / 65536);
}

/// Height and ground decide before climate does: volcanic ground above eight metres is
/// volcanic, other ground from forty metres up is alpine, the first two metres over the
/// sea are coast, and a wet basin below ten metres is wetland; nothing else is.
pub proof fn lemma_ground_before_climate(
    temp: i32,
    humid: i32,
    elev: i32,
    geol: i32,
    basin: bool,
    wx: i32,
    height: i32,
    wz: i32,
    seed: i64,
)
    requires
        0 <= humid <= 65536,
    ensures
        ({
            let b = biome_spec(temp, humid, elev, geol, basin, wx, height, wz, seed);
            let fiery = (geol as u32 % 256) % 6 == 0 && elev > 8 * 65536;
            &&& b == Biome::Volcanic <==> fiery
            &&& b == Biome::Alpine <==> !fiery && elev >= 40 * 65536
            &&& b == Biome::Coast <==> 0 <= elev < 2 * 65536
            &&& b == Biome::Wetland ==> basin && !fiery && 2 * 65536 <= elev < 10 * 65536 && humid
                > 30720
            &&& basin && !fiery && 2 * 65536 <= elev < 10 * 65536 && humid >= 34817 ==> b
                == Biome::Wetland
        }),
{
    let roll = cell_hash_spec(seed ^ SURFACE_SCATTER_SALT, wx, height, wz);
    lemma_dither_is_small(humid, humid, roll / 65536);
}

/// Of two columns that differ in humidity alone the wetter one is never the desert one
/// and the drier one never the rainforest or wetland one, and of two that differ in
/// temperature alone the warmer one is never the tundra one and the cooler one never
/// the desert, savanna or rainforest one.
pub proof fn lemma_biomes_follow_climate(
    temp: i32,
    humid: i32,
    warmer: i32,
    wetter: i32,
    elev: i32,
    geol: i32,
    basin: bool,
    wx: i32,
    height: i32,
    wz: i32,
    seed: i64,
)
    requires
        0 <= temp <= warmer <= 65536,
        0 <= humid <= wetter <= 65536,
    ensures
        ({
            let b = biome_spec(temp, humid, elev, geol, basin, wx, height, wz, seed);
            let wet = biome_spec(temp, wetter, elev, geol, basin, wx, height, wz, seed);
            let warm = biome_spec(warmer, humid, elev, geol, basin, wx, height, wz, seed);
            &&& wet == Biome::Desert ==> b == Biome::Desert
            &&& b == Biome::Rainforest ==> wet == Biome::Rainforest
            &&& b == Biome::Wetland ==> wet == Biome::Wetland
            &&& warm == Biome::Tundra ==> b == Biome::Tundra
            &&& b == Biome::Desert ==> warm == Biome::Desert
            &&& b == Biome::Savanna ==> warm == Biome::Savanna
            &&& b == Biome::Rainforest ==> warm == Biome::Rainforest
        }),
{
    let roll = cell_hash_spec(seed ^ SURFACE_SCATTER_SALT, wx, height, wz);
    lemma_dither_is_small(temp, warmer, roll % 65536);
    lemma_dither_is_small(humid, wetter, roll / 65536);
}

/// What a vertical run of cells shares.
#[derive(Clone, Copy, PartialEq, Eq, Debug, Structural)]
pub struct Col {
    /// The lowest cell that is not ground.
    pub height: i32,
    /// Water fills up to here.
    pub water: i32,
    /// The top ground cell.
    pub dress: BlockId,
    /// The two cells below it.
    pub crust: BlockId,
}

/// The integer diffusion generator.
pub struct DiffusionV2 {
    pub seed: i64,
    pub sea: i32,
    pub mat: Resolved,
}

/// The length of the channel buffer of a chunk column.
pub const FIELD_LEN: usize = 2048;

/// The deepest reach of a scattered rule that column heights leave room for.
pub const MAX_REACH: i32 = 0x7FFD_0000;

impl DiffusionV2 {
    /// Whether the generator can fill columns.
    pub open spec fn wf(self) -> bool {
        &&& self.mat.wf()
        &&& self.sea == SEA
        &&& self.mat.max_scattered_depth <= MAX_REACH
    }

    /// A generator over a resolved placement table.
    pub fn new(mat: Resolved, seed: i64) -> (g: DiffusionV2)
        ensures
            g.seed == seed,
            g.sea == SEA,
            g.mat == mat,
    {
        DiffusionV2 { seed, sea: SEA, mat }
    }

    /// Top block, crust and surface kind of a biome. Badlands are banded by
    /// height; a biome without a surface kind grows nothing.
    pub open spec fn dress_spec(self, biome: Biome, height: i32) -> (
        BlockId,
        BlockId,
        Option<SurfaceKind>,
    ) {
        let dress = |k: SurfaceKind| self.mat.dress@[k.index_spec() as int];
        let crust = |k: SurfaceKind| self.mat.crust@[k.index_spec() as int];
        let plain = |k: SurfaceKind| (dress(k), crust(k), Some(k));
        match biome {
            Biome::Coast => plain(SurfaceKind::Shore),
            Biome::Tundra => plain(SurfaceKind::Snowy),
            Biome::Taiga | Biome::Grassland | Biome::Rainforest => plain(SurfaceKind::Grassy),
            Biome::Savanna => (
                dress(SurfaceKind::BeachEdge),
                crust(SurfaceKind::Grassy),
                Some(SurfaceKind::BeachEdge),
            ),
            Biome::Desert => plain(SurfaceKind::Desert),
            Biome::Badlands => if height as int % 12 < 6 {
                plain(SurfaceKind::Desert)
            } else {
                (crust(SurfaceKind::Desert), crust(SurfaceKind::Desert), None)
            },
            Biome::Alpine | Biome::Volcanic => (self.mat.stone, self.mat.stone, None),
            Biome::Wetland => (crust(SurfaceKind::Grassy), crust(SurfaceKind::Grassy), None),
        }
    }

    fn plain(&self, kind: SurfaceKind) -> (r: (BlockId, BlockId, Option<SurfaceKind>))
        ensures
            r == (
                self.mat.dress@[kind.index_spec() as int],
                self.mat.crust@[kind.index_spec() as int],
                Some(kind),
            ),
    {
        (self.mat.dress[kind.index()], self.mat.crust[kind.index()], Some(kind))
    }

    /// Top block, crust and surface kind of a biome.
    pub fn dress_of(&self, biome: Biome, height: i32) -> (r: (
        BlockId,
        BlockId,
        Option<SurfaceKind>,
    ))
        ensures
            r == self.dress_spec(biome, height),
    {
        match biome {
            Biome::Coast => self.plain(SurfaceKind::Shore),
            Biome::Tundra => self.plain(SurfaceKind::Snowy),
            Biome::Taiga | Biome::Grassland | Biome::Rainforest => self.plain(SurfaceKind::Grassy),
            Biome::Savanna => (
                self.mat.dress[SurfaceKind::BeachEdge.index()],
                self.mat.crust[SurfaceKind::Grassy.index()],
                Some(SurfaceKind::BeachEdge),
            ),
            Biome::Desert => self.plain(SurfaceKind::Desert),
            Biome::Badlands => {
                if floor_rem(height, 12) < 6 {
                    self.plain(SurfaceKind::Desert)
                } else {
                    let id = self.mat.crust[SurfaceKind::Desert.index()];
                    (id, id, None)
                }
            },
            Biome::Alpine | Biome::Volcanic => (self.mat.stone, self.mat.stone, None),
            Biome::Wetland => {
                let id = self.mat.crust[SurfaceKind::Grassy.index()];
                (id, id, None)
            },
        }
    }

    /// The top block with its kind's growth.
    pub open spec fn scatter_spec(
        self,
        kind: Option<SurfaceKind>,
        dress: BlockId,
        wx: i32,
        height: i32,
        wz: i32,
    ) -> BlockId {
        match kind {
            Some(k) => self.mat.scatter_spec(self.seed, k, dress, wx, height, wz),
            None => dress,
        }
    }

    /// The top block with its kind's growth.
    pub fn scatter(
        &self,
        kind: Option<SurfaceKind>,
        dress: BlockId,
        wx: i32,
        height: i32,
        wz: i32,
    ) -> (id: BlockId)
        ensures
            id == self.scatter_spec(kind, dress, wx, height, wz),
    {
        match kind {
            Some(k) => self.mat.scatter(self.seed, k, dress, wx, height, wz),
            None => dress,
        }
    }

    /// The ground height over an elevation.
    pub open spec fn height_over(self, elev: i32) -> i32 {
        self.sea.wrapping_add(q16_round_spec(elev) as i32)
    }

    /// The column that eight channels describe.
    pub open spec fn col_spec(self, ch: Seq<i32>, wx: i32, wz: i32) -> Col {
        let elev = ch[CH_ELEV as int];
        let height = self.height_over(elev);
        let biome = biome_spec(
            ch[CH_TEMP as int],
            ch[CH_HUMID as int],
            elev,
            ch[CH_GEOL as int],
            is_basin_spec(ch[CH_WATER as int]),
            wx,
            height,
            wz,
            self.seed,
        );
        let (dress, crust, kind) = self.dress_spec(biome, height);
        Col {
            height,
            water: self.sea,
            dress: self.scatter_spec(kind, dress, wx, height, wz),
            crust,
        }
    }

    /// The column that eight channels of a buffer describe.
    pub fn col_from_ch(&self, field: &[i32], at: usize, wx: i32, wz: i32) -> (c: Col)
        requires
            at + CHANNELS <= field@.len(),
        ensures
            c == self.col_spec(field@.subrange(at as int, at + CHANNELS), wx, wz),
    {
        let elev: i32 = field[at + CH_ELEV];
        let height: i32 = self.sea.wrapping_add(q16_round(elev));
        let biome = classify(
            field[at + CH_TEMP],
            field[at + CH_HUMID],
            elev,
            field[at + CH_GEOL],
            is_basin(field[at + CH_WATER]),
            wx,
            height,
            wz,
            self.seed,
        );
        let (top, crust, kind) = self.dress_of(biome, height);
        let dress = self.scatter(kind, top, wx, height, wz);
        proof {
            let ch = field@.subrange(at as int, at + CHANNELS);
            assert(ch[CH_ELEV as int] == elev);
        }
        Col { height, water: self.sea, dress, crust }
    }

    /// The ore of a ground cell.
    pub fn ore_at(&self, wx: i32, wy: i32, wz: i32, depth: i32) -> (r: Option<BlockId>)
        requires
            self.mat.ores.wf(),
        ensures
            r == self.mat.ores.ore_spec(self.seed, wx, wy, wz, depth),
    {
        self.mat.ores.ore_at(self.seed, wx, wy, wz, depth)
    }

    /// The block of a cell: dress and crust on top of stone with ores, water up to
    /// the sea, nothing above.
    pub open spec fn cell_spec(self, c: Col, wx: i32, wy: i32, wz: i32) -> BlockId {
        if wy >= c.height {
            if wy < c.water {
                self.mat.water
            } else {
                BlockId::air_spec()
            }
        } else if wy >= c.height - 1 {
            c.dress
        } else if wy >= c.height - 3 {
            c.crust
        } else {
            let depth = c.height - wy;
            if depth <= self.mat.max_scattered_depth {
                match self.mat.ores.ore_spec(self.seed, wx, wy, wz, depth as i32) {
                    Some(ore) => ore,
                    None => self.mat.stone,
                }
            } else {
                self.mat.stone
            }
        }
    }

    /// The block of a cell of a column.
    pub fn cell(&self, c: &Col, wx: i32, wy: i32, wz: i32) -> (id: BlockId)
        requires
            self.mat.ores.wf(),
            c.height - wy <= i32::MAX,
            c.height >= i32::MIN + 3,
        ensures
            id == self.cell_spec(*c, wx, wy, wz),
    {
        if wy < c.height {
            if wy >= c.height - 1 {
                c.dress
            } else if wy >= c.height - 3 {
                c.crust
            } else {
                let depth: i32 = c.height - wy;
                if depth <= self.mat.max_scattered_depth {
                    match self.ore_at(wx, wy, wz, depth) {
                        Some(ore) => {
                            return ore;
                        },
                        None => {},
                    }
                }
                self.mat.stone
            }
        } else if wy < c.water {
            self.mat.water
        } else {
            BlockId::air()
        }
    }

    /// The columns of a chunk column, from the channels of its 256 columns.
    pub open spec fn cols_spec(self, cx: i32, cz: i32, field: Seq<i32>) -> Seq<Col> {
        Seq::new(
            CHUNK_COLUMNS as nat,
            |k: int|
                self.col_spec(
                    field.subrange(k * 8, k * 8 + 8),
                    (cx * 16 + k % 16) as i32,
                    (cz * 16 + k / 16) as i32,
                ),
        )
    }

    /// The block in cell `i` of a chunk over the given columns.
    pub open spec fn chunk_cell(self, cols: Seq<Col>, c: (i32, i32, i32), i: int) -> BlockId {
        let (lx, ly, lz) = local_of_spec(i);
        self.cell_spec(
            cols[lx + lz * 16],
            (c.0 * 16 + lx) as i32,
            (c.1 * 16 + ly) as i32,
            (c.2 * 16 + lz) as i32,
        )
    }

    /// The contents of a chunk over the given columns.
    pub open spec fn chunk_spec(self, cols: Seq<Col>, c: (i32, i32, i32)) -> Seq<BlockId> {
        Seq::new(CHUNK_VOLUME as nat, |i: int| self.chunk_cell(cols, c, i))
    }

    /// The ground heights of a chunk column, from the channels of its columns.
    pub fn heights_16(&self, field: &[i32; FIELD_LEN]) -> (heights: ColumnHeights)
        ensures
            forall|k: int|
                0 <= k < CHUNK_COLUMNS ==> (#[trigger] heights@[k]) == self.height_over(field@[k * 8]),
    {
        let mut heights: ColumnHeights = [0i32;CHUNK_COLUMNS];
        let mut k: usize = 0;
        while k < CHUNK_COLUMNS
            invariant
                k <= CHUNK_COLUMNS,
                forall|j: int|
                    0 <= j < k ==> (#[trigger] heights@[j]) == self.height_over(field@[j * 8]),
            decreases CHUNK_COLUMNS - k,
        {
            let elev: i32 = field[k * 8];
            heights[k] = self.sea.wrapping_add(q16_round(elev));
            k = k + 1;
        }
        heights
    }

    fn columns(&self, cx: i32, cz: i32, field: &[i32; FIELD_LEN]) -> (cols: Vec<Col>)
        requires
            self.wf(),
            column_in_world(cx, cz),
        ensures
            cols@ == self.cols_spec(cx, cz, field@),
            forall|k: int|
                0 <= k < CHUNK_COLUMNS ==> -40000 <= (#[trigger] cols@[k]).height <= 40000
                    && cols@[k].water == SEA,
    {
        let mut cols: Vec<Col> = Vec::with_capacity(CHUNK_COLUMNS);
        let mut k: usize = 0;
        while k < CHUNK_COLUMNS
            invariant
                k <= CHUNK_COLUMNS,
                self.wf(),
                column_in_world(cx, cz),
                cols@.len() == k,
                forall|j: int|
                    0 <= j < k ==> (#[trigger] cols@[j]) == self.cols_spec(cx, cz, field@)[j] && -40000
                        <= cols@[j].height <= 40000 && cols@[j].water == SEA,
            decreases CHUNK_COLUMNS - k,
        {
            let wx: i32 = cx * 16 + (k % 16) as i32;
            let wz: i32 = cz * 16 + (k / 16) as i32;
            let c = self.col_from_ch(field, k * 8, wx, wz);
            cols.push(c);
            k = k + 1;
        }
        assert(cols@ =~= self.cols_spec(cx, cz, field@));
        cols
    }

    /// One chunk over its columns. A chunk above all ground and water is empty, one
    /// below the reach of every scattered rule is stone.
    fn fill(
        &self,
        cx: i32,
        cy: i32,
        cz: i32,
        cols: &Vec<Col>,
        max_top: i32,
        min_h: i32,
    ) -> (data: ChunkData)
        requires
            self.wf(),
            column_in_world(cx, cz),
            layer_in_world(cy),
            cols@.len() == CHUNK_COLUMNS,
            -40000 <= min_h <= 40000,
            forall|k: int|
                0 <= k < CHUNK_COLUMNS ==> min_h <= (#[trigger] cols@[k]).height <= 40000
                    && cols@[k].height <= max_top && cols@[k].water <= max_top,
        ensures
            data.cheapest(self.chunk_spec(cols@, (cx, cy, cz))),
    {
        let y0: i32 = cy * 16;
        let ghost want = self.chunk_spec(cols@, (cx, cy, cz));
        let reach: i32 = if self.mat.max_scattered_depth > 48 {
            self.mat.max_scattered_depth
        } else {
            48
        };
        let deep_cut: i32 = min_h - reach;
        if y0 >= max_top {
            let data = ChunkData::Uniform(BlockId::air());
            assert forall|i: int| 0 <= i < CHUNK_VOLUME implies want[i] == BlockId::air_spec() by {
                let (lx, ly, lz) = local_of_spec(i);
                assert(cols@[lx + lz * 16].height <= max_top);
            }
            assert(data@ =~= want);
            proof {
                lemma_uniform_is_cheapest(data, want);
            }
            return data;
        }
        if y0 as i64 + 16 <= deep_cut as i64 {
            let data = ChunkData::Uniform(self.mat.stone);
            assert forall|i: int| 0 <= i < CHUNK_VOLUME implies want[i] == self.mat.stone by {
                let (lx, ly, lz) = local_of_spec(i);
                assert(cols@[lx + lz * 16].height >= min_h);
            }
            assert(data@ =~= want);
            proof {
                lemma_uniform_is_cheapest(data, want);
            }
            return data;
        }
        let mut cells: Box<[BlockId; CHUNK_VOLUME]> = Box::new([BlockId::air();CHUNK_VOLUME]);
        let mut i: usize = 0;
        while i < CHUNK_VOLUME
            invariant
                i <= CHUNK_VOLUME,
                self.wf(),
                column_in_world(cx, cz),
                layer_in_world(cy),
                y0 == cy * 16,
                cols@.len() == CHUNK_COLUMNS,
                -40000 <= min_h <= 40000,
                y0 + 16 > min_h - (if self.mat.max_scattered_depth > 48 {
                    self.mat.max_scattered_depth as int
                } else {
                    48
                }),
                forall|k: int|
                    0 <= k < CHUNK_COLUMNS ==> min_h <= (#[trigger] cols@[k]).height <= 40000,
                want == self.chunk_spec(cols@, (cx, cy, cz)),
                forall|j: int| 0 <= j < i ==> (#[trigger] cells@[j]) == want[j],
            decreases CHUNK_VOLUME - i,
        {
            let (lx, ly, lz) = Chunk::local_of(i);
            let wx: i32 = cx * 16 + lx as i32;
            let wy: i32 = y0 + ly as i32;
            let wz: i32 = cz * 16 + lz as i32;
            let c: Col = cols[lx + lz * 16];
            let id = self.cell(&c, wx, wy, wz);
            cells[i] = id;
            i = i + 1;
        }
        assert(cells@ =~= want);
        ChunkData::from_cells(cells)
    }

    /// The chunks of a vertical run, bottom first, and the ground heights of their
    /// column, from the channels of the column's 256 places.
    pub fn generate_column(
        &self,
        cx: i32,
        cz: i32,
        low: i32,
        high: i32,
        field: &[i32; FIELD_LEN],
    ) -> (r: (Vec<(i32, ChunkData)>, ColumnHeights))
        requires
            self.wf(),
            column_in_world(cx, cz),
            low <= high ==> layer_in_world(low) && layer_in_world(high),
        ensures
            forall|k: int|
                0 <= k < CHUNK_COLUMNS ==> (#[trigger] r.1@[k]) == self.cols_spec(
                    cx,
                    cz,
                    field@,
                )[k].height,
            r.0@.len() == (if low <= high {
                high - low + 1
            } else {
                0
            }),
            forall|k: int|
                0 <= k < r.0@.len() ==> (#[trigger] r.0@[k]).0 == low + k && r.0@[k].1.cheapest(
                    self.chunk_spec(self.cols_spec(cx, cz, field@), (cx, r.0@[k].0, cz)),
                ),
    {
        let cols = self.columns(cx, cz, field);
        let ghost want = self.cols_spec(cx, cz, field@);
        let mut heights: ColumnHeights = [0i32;CHUNK_COLUMNS];
        let mut max_top: i32 = i32::MIN;
        let mut min_h: i32 = i32::MAX;
        let mut k: usize = 0;
        while k < CHUNK_COLUMNS
            invariant
                k <= CHUNK_COLUMNS,
                cols@.len() == CHUNK_COLUMNS,
                k == 0 ==> min_h == i32::MAX,
                k > 0 ==> -40000 <= min_h <= 40000,
                forall|j: int|
                    0 <= j < CHUNK_COLUMNS ==> -40000 <= (#[trigger] cols@[j]).height <= 40000,
                forall|j: int|
                    0 <= j < k ==> min_h <= (#[trigger] cols@[j]).height && cols@[j].height <= max_top
                        && cols@[j].water <= max_top,
                forall|j: int| 0 <= j < k ==> (#[trigger] heights@[j]) == cols@[j].height,
            decreases CHUNK_COLUMNS - k,
        {
            let c: Col = cols[k];
            heights[k] = c.height;
            if c.height > max_top {
                max_top = c.height;
            }
            if c.water > max_top {
                max_top = c.water;
            }
            if c.height < min_h {
                min_h = c.height;
            }
            k = k + 1;
        }
        let mut chunks: Vec<(i32, ChunkData)> = Vec::new();
        if low <= high {
            let mut cy: i32 = low;
            while cy <= high
                invariant
                    low <= high,
                    low <= cy <= high + 1,
                    self.wf(),
                    column_in_world(cx, cz),
                    layer_in_world(low),
                    layer_in_world(high),
                    cols@ == want,
                    cols@.len() == CHUNK_COLUMNS,
                    -40000 <= min_h <= 40000,
                    forall|k: int|
                        0 <= k < CHUNK_COLUMNS ==> min_h <= (#[trigger] cols@[k]).height <= 40000
                            && cols@[k].height <= max_top && cols@[k].water <= max_top,
                    chunks@.len() == cy - low,
                    forall|k: int|
                        0 <= k < chunks@.len() ==> (#[trigger] chunks@[k]).0 == low + k
                            && chunks@[k].1.cheapest(
                            self.chunk_spec(want, (cx, chunks@[k].0, cz)),
                        ),
                decreases high + 1 - cy,
            {
                let data = self.fill(cx, cy, cz, &cols, max_top, min_h);
                chunks.push((cy, data));
                cy = cy + 1;
            }
        }
        (chunks, heights)
    }

    /// One chunk, from the channels of its column's 256 places.
    pub fn generate(&self, cx: i32, cy: i32, cz: i32, field: &[i32; FIELD_LEN]) -> (data: ChunkData)
        requires
            self.wf(),
            column_in_world(cx, cz),
            layer_in_world(cy),
        ensures
            data.cheapest(self.chunk_spec(self.cols_spec(cx, cz, field@), (cx, cy, cz))),
    {
        let (mut chunks, _) = self.generate_column(cx, cz, cy, cy, field);
        assert(chunks@[0].0 == cy);
        match chunks.pop() {
            Some((_, data)) => data,
            None => ChunkData::Uniform(BlockId::air()),
        }
    }

    /// What a far tile shows of a column: stone up to a coarse height, then sea.
    pub fn lod_block(&self, coarse_height: i32, wy: i32) -> (id: BlockId)
        ensures
            id == self.lod_spec(coarse_height, wy),
    {
        if wy < coarse_height {
            self.mat.stone
        } else if wy < self.sea {
            self.mat.water
        } else {
            BlockId::air()
        }
    }

    /// What a far tile shows of a column: stone up to a coarse height, then sea.
    pub open spec fn lod_spec(self, coarse_height: i32, wy: i32) -> BlockId {
        if wy < coarse_height {
            self.mat.stone
        } else if wy < self.sea {
            self.mat.water
        } else {
            BlockId::air_spec()
        }
    }
}

/// Near and far terrain flood to the same sea: on ground below it both show no
/// gap right under sea level, and neither floods above.
pub proof fn lemma_same_sea(g: DiffusionV2, c: Col, wx: i32, wz: i32, coarse: i32)
    requires
        g.wf(),
        c.water == g.sea,
        c.height < g.sea,
    ensures
        g.cell_spec(c, wx, (g.sea - 1) as i32, wz) == g.mat.water,
        g.cell_spec(c, wx, g.sea, wz) == BlockId::air_spec(),
        g.lod_spec(coarse, (g.sea - 1) as i32) == g.mat.water || g.lod_spec(
            coarse,
            (g.sea - 1) as i32,
        ) == g.mat.stone,
        g.lod_spec(coarse, g.sea) == BlockId::air_spec() || g.lod_spec(coarse, g.sea)
            == g.mat.stone,
{
}

/// Sea deepens outward and land rises inland: base elevation never falls as
/// continentalness grows.
pub proof fn lemma_land_rises_inland(a: i32, b: i32)
    requires
        a <= b,
    ensures
        elev_spline_spec(a) <= elev_spline_spec(b),
{
    lemma_spline(a);
    lemma_spline(b);
    if 0 < a && b <= 65536 {
        lemma_spline_step(a, b);
    }
}

/// Base elevation passes through the sea bed at -40 metres, the shelf at -8, the coast at
/// 2, low land at 8 and high land at 30, and ends at 45.
pub proof fn lemma_land_knots(c: i32)
    ensures
        c <= 14417 ==> elev_spline_spec(c) == -40 * 65536,
        c == 20971 ==> elev_spline_spec(c) == -8 * 65536,
        c == 27525 ==> elev_spline_spec(c) == 2 * 65536,
        c == 36044 ==> elev_spline_spec(c) == 8 * 65536,
        c == 49152 ==> elev_spline_spec(c) == 30 * 65536,
        c >= 65536 ==> elev_spline_spec(c) == 45 * 65536,
        -40 * 65536 <= elev_spline_spec(c) <= 45 * 65536,
{
    lemma_spline(c);
}

/// The stretch of the elevation curve that a value lies on.
spec fn stretch_no(c: i32) -> int {
    if c <= 14417 {
        1
    } else if c <= 20971 {
        2
    } else if c <= 27525 {
        3
    } else if c <= 36044 {
        4
    } else if c <= 49152 {
        5
    } else {
        6
    }
}

proof fn lemma_spline(c: i32)
    ensures
        c <= 0 ==> elev_spline_spec(c) == -40 * 65536,
        c > 65536 ==> elev_spline_spec(c) == 45 * 65536,
        0 < c <= 65536 ==> {
            let i = stretch_no(c);
            &&& elev_spline_spec(c) == stretch(c, i)
            &&& KNOT_AT@[i - 1] < c <= KNOT_AT@[i]
            &&& KNOT_ELEV@[i - 1] <= stretch(c, i) <= KNOT_ELEV@[i]
            &&& c == KNOT_AT@[i] ==> stretch(c, i) == KNOT_ELEV@[i]
        },
{
    reveal_with_fuel(spline_from, 8);
    if 0 < c <= 65536 {
        let i = stretch_no(c);
        lemma_stretch(c, c, i);
    }
}

proof fn lemma_stretch(a: i32, b: i32, i: int)
    requires
        1 <= i <= 6,
        KNOT_AT@[i - 1] < a <= b <= KNOT_AT@[i],
    ensures
        KNOT_ELEV@[i - 1] <= stretch(a, i) <= stretch(b, i) <= KNOT_ELEV@[i],
        b == KNOT_AT@[i] ==> stretch(b, i) == KNOT_ELEV@[i],
{
    let span = KNOT_AT@[i] - KNOT_AT@[i - 1];
    let (da, db) = (a - KNOT_AT@[i - 1], b - KNOT_AT@[i - 1]);
    let (s, t) = ((da * 65536) / span, (db * 65536) / span);
    assert(0 <= s <= t <= 65536) by (nonlinear_arith)
        requires
            0 < da <= db <= span,
            s == (da * 65536) / span,
            t == (db * 65536) / span,
    ;
    if b == KNOT_AT@[i] {
        assert(t == 65536) by (nonlinear_arith)
            requires
                db == span,
                span > 0,
                t == (db * 65536) / span,
        ;
    }
    lemma_blends(KNOT_ELEV@[i - 1], KNOT_ELEV@[i], s as i32, t as i32);
}

proof fn lemma_spline_step(a: i32, b: i32)
    requires
        0 < a <= b <= 65536,
    ensures
        elev_spline_spec(a) <= elev_spline_spec(b),
{
    let (i, j) = (stretch_no(a), stretch_no(b));
    lemma_spline(a);
    lemma_spline(b);
    if i == j {
        lemma_stretch(a, b, i);
    }
}

/// A boundary's features fade with distance: whole on the boundary, half at 300 metres,
/// and never more further away.
pub proof fn lemma_boundaries_fade(d: i32, e: i32)
    requires
        0 <= d <= e < 0x4000_0000,
    ensures
        0 <= scale_300_spec(e) <= scale_300_spec(d) <= 65536,
        d == 0 ==> scale_300_spec(d) == 65536,
        d == 300 ==> scale_300_spec(d) == 32768,
{
    assert(19660800int / (300 + e) <= 19660800int / (300 + d)) by (nonlinear_arith)
        requires
            0 <= d <= e,
    ;
    assert(0 <= 19660800int / (300 + e)) by (nonlinear_arith)
        requires
            0 <= e,
    ;
    assert(19660800int / (300 + d) <= 65536) by (nonlinear_arith)
        requires
            0 <= d,
    ;
    assert(19660800int / 300 == 65536);
    assert(19660800int / 600 == 32768);
}

/// Seas deepen toward plate boundaries, down to the trench, and land does not.
pub proof fn lemma_trenches(cont: i32, d: i32, e: i32)
    requires
        0 <= d <= e < 0x4000_0000,
    ensures
        cont >= 27525 ==> bed_elev(cont, d) == elev_spline_spec(cont),
        cont < 27525 ==> -60 * 65536 <= bed_elev(cont, d) <= bed_elev(cont, e)
            <= elev_spline_spec(cont),
        cont < 27525 && d == 0 ==> bed_elev(cont, d) == -60 * 65536,
{
    lemma_boundaries_fade(d, e);
    lemma_land_knots(cont);
    lemma_blends(elev_spline_spec(cont), TRENCH, scale_300_spec(e), scale_300_spec(d));
}

/// A vent raises a cone: nothing from 258 metres on, higher toward the vent, and a crater
/// twenty metres deep within twelve metres of it.
pub proof fn lemma_vents_raise_cones(elev: i32, d: i32, e: i32)
    requires
        -0x2000_0000 <= elev <= 0x2000_0000,
        0 <= d <= e < 32768,
    ensures
        e >= 258 ==> with_vent(elev, e) == elev,
        12 <= d ==> elev <= with_vent(elev, e) <= with_vent(elev, d) <= elev + 90 * 65536,
        d < 12 ==> elev <= with_vent(elev, d) + 20 * 65536 <= elev + 90 * 65536,
        d == 0 ==> with_vent(elev, d) == elev + 70 * 65536,
{
    assert(d.wrapping_mul(65536) == d * 65536);
    assert(e.wrapping_mul(65536) == e * 65536);
    assert((d * 65536) * 22937 == d * 22937 * 65536) by (nonlinear_arith);
    assert((e * 65536) * 22937 == e * 22937 * 65536) by (nonlinear_arith);
}

/// Mountain belts stand on land: none at sea, and along a boundary on land as high as the
/// ridge says, lower further from it.
pub proof fn lemma_belts_stand_on_land(ridge: i32, d: i32, e: i32, cont: i32)
    requires
        0 <= ridge <= 65536,
        0 <= d <= e < 0x4000_0000,
        0 <= cont <= 65536,
    ensures
        cont <= 20971 ==> belt_height(ridge, d, cont) == 0,
        0 <= belt_height(ridge, e, cont) <= belt_height(ridge, d, cont) <= 85 * 65536,
        cont >= 27525 && d == 0 && ridge == 65536 ==> belt_height(ridge, d, cont) == 85 * 65536,
{
    lemma_boundaries_fade(d, e);
    let x = toward_zero((cont - C_SHELF) * 65536, 6554);
    crate::world::q16::lemma_smoothstep_range(x as i32);
    let (sd, se) = (scale_300_spec(d), scale_300_spec(e));
    lemma_products(se, sd, ridge);
    let (rd, re) = (mul_q16_spec(ridge, sd), mul_q16_spec(ridge, se));
    lemma_products(ridge, ridge, sd);
    lemma_products(ridge, ridge, se);
    assert(0 <= re <= rd <= 65536);
    lemma_products(BELT_AMP, BELT_AMP, rd);
    lemma_products(BELT_AMP, BELT_AMP, re);
    lemma_belt_order(re, rd);
    let l = land_share(cont);
    let (hd, he) = (mul_q16_spec(rd, BELT_AMP), mul_q16_spec(re, BELT_AMP));
    assert(0 <= he <= hd <= BELT_AMP);
    lemma_products(he, hd, l);
    lemma_products(hd, hd, l);
}

proof fn lemma_belt_order(a: i32, b: i32)
    requires
        0 <= a <= b <= 65536,
    ensures
        mul_q16_spec(a, BELT_AMP) <= mul_q16_spec(b, BELT_AMP),
        mul_q16_spec(a, BELT_AMP) == mul_q16_spec(BELT_AMP, a),
        mul_q16_spec(b, BELT_AMP) == mul_q16_spec(BELT_AMP, b),
        mul_q16_spec(b, BELT_AMP) <= BELT_AMP,
        mul_q16_spec(a, BELT_AMP) >= 0,
{
}

/// The offered relief steps are what they say, in hundredths, and any other step is plain.
pub proof fn lemma_relief_steps(h: i32)
    ensures
        h == 50 || h == 100 || h == 150 || h == 200 || h == 400 ==> 100 * relief_q16_spec(h) == h
            * 65536,
        !(h == 50 || h == 100 || h == 150 || h == 200 || h == 400) ==> relief_q16_spec(h) == 65536,
{
}

/// The geology word remembers its plate: the region reads back, and so does whether it is
/// volcanic.
pub proof fn lemma_geology_reads_back(n: PlateNoise)
    ensures
        (geology(n) as u32) % 256 == n.plate % 256,
        is_volcanic_spec(geology(n) as u32) == is_volcanic_spec(n.plate),
        is_volcanic_spec(n.plate) <==> (n.plate % 256) % 6 == 0,
{
    let w = (n.plate % 256 + (n.hardness / 256) * 256) as u32;
    assert((w as i32) as u32 == w) by (bit_vector);
}

/// Warmth follows latitude: at the equator inmost land at sea level is as warm as can be,
/// and half a turn away as cold as can be.
pub proof fn lemma_latitudes(st: Surroundings, z: i32)
    requires
        st.elev@[2]@[2] == 0,
        st.cont == 65536,
    ensures
        z as int % 16384 == 0 ==> st.temperature(z) == 65536,
        z as int % 16384 == 8192 ==> st.temperature(z) == 0,
{
    lemma_products(0, 0, LAPSE_Q16);
    lemma_products(16384, 16384, 0);
    let t = z as int % 16384;
    if t == 0 {
        assert(cos_k_spec(0) == 65536);
        lemma_even_row(z, 0);
        lemma_products(65536, 65536, HALF);
        lemma_blends(65536, HALF, 0, 0);
    }
    if t == 8192 {
        assert(cos_k_spec(128) == -65536);
        lemma_even_row(z, 128);
        lemma_products(-65536i32, 65536, HALF);
        lemma_blends(0, HALF, 0, 0);
    }
}

proof fn lemma_even_row(z: i32, k: int)
    requires
        0 <= k < 256,
        z as int % 16384 == 64 * k,
    ensures
        cos_lat_spec(z) == cos_k_spec(k),
{
    assert((64 * k) / 64 == k && (64 * k) % 64 == 0);
    lemma_cos_range(k);
    lemma_cos_range(k + 1);
    lemma_blends(cos_k_spec(k) as i32, cos_k_spec(k + 1) as i32, 0, 0);
}

proof fn lemma_cos_range(k: int)
    ensures
        -65536 <= cos_k_spec(k) <= 65536,
{
    let s = (k % 256 + 64) % 256;
    let half = if s <= 128 {
        s
    } else {
        256 - s
    };
    let deg = (half * 180 + 64) / 128;
    if 0 < deg < 180 {
        lemma_angle(deg);
    }
}

/// It is colder higher up: of two columns that differ in height alone the higher one is
/// never the warmer.
pub proof fn lemma_colder_higher_up(low: Surroundings, high: Surroundings, z: i32)
    requires
        low.cont == high.cont,
        0 <= low.cont <= 65536,
        -0x1000_0000 <= low.elev@[2]@[2] <= high.elev@[2]@[2] <= 0x1000_0000,
    ensures
        high.temperature(z) <= low.temperature(z),
{
    let (a, b) = (low.elev@[2]@[2], high.elev@[2]@[2]);
    lemma_products(a, b, LAPSE_Q16);
    lemma_products(a, a, LAPSE_Q16);
    lemma_products(b, b, LAPSE_Q16);
    lemma_lat_range(z);
    let c = cos_lat_spec(z);
    lemma_products(c, c, HALF);
    let lat = mul_q16_spec(c, HALF).wrapping_add(HALF);
    let pull = mul_q16_spec(16384, ONE.wrapping_sub(low.cont));
    lemma_products(16384, 16384, (65536 - low.cont) as i32);
    lemma_blends_follow(
        lat.wrapping_sub(mul_q16_spec(b, LAPSE_Q16)),
        lat.wrapping_sub(mul_q16_spec(a, LAPSE_Q16)),
        HALF,
        pull,
    );
}

proof fn lemma_lat_range(z: i32)
    ensures
        -65536 <= cos_lat_spec(z) <= 65536,
{
    let t = z as int % 16384;
    lemma_cos_range(t / 64);
    lemma_cos_range(t / 64 + 1);
    lemma_blends(
        cos_k_spec(t / 64) as i32,
        cos_k_spec(t / 64 + 1) as i32,
        ((t % 64) * 1024) as i32,
        ((t % 64) * 1024) as i32,
    );
}

/// Rain stays behind high ground: of two columns that differ in the ground to the west
/// alone the one with the higher ground is never the wetter, and ground that is not higher
/// holds nothing back.
pub proof fn lemma_rain_shadow(open: Surroundings, shaded: Surroundings)
    requires
        open.cont == shaded.cont,
        open.humid == shaded.humid,
        open.humid_west == shaded.humid_west,
        open.elev@[2]@[2] == shaded.elev@[2]@[2],
        0 <= open.cont <= 65536,
        0 <= open.humid <= 65536,
        0 <= open.humid_west <= 65536,
        -0x1000_0000 <= open.elev@[2]@[2] <= 0x1000_0000,
        -0x1000_0000 <= open.elev@[2]@[0] <= shaded.elev@[2]@[0] <= 0x1000_0000,
    ensures
        shaded.humidity() <= open.humidity(),
        open.elev@[2]@[0] <= open.elev@[2]@[2] ==> open.rain_shadow() == 0,
        open.elev@[2]@[0] - open.elev@[2]@[2] >= 40 * 65536 ==> open.rain_shadow() == 65536,
{
    lemma_products(open.humid, open.humid, HALF);
    lemma_products(open.humid_west, open.humid_west, HALF);
    lemma_products(13107, 13107, (65536 - open.cont) as i32);
}

/// The channels of the plate pass: elevation scaled by the relief, which plain relief
/// leaves as it is, and nothing written into the later channels.
pub proof fn lemma_plain_relief(n: PlateNoise, relief: i32)
    ensures
        plates_spec(65536, n)[0] == plain_elev(n),
        plates_spec(relief, n).len() == 8,
        forall|k: int| 4 <= k < 8 ==> #[trigger] plates_spec(relief, n)[k] == 0,
        plates_spec(relief, n)[1] == plates_spec(65536, n)[1],
        !is_volcanic_spec(n.plate) ==> plain_elev(n) == bed_elev(
            continentalness(n.continent),
            metres(n.second.wrapping_sub(n.near), 3000),
        ).wrapping_add(
            belt_height(
                n.ridge,
                metres(n.second.wrapping_sub(n.near), 3000),
                continentalness(n.continent),
            ),
        ),
{
    lemma_products(plain_elev(n), plain_elev(n), 0);
}

/// A column from the top down: nothing above ground and sea, the sea over low ground, the
/// dress, two cells of crust, and stone with ores, to the deepest rule's reach.
pub proof fn lemma_column_layers(g: DiffusionV2, c: Col, x: i32, y: i32, z: i32)
    requires
        -0x1000_0000 <= c.height <= 0x1000_0000,
        -0x1000_0000 <= y <= 0x1000_0000,
    ensures
        ({
            let id = g.cell_spec(c, x, y, z);
            let up = y - c.height;
            &&& up >= 0 && y >= c.water ==> id == BlockId(0)
            &&& up >= 0 && y < c.water ==> id == g.mat.water
            &&& up == -1 ==> id == c.dress
            &&& up == -2 || up == -3 ==> id == c.crust
            &&& up < -3 && -up > g.mat.max_scattered_depth ==> id == g.mat.stone
            &&& up < -3 && -up <= g.mat.max_scattered_depth ==> id == (
            match g.mat.ores.ore_spec(g.seed, x, y, z, (-up) as i32) {
                Some(ore) => ore,
                None => g.mat.stone,
            })
        }),
{
}

/// What biomes wear: coasts their shore, tundra snow, green land grass, desert sand,
/// savanna a sparse edge on grassy soil, rock where it is alpine or volcanic, soil without
/// growth where it is wet, and badlands two bands of six that repeat every twelve.
pub proof fn lemma_biomes_wear(g: DiffusionV2, biome: Biome, h: i32, k: i32)
    requires
        k == h + 12,
    ensures
        ({
            let d = |s: SurfaceKind| g.mat.dress@[s.index_spec() as int];
            let c = |s: SurfaceKind| g.mat.crust@[s.index_spec() as int];
            let w = g.dress_spec(biome, h);
            &&& w == g.dress_spec(biome, k)
            &&& biome == Biome::Coast ==> w == (
                d(SurfaceKind::Shore),
                c(SurfaceKind::Shore),
                Some(SurfaceKind::Shore),
            )
            &&& biome == Biome::Tundra ==> w == (
                d(SurfaceKind::Snowy),
                c(SurfaceKind::Snowy),
                Some(SurfaceKind::Snowy),
            )
            &&& biome == Biome::Grassland || biome == Biome::Taiga || biome == Biome::Rainforest
                ==> w == (
                d(SurfaceKind::Grassy),
                c(SurfaceKind::Grassy),
                Some(SurfaceKind::Grassy),
            )
            &&& biome == Biome::Desert || biome == Biome::Badlands && h as int % 12 < 6 ==> w == (
                d(SurfaceKind::Desert),
                c(SurfaceKind::Desert),
                Some(SurfaceKind::Desert),
            )
            &&& biome == Biome::Badlands && h as int % 12 >= 6 ==> w.0 == c(SurfaceKind::Desert)
                && w.1 == w.0 && w.2 is None
            &&& biome == Biome::Savanna ==> w == (
                d(SurfaceKind::BeachEdge),
                c(SurfaceKind::Grassy),
                Some(SurfaceKind::BeachEdge),
            )
            &&& biome == Biome::Alpine || biome == Biome::Volcanic ==> w == (
                g.mat.stone,
                g.mat.stone,
                None::<SurfaceKind>,
            )
            &&& biome == Biome::Wetland ==> w.0 == c(SurfaceKind::Grassy) && w.1 == w.0 && w.2 is None
        }),
{
}

/// A column stands at sea level plus its elevation in whole metres, floods to the sea, and
/// wears what its biome wears, with growth on top.
pub proof fn lemma_column_of_channels(g: DiffusionV2, ch: Seq<i32>, x: i32, z: i32)
    requires
        g.wf(),
    ensures
        ({
            let c = g.col_spec(ch, x, z);
            let e = ch[0];
            let b = biome_spec(
                ch[1],
                ch[2],
                ch[0],
                ch[3],
                is_basin_spec(ch[4]),
                x,
                c.height,
                z,
                g.seed,
            );
            let w = g.dress_spec(b, c.height);
            &&& -32768 <= e - 65536 * (c.height - 20) < 32768
            &&& c.water == 20
            &&& c.crust == w.1
            &&& w.2 is None ==> c.dress == w.0
            &&& w.2 is Some ==> c.dress == g.mat.scatter_spec(
                g.seed,
                w.2->0,
                w.0,
                x,
                c.height,
                z,
            )
        }),
{
    lemma_rounds_to_nearest(ch[0]);
}

/// Far tiles keep the silhouette: stone up to the coarse height, then the sea.
pub proof fn lemma_far_silhouette(g: DiffusionV2, coarse: i32, y: i32)
    ensures
        y < coarse ==> g.lod_spec(coarse, y) == g.mat.stone,
        coarse <= y < g.sea ==> g.lod_spec(coarse, y) == g.mat.water,
        y >= coarse && y >= g.sea ==> g.lod_spec(coarse, y) == BlockId(0),
{
}

/// The first pass reads the plates alone, the second what surrounds the column and how far
/// north it lies alone, and any later pass keeps what is there.
pub proof fn lemma_passes_read_their_own(
    relief: i32,
    phase: u32,
    n: PlateNoise,
    m: PlateNoise,
    st: Surroundings,
    tu: Surroundings,
    prev: Seq<i32>,
    past: Seq<i32>,
    z: i32,
    w: i32,
)
    ensures
        phase == 0 ==> pass_spec(relief, phase, n, st, prev, z) == pass_spec(
            relief,
            phase,
            n,
            tu,
            past,
            w,
        ),
        phase == 1 ==> pass_spec(relief, phase, n, st, prev, z) == pass_spec(
            relief,
            phase,
            m,
            st,
            past,
            z,
        ),
        phase > 1 ==> pass_spec(relief, phase, n, st, prev, z) == prev,
        phase <= 1 ==> pass_spec(relief, phase, n, st, prev, z).len() == 8,
{
}

/// A column of a chunk is worked out from its own eight channels, which lie one column after
/// the other, row by row to the south, and from its own place.
pub proof fn lemma_columns_read_their_channels(
    rules: DiffusionV2,
    cx: i32,
    cz: i32,
    field: Seq<i32>,
    channels: Seq<i32>,
    lx: int,
    lz: int,
)
    requires
        0 <= lx < 16,
        0 <= lz < 16,
        field.len() == 2048,
        channels.len() == 8,
        forall|c: int| 0 <= c < 8 ==> #[trigger] channels[c] == field[128 * lz + 8 * lx + c],
    ensures
        rules.cols_spec(cx, cz, field)[16 * lz + lx] == rules.col_spec(
            channels,
            (16 * cx + lx) as i32,
            (16 * cz + lz) as i32,
        ),
{
    let k = 16 * lz + lx;
    assert(k % 16 == lx && k / 16 == lz);
    assert(field.subrange(k * 8, k * 8 + 8) =~= channels);
}

/// A chunk holds at every cell what the world has at the cell's place: sixteen cells to a
/// chunk along each axis, and the column that stands there.
pub proof fn lemma_chunk_is_its_place(
    rules: DiffusionV2,
    cols: Seq<Col>,
    c: (i32, i32, i32),
    x: i32,
    y: i32,
    z: i32,
)
    requires
        16 * c.0 <= x < 16 * c.0 + 16,
        16 * c.1 <= y < 16 * c.1 + 16,
        16 * c.2 <= z < 16 * c.2 + 16,
    ensures
        rules.chunk_spec(cols, c)[(x - 16 * c.0) + 16 * (z - 16 * c.2) + 256 * (y - 16 * c.1)]
            == rules.cell_spec(cols[(x - 16 * c.0) + 16 * (z - 16 * c.2)], x, y, z),
{
    let (lx, ly, lz) = (x - 16 * c.0, y - 16 * c.1, z - 16 * c.2);
    let i = lx + 16 * lz + 256 * ly;
    assert(i % 16 == lx && (i / 16) % 16 == lz && i / 256 == ly);
    assert((i % 256) % 16 == lx && (i % 256) / 16 == lz);
    assert(local_of_spec(i) == (lx, ly, lz));
}

} // verus!
