//! What the integer diffusion world asks of its noise and of the pass before.
//!
//! The noise fields and the windows of a pass are held outside. Here stands which field
//! is read where, and which neighbours the climate pass reads.
use vstd::prelude::*;

use crate::world::diffusion_v2::{
    warped, Surroundings, CELL_PLATE, CELL_VOLC, CH_ELEV, CH_GEOL, CH_HUMID, CH_TEMP,
};
use crate::world::q16::HALF;

verus! {

/// The side of a continent cell in metres.
pub const CELL_CONT: i32 = 2048;

/// The side of a mountain belt's cell in metres.
pub const CELL_BELT: i32 = 512;

/// How far the continent field is shifted at most: 256 metres.
pub const WARP_AMP: i32 = 16777216;

/// The octaves of the continent and humidity fields.
pub const OCTAVES: u32 = 4;

/// What each octave has of the one before.
pub const GAIN: i32 = HALF;

pub const SALT_PLATE: u32 = 0x51A7_E01D;

pub const SALT_WARP: u32 = 0xC0DE_A11A;

pub const SALT_CONT: u32 = 0xC0A1_7E11;

pub const SALT_BELT: u32 = 0xBE17_0001;

pub const SALT_VOLC: u32 = 0xB0C1_A001;

pub const SALT_HUMID: u32 = 0xA11D_0002;

/// A read of a noise field: its seed and salt, the place, and the side of its cells.
#[derive(Clone, Copy, PartialEq, Eq, Debug, Structural)]
pub struct NoiseAsk {
    pub seed: u32,
    pub x: i32,
    pub z: i32,
    pub cell: i32,
    pub salt: u32,
}

/// The reads of the plate pass for one column, but for the continent, which is read at a
/// place that the warp shifts.
#[derive(Clone, Copy, PartialEq, Eq, Debug, Structural)]
pub struct PlateAsks {
    /// The nearest plate centres.
    pub plate: NoiseAsk,
    /// The shift of the continent field, by at most [`WARP_AMP`].
    pub warp: NoiseAsk,
    /// The belt field, which is then folded.
    pub belt: NoiseAsk,
    /// The nearest volcanic vents.
    pub vent: NoiseAsk,
    /// The humidity field, of [`OCTAVES`] octaves.
    pub humid: NoiseAsk,
}

/// The reads of the plate pass, one after the other.
pub open spec fn reads_of(a: PlateAsks) -> Seq<NoiseAsk> {
    seq![a.plate, a.warp, a.belt, a.vent, a.humid]
}

/// The reads of the plate pass for one column: each field is read where the column stands,
/// under the world's seed, and no two of them are drawn from the same noise.
pub fn plate_asks(seed: u32, x: i32, z: i32) -> (a: PlateAsks)
    ensures
        a == (PlateAsks {
            plate: NoiseAsk { seed, x, z, cell: CELL_PLATE, salt: SALT_PLATE },
            warp: NoiseAsk { seed, x, z, cell: CELL_CONT, salt: SALT_WARP },
            belt: NoiseAsk { seed, x, z, cell: CELL_BELT, salt: SALT_BELT },
            vent: NoiseAsk { seed, x, z, cell: CELL_VOLC, salt: SALT_VOLC },
            humid: NoiseAsk { seed, x, z, cell: CELL_CONT, salt: SALT_HUMID },
        }),
        forall|i: int, j: int|
            0 <= i < j < 5 ==> #[trigger] reads_of(a)[i].salt != #[trigger] reads_of(a)[j].salt,
        forall|i: int|
            0 <= i < 5 ==> (#[trigger] reads_of(a)[i]).seed == seed && reads_of(a)[i].x == x
                && reads_of(a)[i].z == z,
        a.belt.cell < a.warp.cell,
        a.warp.cell == a.humid.cell,
{
    PlateAsks {
        plate: NoiseAsk { seed, x, z, cell: CELL_PLATE, salt: SALT_PLATE },
        warp: NoiseAsk { seed, x, z, cell: CELL_CONT, salt: SALT_WARP },
        belt: NoiseAsk { seed, x, z, cell: CELL_BELT, salt: SALT_BELT },
        vent: NoiseAsk { seed, x, z, cell: CELL_VOLC, salt: SALT_VOLC },
        humid: NoiseAsk { seed, x, z, cell: CELL_CONT, salt: SALT_HUMID },
    }
}

/// The read of the continent field, of [`OCTAVES`] octaves, where the warp shifts the
/// column by `dx` and `dz`.
pub fn continent_ask(seed: u32, x: i32, z: i32, dx: i32, dz: i32) -> (a: NoiseAsk)
    ensures
        a == (NoiseAsk {
            seed,
            x: x.wrapping_add((dx as int / 65536) as i32),
            z: z.wrapping_add((dz as int / 65536) as i32),
            cell: CELL_CONT,
            salt: SALT_CONT,
        }),
{
    let (wx, wz) = warped(x, z, dx, dz);
    NoiseAsk { seed, x: wx, z: wz, cell: CELL_CONT, salt: SALT_CONT }
}

/// What the climate pass reads of the pass before. `prev` gives a channel of the column at
/// an offset.
pub fn read_surroundings<P: Fn(usize, i32, i32) -> i32>(prev: P) -> (st: Surroundings)
    requires
        forall|ch: usize, dx: i32, dz: i32| #[trigger] call_requires(prev, (ch, dx, dz)),
    ensures
        forall|row: int, col: int|
            0 <= row < 5 && 0 <= col < 5 ==> call_ensures(
                prev,
                (CH_ELEV, (col - 2) as i32, (row - 2) as i32),
                #[trigger] st.elev@[row]@[col],
            ),
        call_ensures(prev, (CH_TEMP, 0, 0), st.cont),
        call_ensures(prev, (CH_HUMID, 0, 0), st.humid),
        call_ensures(prev, (CH_HUMID, -2i32, 0), st.humid_west),
        call_ensures(prev, (CH_GEOL, 0, 0), st.geol),
{
    let mut elev: [[i32; 5]; 5] = [[0i32;5];5];
    let mut row: usize = 0;
    while row < 5
        invariant
            row <= 5,
            forall|ch: usize, dx: i32, dz: i32| #[trigger] call_requires(prev, (ch, dx, dz)),
            forall|r: int, c: int|
                0 <= r < row && 0 <= c < 5 ==> call_ensures(
                    prev,
                    (CH_ELEV, (c - 2) as i32, (r - 2) as i32),
                    #[trigger] elev@[r]@[c],
                ),
        decreases 5 - row,
    {
        let dz: i32 = row as i32 - 2;
        let mut line: [i32; 5] = [0i32;5];
        let mut col: usize = 0;
        while col < 5
            invariant
                col <= 5,
                dz == row - 2,
                forall|ch: usize, dx: i32, dz: i32| #[trigger] call_requires(prev, (ch, dx, dz)),
                forall|c: int|
                    0 <= c < col ==> call_ensures(
                        prev,
                        (CH_ELEV, (c - 2) as i32, dz),
                        #[trigger] line@[c],
                    ),
            decreases 5 - col,
        {
            line[col] = prev(CH_ELEV, col as i32 - 2, dz);
            col = col + 1;
        }
        elev[row] = line;
        row = row + 1;
    }
    let cont: i32 = prev(CH_TEMP, 0, 0);
    let humid: i32 = prev(CH_HUMID, 0, 0);
    let humid_west: i32 = prev(CH_HUMID, -2, 0);
    let geol: i32 = prev(CH_GEOL, 0, 0);
    Surroundings { elev, cont, humid, humid_west, geol }
}

} // verus!
