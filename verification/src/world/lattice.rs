//! The integer lattices under the noise fields.
use vstd::prelude::*;

use crate::hash::{splitmix_finish, splitmix_finish_spec, GOLDEN};

verus! {

/// The 24-bit value of a point of the three-dimensional lattice.
pub open spec fn lattice_spec(seed: u64, x: i32, y: i32, z: i32) -> u64 {
    splitmix_finish_spec(
        seed ^ ((x as u32) as u64).wrapping_mul(GOLDEN) ^ ((y as u32) as u64).wrapping_mul(
            0xC2B2_AE3D_27D4_EB4F,
        ) ^ ((z as u32) as u64).wrapping_mul(0x1656_67B1_9E37_79F9),
    ) >> 40u64
}

/// The 24-bit value of a point of the three-dimensional lattice.
pub fn lattice(seed: u64, x: i32, y: i32, z: i32) -> (v: u64)
    ensures
        v == lattice_spec(seed, x, y, z),
        v < 0x100_0000,
{
    let h: u64 = splitmix_finish(
        seed ^ ((x as u32) as u64).wrapping_mul(GOLDEN) ^ ((y as u32) as u64).wrapping_mul(
            0xC2B2_AE3D_27D4_EB4F,
        ) ^ ((z as u32) as u64).wrapping_mul(0x1656_67B1_9E37_79F9),
    );
    assert(h >> 40u64 < 0x100_0000) by (bit_vector);
    h >> 40u64
}

/// The word of a point of the plane lattice, after the first round.
pub open spec fn plane_round(seed: u64, x: i32, z: i32) -> u64 {
    let h = seed ^ ((x as u32) as u64).wrapping_mul(GOLDEN) ^ ((z as u32) as u64).wrapping_mul(
        0xC2B2_AE3D_27D4_EB4F,
    );
    (h ^ (h >> 30u64)).wrapping_mul(0xBF58_476D_1CE4_E5B9)
}

/// The 24-bit value of a point of the plane lattice.
pub open spec fn plane_lattice_spec(seed: u64, x: i32, z: i32) -> u64 {
    let h = plane_round(seed, x, z);
    (h ^ (h >> 27u64)) >> 40u64
}

/// The 24-bit value of a point of the plane lattice.
pub fn plane_lattice(seed: u64, x: i32, z: i32) -> (v: u64)
    ensures
        v == plane_lattice_spec(seed, x, z),
        v < 0x100_0000,
{
    let mut h: u64 = seed ^ ((x as u32) as u64).wrapping_mul(GOLDEN) ^ ((z as u32) as u64).wrapping_mul(
        0xC2B2_AE3D_27D4_EB4F,
    );
    h = (h ^ (h >> 30u64)).wrapping_mul(0xBF58_476D_1CE4_E5B9);
    h = h ^ (h >> 27u64);
    assert(h >> 40u64 < 0x100_0000) by (bit_vector);
    h >> 40u64
}

/// How often a cell of a channel has been doubled with `left` phases to go.
pub open spec fn doublings(channel: u32, left: int) -> int {
    let most = if channel == 0 {
        6int
    } else if channel == 1 || channel == 2 {
        5
    } else {
        4
    };
    if left < 0 {
        0
    } else if left < most {
        left
    } else {
        most
    }
}

/// `n` doubled `k` times.
pub open spec fn doubled(n: int, k: int) -> int
    decreases k,
{
    if k <= 0 {
        n
    } else {
        2 * doubled(n, k - 1)
    }
}

/// The side of a noise cell in a phase: early phases draw coarse.
pub open spec fn phase_cell_spec(channel: u32, phase: u32, phases: u32) -> int {
    let base = if channel == 0 {
        16int
    } else if channel == 1 {
        32
    } else if channel == 2 {
        24
    } else {
        8
    };
    doubled(base, doublings(channel, phases - 1 - phase))
}

/// The side of a noise cell in a phase: early phases draw coarse.
pub fn phase_cell(channel: u32, phase: u32, phases: u32) -> (side: u32)
    ensures
        side == phase_cell_spec(channel, phase, phases),
{
    let last: u32 = if phases > 0 {
        phases - 1
    } else {
        0
    };
    let left: u32 = if last > phase {
        last - phase
    } else {
        0
    };
    let most: u32 = if channel == 0 {
        6
    } else if channel == 1 || channel == 2 {
        5
    } else {
        4
    };
    let base: u32 = if channel == 0 {
        16
    } else if channel == 1 {
        32
    } else if channel == 2 {
        24
    } else {
        8
    };
    let times: u32 = if left < most {
        left
    } else {
        most
    };
    let mut side: u32 = base;
    let mut k: u32 = 0;
    while k < times
        invariant
            k <= times <= 6,
            8 <= base <= 32,
            side == doubled(base as int, k as int),
            k == 0 ==> side <= 32,
            k == 1 ==> side <= 64,
            k == 2 ==> side <= 128,
            k == 3 ==> side <= 256,
            k == 4 ==> side <= 512,
            k == 5 ==> side <= 1024,
            k == 6 ==> side <= 2048,
        decreases times - k,
    {
        side = side * 2;
        k = k + 1;
    }
    side
}

/// Cells halve from phase to phase down to the last: a phase's cell is as long as the next
/// one's or twice that, the last phase has the finest, and no more than six phases before
/// it differ.
pub proof fn lemma_cells_halve(channel: u32, phase: u32, phases: u32)
    requires
        phase < phases,
    ensures
        phase + 1 == phases ==> phase_cell_spec(channel, phase, phases) == (if channel == 0 {
            16int
        } else if channel == 1 {
            32
        } else if channel == 2 {
            24
        } else {
            8
        }),
        phase + 1 < phases ==> {
            let (a, b) = (
                phase_cell_spec(channel, phase, phases),
                phase_cell_spec(channel, (phase + 1) as u32, phases),
            );
            a == 2 * b || a == b && phases - phase > 5
        },
{
}

} // verus!
