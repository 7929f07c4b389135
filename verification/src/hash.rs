//! The splitmix64 mixer behind every deterministic roll.
//!
//! The constants and shifts are those of the published generator. Rolls are shared with
//! programs that keep a mixer of their own; that theirs is this one is a convention, which
//! nothing in this crate shows.
use vstd::prelude::*;

verus! {

/// The Weyl increment of the splitmix64 sequence.
pub const GOLDEN: u64 = 0x9E37_79B9_7F4A_7C15;

/// The splitmix64 finalizer: two xor-shift-multiply rounds and a last xor-shift.
pub open spec fn splitmix_finish_spec(h: u64) -> u64 {
    let a = (h ^ (h >> 30u64)).wrapping_mul(0xBF58_476D_1CE4_E5B9);
    let b = (a ^ (a >> 27u64)).wrapping_mul(0x94D0_49BB_1331_11EB);
    b ^ (b >> 31u64)
}

/// Scrambles `h` with the splitmix64 finalizer.
pub fn splitmix_finish(h: u64) -> (out: u64)
    ensures
        out == splitmix_finish_spec(h),
{
    let a: u64 = (h ^ (h >> 30u64)).wrapping_mul(0xBF58_476D_1CE4_E5B9);
    let b: u64 = (a ^ (a >> 27u64)).wrapping_mul(0x94D0_49BB_1331_11EB);
    b ^ (b >> 31u64)
}

/// Advances `state` by one Weyl step and returns the scrambled state.
pub fn splitmix_next(state: &mut u64) -> (out: u64)
    ensures
        *final(state) == old(state).wrapping_add(GOLDEN),
        out == splitmix_finish_spec(*final(state)),
{
    *state = state.wrapping_add(GOLDEN);
    splitmix_finish(*state)
}

} // verus!
