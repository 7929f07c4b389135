//! Sizes that a level of detail implies: one cell is `2^k` metres, a section 32 cells.
use vstd::arithmetic::power2::{lemma2_to64, pow2};
use vstd::prelude::*;

use crate::block::Detail;

verus! {

/// Metres per cell.
pub open spec fn cell_spec(d: Detail) -> int {
    pow2(d.0 as nat) as int
}

/// Metres per cell.
pub fn cell(d: Detail) -> (m: i32)
    requires
        0 <= d.0 <= 30,
    ensures
        m == cell_spec(d),
        m >= 1,
{
    let k: i8 = d.0;
    let mut m: i32 = 1;
    let mut i: i8 = 0;
    proof {
        lemma2_to64();
    }
    while i < k
        invariant
            0 <= i <= k <= 30,
            m == pow2(i as nat),
            m >= 1,
        decreases k - i,
    {
        proof {
            vstd::arithmetic::power2::lemma_pow2_unfold((i + 1) as nat);
            lemma_small_power(i as nat);
        }
        m = m * 2;
        i = i + 1;
    }
    m
}

proof fn lemma_small_power(i: nat)
    requires
        i <= 29,
    ensures
        pow2(i) <= 0x2000_0000,
{
    lemma2_to64();
    if i < 29 {
        vstd::arithmetic::power2::lemma_pow2_strictly_increases(i, 29);
    }
}

/// Metres per section side.
pub open spec fn section_span_spec(d: Detail) -> int {
    32 * cell_spec(d)
}

/// Metres per section side.
pub fn section_span(d: Detail) -> (m: i32)
    requires
        0 <= d.0 <= 25,
    ensures
        m == section_span_spec(d),
        m > 0,
{
    proof {
        lemma2_to64();
        if d.0 < 25 {
            vstd::arithmetic::power2::lemma_pow2_strictly_increases(d.0 as nat, 25);
        }
    }
    32 * cell(d)
}

/// The finest cells are one metre wide, every step of detail doubles them, and a section is
/// thirty-two of them wide.
pub proof fn lemma_details_double(d: Detail, e: Detail)
    requires
        0 <= d.0,
        e.0 == d.0 + 1,
    ensures
        d.0 == 0 ==> cell_spec(d) == 1,
        cell_spec(e) == 2 * cell_spec(d),
        section_span_spec(e) == 2 * section_span_spec(d),
        section_span_spec(d) == 32 * cell_spec(d),
        cell_spec(d) >= 1,
{
    vstd::arithmetic::power2::lemma2_to64();
    vstd::arithmetic::power2::lemma_pow2_unfold(e.0 as nat);
    vstd::arithmetic::power2::lemma_pow2_pos(d.0 as nat);
}

} // verus!
