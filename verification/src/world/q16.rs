//! Fixed-point arithmetic with sixteen fractional bits, on wrapping 32-bit words.
//!
//! Every machine computes the same bits, which floating point does not promise.
//!
//! The noise values that enter the terrain come from a separate field library with
//! arithmetic of its own. Here products round down, as an arithmetic shift of the wide
//! product does, blends go by such a product, and the smooth step is flat outside zero to
//! one. That the field library rounds the same way is a convention: nothing in this crate
//! shows it.
use vstd::prelude::*;

verus! {

/// One.
pub const ONE: i32 = 65536;

/// One half.
pub const HALF: i32 = 32768;

/// `v / 65536` rounded down.
pub fn whole_part(v: i64) -> (q: i64)
    ensures
        q == v as int / 65536,
{
    if v >= 0 {
        v / 65536
    } else {
        let a: i64 = -1 - v;
        -1 - a / 65536
    }
}

/// `a / n` rounded toward zero.
pub open spec fn toward_zero(a: int, n: int) -> int {
    if a >= 0 {
        a / n
    } else {
        -((-a) / n)
    }
}

/// `a / n` rounded toward zero.
pub fn div_toward_zero(a: i64, n: i64) -> (q: i64)
    requires
        n > 0,
        a > i64::MIN,
    ensures
        q == toward_zero(a as int, n as int),
{
    if a >= 0 {
        a / n
    } else {
        let m: i64 = -a;
        let q: i64 = m / n;
        proof {
            vstd::arithmetic::div_mod::lemma_div_is_ordered_by_denominator(m as int, 1, n as int);
            vstd::arithmetic::div_mod::lemma_div_pos_is_pos(m as int, n as int);
        }
        -q
    }
}

/// The product of two numbers, rounded down.
pub open spec fn mul_q16_spec(a: i32, b: i32) -> i32 {
    ((a * b) / 65536) as i32
}

/// The product of two numbers, rounded down.
#[verifier::when_used_as_spec(mul_q16_spec)]
pub fn mul_q16(a: i32, b: i32) -> (r: i32)
    ensures
        r == mul_q16_spec(a, b),
{
    assert(-0x4000_0000_0000_0000 <= a * b <= 0x4000_0000_0000_0000) by (nonlinear_arith)
        requires
            -0x8000_0000 <= a < 0x8000_0000,
            -0x8000_0000 <= b < 0x8000_0000,
    ;
    whole_part(a as i64 * b as i64) as i32
}

/// The number a share `t` of the way from `a` to `b`.
pub open spec fn lerp_q16_spec(a: i32, b: i32, t: i32) -> i32 {
    a.wrapping_add(mul_q16_spec(b.wrapping_sub(a), t))
}

/// The number a share `t` of the way from `a` to `b`.
#[verifier::when_used_as_spec(lerp_q16_spec)]
pub fn lerp_q16(a: i32, b: i32, t: i32) -> (r: i32)
    ensures
        r == lerp_q16_spec(a, b, t),
{
    a.wrapping_add(mul_q16(b.wrapping_sub(a), t))
}

/// `v`, brought into `lo..=hi`.
pub open spec fn clamp_q16_spec(v: i32, lo: i32, hi: i32) -> i32 {
    if v < lo {
        lo
    } else if v > hi {
        hi
    } else {
        v
    }
}

/// `v`, brought into `lo..=hi`.
#[verifier::when_used_as_spec(clamp_q16_spec)]
pub fn clamp_q16(v: i32, lo: i32, hi: i32) -> (r: i32)
    ensures
        r == clamp_q16_spec(v, lo, hi),
{
    if v < lo {
        lo
    } else if v > hi {
        hi
    } else {
        v
    }
}

/// The smooth step `3 t^2 - 2 t^3` from zero to one, flat outside.
pub open spec fn smoothstep_q16_spec(t: i32) -> i32 {
    let c = clamp_q16_spec(t, 0, ONE);
    mul_q16_spec(mul_q16_spec(c, c), (3 * ONE - 2 * c) as i32)
}

/// The smooth step `3 t^2 - 2 t^3` from zero to one, flat outside.
#[verifier::when_used_as_spec(smoothstep_q16_spec)]
pub fn smoothstep_q16(t: i32) -> (r: i32)
    ensures
        r == smoothstep_q16_spec(t),
{
    let c: i32 = clamp_q16(t, 0, ONE);
    mul_q16(mul_q16(c, c), 3 * ONE - 2 * c)
}

/// `v` rounded to a whole number, halves up.
pub open spec fn q16_round_spec(v: i32) -> int {
    (v + 32768) / 65536
}

/// `v` rounded to a whole number, halves up.
pub fn q16_round(v: i32) -> (r: i32)
    ensures
        r == q16_round_spec(v),
        -32768 <= r <= 32768,
{
    whole_part(v as i64 + 32768) as i32
}

/// `v` as a share of `n`, kept within zero and one.
pub open spec fn norm01_spec(v: i32, n: i32) -> i32 {
    if n <= 0 {
        0
    } else {
        clamp_q16_spec(toward_zero(v * 65536, n as int) as i32, 0, ONE)
    }
}

/// `v` as a share of `n`, kept within zero and one.
#[verifier::when_used_as_spec(norm01_spec)]
pub fn norm01(v: i32, n: i32) -> (r: i32)
    ensures
        r == norm01_spec(v, n),
{
    if n <= 0 {
        return 0;
    }
    clamp_q16(div_toward_zero(v as i64 * 65536, n as i64) as i32, 0, ONE)
}

/// The smooth step stays within zero and one, and keeps both ends.
pub proof fn lemma_smoothstep_range(t: i32)
    ensures
        0 <= smoothstep_q16_spec(t) <= ONE,
        t <= 0 ==> smoothstep_q16_spec(t) == 0,
        t >= ONE ==> smoothstep_q16_spec(t) == ONE,
{
    let c = clamp_q16_spec(t, 0, ONE);
    assert(0 <= c * c <= 65536 * 65536) by (nonlinear_arith)
        requires
            0 <= c <= 65536,
    ;
    let s = (c * c) / 65536;
    assert(0 <= s <= 65536);
    assert(mul_q16_spec(c, c) == s);
    let k = 3 * 65536 - 2 * c;
    assert(s * k <= 65536 * 65536 && 0 <= s * k) by (nonlinear_arith)
        requires
            0 <= c <= 65536,
            0 <= s,
            s * 65536 <= c * c,
            k == 3 * 65536 - 2 * c,
    {
        // with u = c / 65536: u^2 (3 - 2u) <= 1 on [0, 1]
        assert(c * c * (3 * 65536 - 2 * c) <= 65536 * 65536 * 65536) by (nonlinear_arith)
            requires
                0 <= c <= 65536,
        {
            let d = 65536 - c;
            assert(65536 * 65536 * 65536 - c * c * (3 * 65536 - 2 * c) == d * d * (65536 + 2 * c))
                by (nonlinear_arith)
                requires
                    d == 65536 - c,
            ;
            assert(d * d * (65536 + 2 * c) >= 0) by (nonlinear_arith)
                requires
                    d == 65536 - c,
                    0 <= c,
            ;
        }
        assert(s * 65536 * k <= c * c * k) by (nonlinear_arith)
            requires
                s * 65536 <= c * c,
                k >= 0,
        ;
        assert(s * k * 65536 == s * 65536 * k) by (nonlinear_arith);
        assert(0 <= s * k) by (nonlinear_arith)
            requires
                0 <= s,
                k >= 0,
        ;
    }
    assert(0 <= (s * k) / 65536 <= 65536);
    if c == 65536 {
        assert(s == 65536);
    }
    if c == 0 {
        assert(c * c == 0) by (nonlinear_arith)
            requires
                c == 0,
        ;
        assert(s * k == 0) by (nonlinear_arith)
            requires
                s == 0,
        ;
    }
}

/// Products: one changes nothing, a half halves, nothing gives nothing; order does not
/// matter; and a share of a number lies between zero and the number and grows with it.
pub proof fn lemma_products(a: i32, b: i32, t: i32)
    requires
        0 <= t <= 65536,
        a <= b,
    ensures
        mul_q16_spec(a, 65536) == a,
        mul_q16_spec(65536, a) == a,
        mul_q16_spec(a, 0) == 0,
        2 * mul_q16_spec(a, 32768) <= a < 2 * mul_q16_spec(a, 32768) + 2,
        mul_q16_spec(a, t) == mul_q16_spec(t, a),
        mul_q16_spec(a, t) <= mul_q16_spec(b, t),
        a >= 0 ==> 0 <= mul_q16_spec(a, t) <= a,
        a <= 0 ==> a <= mul_q16_spec(a, t) <= 0,
{
    lemma_share_of(a as int, t as int);
    lemma_share_of(b as int, t as int);
    assert(a * t == t * a) by (nonlinear_arith);
    assert(a * t <= b * t) by (nonlinear_arith)
        requires
            a <= b,
            0 <= t,
    ;
    assert(a * 0 == 0);
}

proof fn lemma_share_of(a: int, t: int)
    by (nonlinear_arith)
    requires
        0 <= t <= 65536,
    ensures
        a >= 0 ==> 0 <= (a * t) / 65536 <= a,
        a <= 0 ==> a <= (a * t) / 65536 <= 0,
{
    assert(a >= 0 ==> 0 <= a * t <= a * 65536);
    assert(a <= 0 ==> a * 65536 <= a * t <= 0);
}

/// Blends: none of the way is the start and all of it the end; on the way they stay
/// between the two, and go on from the start to the end.
pub proof fn lemma_blends(a: i32, b: i32, s: i32, t: i32)
    requires
        -0x4000_0000 < a < 0x4000_0000,
        -0x4000_0000 < b < 0x4000_0000,
        0 <= s <= t <= 65536,
    ensures
        lerp_q16_spec(a, b, 0) == a,
        lerp_q16_spec(a, b, 65536) == b,
        a <= b ==> a <= lerp_q16_spec(a, b, s) <= lerp_q16_spec(a, b, t) <= b,
        a >= b ==> a >= lerp_q16_spec(a, b, s) >= lerp_q16_spec(a, b, t) >= b,
{
    let d = b - a;
    lemma_share_of(d, s as int);
    lemma_share_of(d, t as int);
    assert(d >= 0 ==> d * s <= d * t) by (nonlinear_arith)
        requires
            s <= t,
    ;
    assert(d <= 0 ==> d * s >= d * t) by (nonlinear_arith)
        requires
            s <= t,
    ;
    assert(d * 0 == 0);
}

/// A blend follows its start: raising the start never lowers what is between.
pub proof fn lemma_blends_follow(a: i32, b: i32, c: i32, t: i32)
    requires
        -0x4000_0000 < a <= b < 0x4000_0000,
        -0x4000_0000 < c < 0x4000_0000,
        0 <= t <= 65536,
    ensures
        lerp_q16_spec(a, c, t) <= lerp_q16_spec(b, c, t),
{
    lemma_share_of(c - a, t as int);
    lemma_share_of(c - b, t as int);
    assert((c - a) * t - (c - b) * t == (b - a) * t) by (nonlinear_arith);
    assert((b - a) * t <= (b - a) * 65536) by (nonlinear_arith)
        requires
            a <= b,
            0 <= t <= 65536,
    ;
}

/// Rounding gives the nearest whole number, the higher one of two that are as near.
pub proof fn lemma_rounds_to_nearest(v: i32)
    ensures
        -32768 <= v - 65536 * q16_round_spec(v) < 32768,
{
}

/// Clamping keeps what is in range and gives the nearer end otherwise.
pub proof fn lemma_clamps(v: i32, lo: i32, hi: i32)
    requires
        lo <= hi,
    ensures
        lo <= clamp_q16_spec(v, lo, hi) <= hi,
        lo <= v <= hi ==> clamp_q16_spec(v, lo, hi) == v,
        v < lo ==> clamp_q16_spec(v, lo, hi) == lo,
        v > hi ==> clamp_q16_spec(v, lo, hi) == hi,
{
}

/// A share of a whole: nothing at zero and below, one at the whole and above, and in
/// between the quotient rounded down.
pub proof fn lemma_shares(v: i32, n: i32)
    requires
        n > 0,
        -32768 * n <= v <= 32767 * n,
    ensures
        v <= 0 ==> norm01_spec(v, n) == 0,
        v >= n ==> norm01_spec(v, n) == 65536,
        0 <= v <= n ==> norm01_spec(v, n) * n <= v * 65536 < norm01_spec(v, n) * n + n,
{
    if v >= 0 {
        let q = (v * 65536) / n as int;
        vstd::arithmetic::div_mod::lemma_fundamental_div_mod(v * 65536, n as int);
        assert(n * q == q * n) by (nonlinear_arith);
        assert(0 <= q <= 32767 * 65536) by (nonlinear_arith)
            requires
                q * n <= v * 65536,
                v * 65536 < q * n + n,
                0 <= v <= 32767 * n,
                n > 0,
        ;
        if v >= n {
            assert(q >= 65536) by (nonlinear_arith)
                requires
                    v * 65536 < q * n + n,
                    v >= n,
                    n > 0,
            ;
        }
        if v <= n {
            assert(q <= 65536) by (nonlinear_arith)
                requires
                    q * n <= v * 65536,
                    v <= n,
                    n > 0,
            ;
        }
        if v == 0 {
            assert(q == 0) by (nonlinear_arith)
                requires
                    q * n <= 0,
                    0 < q * n + n,
                    n > 0,
            ;
        }
    } else {
        let q = (-(v * 65536)) / n as int;
        vstd::arithmetic::div_mod::lemma_fundamental_div_mod(-(v * 65536), n as int);
        assert(n * q == q * n) by (nonlinear_arith);
        assert(0 <= q <= 32768 * 65536) by (nonlinear_arith)
            requires
                q * n <= -(v * 65536),
                -(v * 65536) < q * n + n,
                -32768 * n <= v < 0,
                n > 0,
        ;
    }
}

/// The smooth step starts and ends slowly: it lags behind its argument in the first half,
/// and is ahead of it in the second, but for what rounding takes.
pub proof fn lemma_smoothstep_is_smooth(t: i32)
    ensures
        0 <= t <= 32768 ==> smoothstep_q16_spec(t) <= t,
        32768 <= t <= 65536 ==> smoothstep_q16_spec(t) >= t - 3,
{
    if 0 <= t <= 65536 {
        let c = t as int;
        let k = 3 * 65536 - 2 * c;
        let s = (c * c) / 65536;
        assert(0 <= c * c <= 65536 * 65536) by (nonlinear_arith)
            requires
                0 <= c <= 65536,
        ;
        assert(0 <= s <= 65536);
        assert(s * 65536 <= c * c < s * 65536 + 65536);
        assert(0 <= s * k <= 65536 * 3 * 65536) by (nonlinear_arith)
            requires
                0 <= s <= 65536,
                k == 3 * 65536 - 2 * c,
                0 <= c <= 65536,
        ;
        assert(s * 65536 * k <= c * c * k <= (s * 65536 + 65536) * k) by (nonlinear_arith)
            requires
                s * 65536 <= c * c < s * 65536 + 65536,
                k == 3 * 65536 - 2 * c,
                0 <= c <= 65536,
        ;
        let e = (2 * c - 65536) * (c - 65536);
        assert(c * 65536 * 65536 - c * c * k == c * e) by (nonlinear_arith)
            requires
                k == 3 * 65536 - 2 * c,
                e == (2 * c - 65536) * (c - 65536),
        ;
        lemma_smoothstep_range(t);
        assert(smoothstep_q16_spec(t) == (s * k) / 65536);
        if c <= 32768 {
            assert(c * e >= 0) by (nonlinear_arith)
                requires
                    0 <= c <= 32768,
                    e == (2 * c - 65536) * (c - 65536),
            {
                assert(e >= 0) by (nonlinear_arith)
                    requires
                        0 <= c <= 32768,
                        e == (2 * c - 65536) * (c - 65536),
                ;
            }
            assert(s * k <= c * 65536) by (nonlinear_arith)
                requires
                    s * 65536 * k <= c * c * k,
                    c * 65536 * 65536 - c * c * k >= 0,
            ;
        }
        if c >= 32768 {
            assert(c * e <= 0) by (nonlinear_arith)
                requires
                    32768 <= c <= 65536,
                    e == (2 * c - 65536) * (c - 65536),
            {
                assert(e <= 0) by (nonlinear_arith)
                    requires
                        32768 <= c <= 65536,
                        e == (2 * c - 65536) * (c - 65536),
                ;
            }
            assert(s * k + k >= c * 65536) by (nonlinear_arith)
                requires
                    c * c * k <= (s * 65536 + 65536) * k,
                    c * 65536 * 65536 - c * c * k <= 0,
            ;
        }
    }
}

} // verus!
