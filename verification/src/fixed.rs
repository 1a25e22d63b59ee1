//! Fixed-point amplitude arithmetic.
//!
//! Samples and gains are stored as signed integers in millionths of full
//! scale: an amplitude of `1.0` is `UNIT`, `-1.0` is `-UNIT`.  All helpers
//! carry exact contracts over that representation.

use vstd::prelude::*;

verus! {

/// Full scale: one unit of linear amplitude or gain, in millionths.
pub const UNIT: i64 = 1_000_000;

/// Truncating division of `n` by positive `d` (rounds toward zero),
/// matching what integer division hardware does for signed operands.
pub open spec fn tdiv(n: int, d: int) -> int {
    if n >= 0 {
        n / d
    } else {
        -((-n) / d)
    }
}

/// Scale a product of two fixed-point values back down by `UNIT`,
/// rounding toward zero.
pub open spec fn spec_scale_unit(n: int) -> int {
    tdiv(n, UNIT as int)
}

/// Clamp an amplitude into `[-UNIT, UNIT]`.
pub open spec fn spec_clamp_unit(s: int) -> int {
    if s < -(UNIT as int) {
        -(UNIT as int)
    } else if s > UNIT as int {
        UNIT as int
    } else {
        s
    }
}

pub fn clamp_unit(s: i64) -> (r: i64)
    ensures
        r == spec_clamp_unit(s as int),
        -UNIT <= r <= UNIT,
{
    if s < -UNIT {
        -UNIT
    } else if s > UNIT {
        UNIT
    } else {
        s
    }
}

/// Divide by `UNIT`, rounding toward zero.
pub fn scale_unit(n: i64) -> (r: i64)
    requires
        i64::MIN < n,
    ensures
        r == spec_scale_unit(n as int),
{
    if n >= 0 {
        n / UNIT
    } else {
        -((-n) / UNIT)
    }
}

/// Truncating division of `n` by a positive divisor `d`.
pub fn tdiv_i64(n: i64, d: i64) -> (r: i64)
    requires
        i64::MIN < n,
        0 < d,
    ensures
        r == tdiv(n as int, d as int),
{
    if n >= 0 {
        n / d
    } else {
        -((-n) / d)
    }
}

/// Apply a non-negative gain (in millionths) to an amplitude:
/// `s * g / UNIT`, rounded toward zero.
pub fn apply_gain(s: i64, g: i64) -> (r: i64)
    requires
        -100_000_000 <= s <= 100_000_000,
        0 <= g <= 2_000_000,
    ensures
        r == spec_scale_unit(s * g),
        -200_000_000 <= r <= 200_000_000,
{
    proof {
        lemma_mul_bounds_abs(s as int, g as int, 100_000_000, 2_000_000);
        lemma_tdiv_abs_le(s as int * g as int, UNIT as int, 200_000_000_000_000);
    }
    scale_unit(s * g)
}

/// The magnitude of a product is bounded by the product of the bounds.
pub proof fn lemma_mul_bounds_abs(a: int, b: int, ba: int, bb: int)
    requires
        -ba <= a <= ba,
        -bb <= b <= bb,
        0 <= ba,
        0 <= bb,
    ensures
        -(ba * bb) <= a * b <= ba * bb,
{
    assert(-(ba * bb) <= a * b <= ba * bb) by (nonlinear_arith)
        requires
            -ba <= a <= ba,
            -bb <= b <= bb,
            0 <= ba,
            0 <= bb,
    ;
}

/// Truncating division by a positive divisor keeps the magnitude bound:
/// if `|n| <= b * d` then `|tdiv(n, d)| <= b`.
pub proof fn lemma_tdiv_abs_le(n: int, d: int, bound: int)
    requires
        0 < d,
        0 <= bound,
        -(bound * d) <= n <= bound * d,
    ensures
        -bound <= tdiv(n, d) <= bound,
{
    if n >= 0 {
        vstd::arithmetic::div_mod::lemma_div_is_ordered(n, bound * d, d);
        vstd::arithmetic::div_mod::lemma_div_multiples_vanish(bound, d);
        vstd::arithmetic::div_mod::lemma_div_pos_is_pos(n, d);
        assert(d * bound == bound * d) by (nonlinear_arith);
        assert(tdiv(n, d) == n / d);
    } else {
        vstd::arithmetic::div_mod::lemma_div_is_ordered(-n, bound * d, d);
        vstd::arithmetic::div_mod::lemma_div_multiples_vanish(bound, d);
        vstd::arithmetic::div_mod::lemma_div_pos_is_pos(-n, d);
        assert(d * bound == bound * d) by (nonlinear_arith);
        assert(tdiv(n, d) == -((-n) / d));
    }
}

/// Truncating division never increases magnitude for a divisor `>= 1`.
pub proof fn lemma_tdiv_within(n: int, d: int)
    requires
        0 < d,
    ensures
        n >= 0 ==> 0 <= tdiv(n, d) <= n,
        n < 0 ==> n <= tdiv(n, d) <= 0,
{
    if n >= 0 {
        vstd::arithmetic::div_mod::lemma_div_pos_is_pos(n, d);
        vstd::arithmetic::div_mod::lemma_div_nonincreasing(n, d);
    } else {
        vstd::arithmetic::div_mod::lemma_div_pos_is_pos(-n, d);
        vstd::arithmetic::div_mod::lemma_div_nonincreasing(-n, d);
    }
}

/// The integer square root: the greatest `r` with `r * r <= x`.
pub open spec fn spec_isqrt(x: int) -> int
    decreases x,
{
    if x <= 0 {
        0
    } else {
        let r = spec_isqrt(x - 1);
        if (r + 1) * (r + 1) <= x {
            r + 1
        } else {
            r
        }
    }
}

/// `spec_isqrt` squares to at most its argument and one more overshoots.
pub proof fn lemma_spec_isqrt(x: int)
    requires
        x >= 0,
    ensures
        spec_isqrt(x) >= 0,
        spec_isqrt(x) * spec_isqrt(x) <= x,
        x < (spec_isqrt(x) + 1) * (spec_isqrt(x) + 1),
    decreases x,
{
    if x == 0 {
        assert(spec_isqrt(0) == 0);
    } else {
        lemma_spec_isqrt(x - 1);
        let r = spec_isqrt(x - 1);
        if (r + 1) * (r + 1) <= x {
            assert(x < (r + 2) * (r + 2)) by (nonlinear_arith)
                requires
                    x - 1 < (r + 1) * (r + 1),
                    r >= 0,
            ;
        }
    }
}

/// Only one non-negative root is bracketed by consecutive squares.
pub proof fn lemma_isqrt_unique(x: int, r: int)
    requires
        x >= 0,
        r >= 0,
        r * r <= x,
        x < (r + 1) * (r + 1),
    ensures
        r == spec_isqrt(x),
{
    lemma_spec_isqrt(x);
    let s = spec_isqrt(x);
    if r < s {
        assert((r + 1) * (r + 1) <= s * s) by (nonlinear_arith)
            requires
                0 <= r + 1 <= s,
        ;
    } else if s < r {
        assert((s + 1) * (s + 1) <= r * r) by (nonlinear_arith)
            requires
                0 <= s + 1 <= r,
        ;
    }
}

/// Integer square root: the greatest `r` with `r * r <= x`.
pub fn isqrt(x: u64) -> (r: u64)
    requires
        x < 0x4000_0000_0000_0000,
    ensures
        r * r <= x,
        x < (r + 1) * (r + 1),
        r == spec_isqrt(x as int),
{
    let mut lo: u64 = 0;
    let mut hi: u64 = 0x8000_0000;
    assert(hi * hi == 0x4000_0000_0000_0000) by (nonlinear_arith)
        requires
            hi == 0x8000_0000u64,
    ;
    while lo + 1 < hi
        invariant
            lo < hi <= 0x8000_0000,
            lo * lo <= x,
            x < hi * hi,
        decreases hi - lo,
    {
        let mid = lo + (hi - lo) / 2;
        assert(mid * mid <= 0x4000_0000_0000_0000) by (nonlinear_arith)
            requires
                mid <= 0x8000_0000u64,
        ;
        if mid * mid <= x {
            lo = mid;
        } else {
            hi = mid;
        }
    }
    proof {
        lemma_isqrt_unique(x as int, lo as int);
    }
    lo
}

} // verus!
