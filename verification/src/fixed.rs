//! Fixed-point ground layer: scales, saturating ratios, integer square root.

use vstd::prelude::*;

verus! {

/// One full unit (1.0) in pico-units, the scale of raw feature values.
pub const PICO: u64 = 1_000_000_000_000;

/// One full unit (1.0) in micro-units, the scale of normalized values.
pub const MICRO: u64 = 1_000_000;

/// Mathematical value of `value / bound` rescaled to micro-units and clamped
/// to `[0, MICRO]`; the core normalization rule.
pub open spec fn ratio_unit(value: int, bound: int) -> int {
    let q = value * 1_000_000 / bound;
    if q > 1_000_000 {
        1_000_000int
    } else {
        q
    }
}

/// `min(value * MICRO / bound, MICRO)`: a non-negative ratio clamped into
/// `[0, MICRO]` micro-units.
pub fn clamp_ratio_unit(value: u64, bound: u64) -> (r: u32)
    requires
        bound >= 1,
    ensures
        r == ratio_unit(value as int, bound as int),
        r <= MICRO,
{
    let wide: u128 = (value as u128) * 1_000_000u128 / (bound as u128);
    if wide > 1_000_000u128 {
        1_000_000u32
    } else {
        wide as u32
    }
}

/// Mathematical floor of the square root of `n` (0 below zero).
pub open spec fn sqrt_floor(n: int) -> int
    decreases n,
{
    if n <= 0 {
        0
    } else {
        let r = sqrt_floor(n - 1);
        if (r + 1) * (r + 1) <= n {
            r + 1
        } else {
            r
        }
    }
}

/// `sqrt_floor(n)` is non-negative, squares to at most `n`, and the next
/// integer squares past it.
pub proof fn lemma_sqrt_floor_bounds(n: int)
    requires
        0 <= n,
    ensures
        0 <= sqrt_floor(n),
        sqrt_floor(n) * sqrt_floor(n) <= n,
        n < (sqrt_floor(n) + 1) * (sqrt_floor(n) + 1),
    decreases n,
{
    if n > 0 {
        lemma_sqrt_floor_bounds(n - 1);
        let r = sqrt_floor(n - 1);
        if (r + 1) * (r + 1) <= n {
            assert(sqrt_floor(n) == r + 1);
            assert(n < (r + 2) * (r + 2)) by (nonlinear_arith)
                requires
                    n <= (r + 1) * (r + 1),
                    r >= 0,
            ;
        } else {
            assert(sqrt_floor(n) == r);
        }
    }
}

/// Any `r` bracketing `n` between consecutive squares is the floor square
/// root.
pub proof fn lemma_sqrt_floor_unique(n: int, r: int)
    requires
        0 <= r,
        r * r <= n,
        n < (r + 1) * (r + 1),
    ensures
        r == sqrt_floor(n),
{
    lemma_sqrt_floor_bounds(n);
    let s = sqrt_floor(n);
    if r < s {
        assert((r + 1) * (r + 1) <= s * s) by (nonlinear_arith)
            requires
                0 <= r + 1 <= s,
        ;
    }
    if s < r {
        assert((s + 1) * (s + 1) <= r * r) by (nonlinear_arith)
            requires
                0 <= s + 1 <= r,
        ;
    }
}

/// Integer square root: the floor of the square root of `n`.
pub fn isqrt(n: u128) -> (r: u64)
    ensures
        r == sqrt_floor(n as int),
        r * r <= n,
{
    let mut lo: u64 = 0;
    let mut hi: u128 = 0x1_0000_0000_0000_0000;
    assert((hi as int) * (hi as int) > n) by (nonlinear_arith)
        requires
            hi == 0x1_0000_0000_0000_0000,
            n < 0x1_0000_0000_0000_0000 * 0x1_0000_0000_0000_0000,
    ;
    while (lo as u128) + 1 < hi
        invariant
            lo < hi <= 0x1_0000_0000_0000_0000,
            lo * lo <= n,
            n < hi * hi,
        decreases hi - lo,
    {
        let mid: u128 = (lo as u128) + (hi - (lo as u128)) / 2;
        assert(mid * mid < 0x1_0000_0000_0000_0000 * 0x1_0000_0000_0000_0000) by (nonlinear_arith)
            requires
                mid < 0x1_0000_0000_0000_0000,
        ;
        if mid * mid <= n {
            lo = mid as u64;
        } else {
            hi = mid;
        }
    }
    proof {
        lemma_sqrt_floor_unique(n as int, lo as int);
    }
    lo
}

} // verus!
