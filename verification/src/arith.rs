//! Exact integer counterparts of the rounding, division and square-root
//! steps that the rasterisers and the ray caster rely on.

use vstd::prelude::*;

verus! {

/// `p / n` rounded to the nearest integer, a tie going up (`p >= 0`, `n > 0`).
pub open spec fn div_nearest(p: int, n: int) -> int {
    (2 * p + n) / (2 * n)
}

/// `n / d` rounded to the nearest integer, a tie going away from zero
/// (`d > 0`).
pub open spec fn div_round(n: int, d: int) -> int {
    if n >= 0 {
        div_nearest(n, d)
    } else {
        -div_nearest(-n, d)
    }
}

/// `s` is the least natural number whose square is at least `n`.
pub open spec fn is_ceil_sqrt(n: int, s: int) -> bool {
    &&& s >= 0
    &&& s * s >= n
    &&& s == 0 || (s - 1) * (s - 1) < n
}

/// The square root of `n`, rounded up to a whole number (0 for `n <= 0`).
pub open spec fn ceil_sqrt(n: int) -> int {
    choose|s: int| is_ceil_sqrt(n, s)
}

/// `q` is `p / n` rounded to nearest, a tie going up, stated without division.
pub open spec fn nearest(p: int, n: int, q: int) -> bool {
    2 * n * q <= 2 * p + n < 2 * n * (q + 1)
}

/// A number that is the nearest quotient is the one that the division
/// gives.
pub proof fn lemma_nearest_is_div(p: int, n: int, q: int)
    requires
        n > 0,
        nearest(p, n, q),
    ensures
        div_nearest(p, n) == q,
{
    assert((2 * p + n) / (2 * n) == q) by (nonlinear_arith)
        requires
            n > 0,
            (2 * n) * q <= 2 * p + n < (2 * n) * (q + 1),
    ;
}

/// The division gives the nearest quotient.
pub proof fn lemma_div_is_nearest(p: int, n: int)
    requires
        n > 0,
    ensures
        nearest(p, n, div_nearest(p, n)),
{
    let q = (2 * p + n) / (2 * n);
    assert((2 * n) * q <= 2 * p + n < (2 * n) * (q + 1)) by (nonlinear_arith)
        requires
            n > 0,
            q == (2 * p + n) / (2 * n),
    ;
}

/// A rounded quotient lies within half a unit of the exact one.
pub proof fn lemma_div_round_error(n: int, d: int)
    requires
        d > 0,
    ensures
        -d <= 2 * d * div_round(n, d) - 2 * n <= d,
{
    if n >= 0 {
        lemma_div_is_nearest(n, d);
        let q = div_nearest(n, d);
        assert(2 * d * (q + 1) == 2 * d * q + 2 * d) by (nonlinear_arith);
    } else {
        lemma_div_is_nearest(-n, d);
        let q = div_nearest(-n, d);
        assert(2 * d * (-q) == -(2 * d * q)) by (nonlinear_arith);
        assert(2 * d * (q + 1) == 2 * d * q + 2 * d) by (nonlinear_arith);
    }
}

/// A rounded quotient of a number between two multiples of the divisor lies
/// between the two factors.
pub proof fn lemma_div_round_between(n: int, d: int, lo: int, hi: int)
    requires
        d > 0,
        lo * d <= n <= hi * d,
    ensures
        lo <= div_round(n, d) <= hi,
{
    lemma_div_round_error(n, d);
    let q = div_round(n, d);
    assert(lo <= q <= hi) by (nonlinear_arith)
        requires
            d > 0,
            lo * d <= n <= hi * d,
            -d <= 2 * d * q - 2 * n <= d,
    ;
}

/// The rounded-up square root is the only number with its defining property.
pub proof fn lemma_ceil_sqrt_unique(n: int, s: int)
    requires
        is_ceil_sqrt(n, s),
    ensures
        ceil_sqrt(n) == s,
{
    let t = ceil_sqrt(n);
    assert(is_ceil_sqrt(n, t));
    assert(t == s) by (nonlinear_arith)
        requires
            s >= 0,
            s * s >= n,
            s == 0 || (s - 1) * (s - 1) < n,
            t >= 0,
            t * t >= n,
            t == 0 || (t - 1) * (t - 1) < n,
    ;
}

/// Computes `n / d` rounded to nearest, ties away from zero.
pub fn rounded_quotient(n: i128, d: u64) -> (q: i128)
    requires
        d > 0,
        -0x1_0000_0000_0000_0000_0000_0000 <= n <= 0x1_0000_0000_0000_0000_0000_0000,
    ensures
        q == div_round(n as int, d as int),
{
    let dd: u128 = d as u128;
    if n >= 0 {
        let m: u128 = n as u128;
        ((2 * m + dd) / (2 * dd)) as i128
    } else {
        let m: u128 = (-n) as u128;
        -(((2 * m + dd) / (2 * dd)) as i128)
    }
}

/// Computes the square root of `n`, rounded up.
pub fn rounded_up_root(n: u128) -> (s: u64)
    requires
        n <= 0x4_0000_0000_0000_0000,
    ensures
        s == ceil_sqrt(n as int),
        s <= 0x2_0000_0000,
{
    let mut lo: u64 = 0;
    let mut hi: u64 = 0x2_0000_0000;
    while lo < hi
        invariant
            lo <= hi <= 0x2_0000_0000,
            hi * hi >= n,
            lo == 0 || (lo - 1) * (lo - 1) < n,
        decreases hi - lo,
    {
        let mid: u64 = lo + (hi - lo) / 2;
        assert(mid * mid <= 0x2_0000_0000 * 0x2_0000_0000) by (nonlinear_arith)
            requires
                0 <= mid <= 0x2_0000_0000,
        ;
        if mid as u128 * mid as u128 >= n {
            hi = mid;
        } else {
            lo = mid + 1;
        }
    }
    proof {
        lemma_ceil_sqrt_unique(n as int, lo as int);
    }
    lo
}

} // verus!
