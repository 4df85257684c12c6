//! Fixed-point numbers and the rounding rules the renderer uses.
//!
//! A fixed-point number is an `i32` that counts millionths: `ONE` stands
//! for 1.0. Products and quotients of such numbers are formed exactly in
//! wider integers and then rounded once, to the nearest millionth with ties
//! away from zero. Results that do not fit an `i32` saturate at its bounds.
//!
//! Unit vectors are the exception on both counts: their coordinates count
//! billionths and are cut off toward zero, so that no unit vector is longer
//! than one (see the module `vector`).

use vstd::prelude::*;

verus! {

/// The fixed-point representation of 1.0.
pub const ONE: i32 = 1_000_000;

/// The value of `ONE`, written out so that a specification that multiplies
/// or divides by it stays linear for the solver.
#[verifier::inline]
pub open spec fn one() -> int {
    1_000_000
}

/// Largest magnitude that `div_round` accepts for its operands.
pub const WIDE_LIMIT: i128 = 0x1_0000_0000_0000_0000_0000_0000;

/// `one()` is the value of `ONE`.
pub proof fn lemma_one()
    ensures
        ONE == one(),
{
}

/// `v` limited to the interval from `lo` to `hi`.
pub open spec fn clamp(v: int, lo: int, hi: int) -> int {
    if v < lo {
        lo
    } else if v > hi {
        hi
    } else {
        v
    }
}

/// `v` saturated to the range of `i32`.
pub open spec fn saturate(v: int) -> int {
    clamp(v, i32::MIN as int, i32::MAX as int)
}

/// The quotient `n / d` of a non-negative `n` and a positive `d`, rounded
/// to the nearest integer, a tie going up.
#[verifier::inline]
pub open spec fn round_half_up(n: int, d: int) -> int {
    (2 * n + d) / (2 * d)
}

/// The quotient `n / d` rounded to the nearest integer, a tie going away
/// from zero. Meaningful for `d != 0`.
#[verifier::inline]
pub open spec fn round_ratio(n: int, d: int) -> int {
    if d > 0 {
        if n >= 0 {
            round_half_up(n, d)
        } else {
            -round_half_up(-n, d)
        }
    } else {
        if n <= 0 {
            round_half_up(-n, -d)
        } else {
            -round_half_up(n, -d)
        }
    }
}

/// The distance of `v` from zero.
pub open spec fn magnitude(v: int) -> int {
    if v < 0 {
        -v
    } else {
        v
    }
}

/// `q` is the quotient `n / d` rounded to the nearest integer, a tie going
/// away from zero: said without a division, for `d != 0`. The exact
/// quotient lies less than half a step above the magnitude of `q` and at
/// most half a step below it, and `q` has the sign of the quotient.
pub open spec fn is_nearest(q: int, n: int, d: int) -> bool {
    &&& 2 * (magnitude(d) * magnitude(q)) <= 2 * magnitude(n) + magnitude(d)
    &&& 2 * magnitude(n) + magnitude(d) < 2 * (magnitude(d) * magnitude(q)) + 2 * magnitude(d)
    &&& q > 0 ==> (n > 0) == (d > 0)
    &&& q < 0 ==> (n > 0) != (d > 0)
}

/// `round_ratio` rounds to the nearest integer, and only it does: whatever
/// is nearest to the quotient is `round_ratio`.
pub proof fn lemma_round_ratio_is_nearest(n: int, d: int)
    requires
        d != 0,
    ensures
        is_nearest(round_ratio(n, d), n, d),
        forall|q: int| is_nearest(q, n, d) ==> q == round_ratio(n, d),
{
    let an = magnitude(n);
    let ad = magnitude(d);
    let h = (2 * an + ad) / (2 * ad);
    assert(0 <= h && 2 * (ad * h) <= 2 * an + ad < 2 * (ad * h) + 2 * ad && (an == 0 ==> h == 0))
        by (nonlinear_arith)
        requires
            h == (2 * an + ad) / (2 * ad),
            an >= 0,
            ad > 0,
    ;
    assert(magnitude(round_ratio(n, d)) == h);
    assert forall|q: int| is_nearest(q, n, d) implies q == round_ratio(n, d) by {
        let aq = magnitude(q);
        assert(aq == h) by (nonlinear_arith)
            requires
                aq >= 0,
                h >= 0,
                ad > 0,
                2 * (ad * h) <= 2 * an + ad < 2 * (ad * h) + 2 * ad,
                2 * (ad * aq) <= 2 * an + ad < 2 * (ad * aq) + 2 * ad,
        ;
    }
}

/// The fixed-point product of two fixed-point numbers.
pub open spec fn fixed_mul_spec(a: int, b: int) -> int {
    saturate(round_ratio(a * b, one()))
}

/// `r` is the integer part of the square root of `n`.
pub open spec fn is_floor_sqrt(r: int, n: int) -> bool {
    0 <= r && r * r <= n < (r + 1) * (r + 1)
}

/// The integer part of the square root of `n`, for `n >= 0`.
pub open spec fn floor_sqrt(n: int) -> int {
    choose|r: int| is_floor_sqrt(r, n)
}

/// Every natural number has an integer square root.
pub proof fn lemma_floor_sqrt_exists(n: int) -> (r: int)
    requires
        n >= 0,
    ensures
        is_floor_sqrt(r, n),
    decreases n,
{
    if n == 0 {
        assert(is_floor_sqrt(0, 0));
        0
    } else {
        let p = lemma_floor_sqrt_exists(n - 1);
        let q = p + 1;
        if q * q <= n {
            assert(q * q < (q + 1) * (q + 1)) by (nonlinear_arith)
                requires
                    q >= 0,
            ;
            assert(is_floor_sqrt(q, n));
            q
        } else {
            assert(is_floor_sqrt(p, n));
            p
        }
    }
}

/// The integer square root is unique.
pub proof fn lemma_floor_sqrt_unique(a: int, b: int, n: int)
    requires
        is_floor_sqrt(a, n),
        is_floor_sqrt(b, n),
    ensures
        a == b,
{
    if a < b {
        assert((a + 1) * (a + 1) <= b * b) by (nonlinear_arith)
            requires
                0 <= a,
                a + 1 <= b,
        ;
    } else if b < a {
        assert((b + 1) * (b + 1) <= a * a) by (nonlinear_arith)
            requires
                0 <= b,
                b + 1 <= a,
        ;
    }
}

/// `floor_sqrt(n)` is the integer square root of `n`, and any `r` that is
/// one equals it.
pub proof fn lemma_floor_sqrt(n: int)
    requires
        n >= 0,
    ensures
        is_floor_sqrt(floor_sqrt(n), n),
        forall|r: int| is_floor_sqrt(r, n) ==> r == floor_sqrt(n),
{
    let witness = lemma_floor_sqrt_exists(n);
    lemma_floor_sqrt_unique(witness, floor_sqrt(n), n);
    assert forall|r: int| is_floor_sqrt(r, n) implies r == floor_sqrt(n) by {
        lemma_floor_sqrt_unique(r, floor_sqrt(n), n);
    }
}

/// Saturates a wide integer to `i32`.
pub fn saturate_i32(v: i128) -> (r: i32)
    ensures
        r == saturate(v as int),
{
    if v < -2147483648 {
        -2147483648
    } else if v > 2147483647 {
        2147483647
    } else {
        v as i32
    }
}

/// Divides with rounding to nearest, ties away from zero.
pub fn div_round(n: i128, d: i128) -> (q: i128)
    requires
        d != 0,
        -WIDE_LIMIT <= n <= WIDE_LIMIT,
        -WIDE_LIMIT <= d <= WIDE_LIMIT,
    ensures
        q == round_ratio(n as int, d as int),
{
    let neg: bool = (n < 0) != (d < 0);
    let an: i128 = if n < 0 { -n } else { n };
    let ad: i128 = if d < 0 { -d } else { d };
    let h: i128 = (2 * an + ad) / (2 * ad);
    if neg && an != 0 {
        -h
    } else {
        h
    }
}

/// Multiplies two fixed-point numbers.
pub fn fixed_mul(a: i32, b: i32) -> (r: i32)
    ensures
        r == fixed_mul_spec(a as int, b as int),
{
    assert(-0x4000_0000_0000_0000 <= a * b <= 0x4000_0000_0000_0000) by (nonlinear_arith)
        requires
            -0x8000_0000 <= a <= 0x7fff_ffff,
            -0x8000_0000 <= b <= 0x7fff_ffff,
    ;
    let p: i128 = (a as i128) * (b as i128);
    saturate_i32(div_round(p, ONE as i128))
}

/// The integer part of the square root of `n`.
pub fn isqrt(n: u64) -> (r: u64)
    ensures
        r == floor_sqrt(n as int),
        r < 0x1_0000_0000,
{
    let mut lo: u64 = 0;
    let mut hi: u64 = 0x1_0000_0000;
    assert(0x1_0000_0000 * 0x1_0000_0000 > n) by (nonlinear_arith)
        requires
            n <= 0xffff_ffff_ffff_ffff,
    ;
    while hi - lo > 1
        invariant
            lo < hi <= 0x1_0000_0000,
            lo * lo <= n < hi * hi,
        decreases hi - lo,
    {
        let mid: u64 = lo + (hi - lo) / 2;
        assert(mid * mid < 0x1_0000_0000_0000_0000) by (nonlinear_arith)
            requires
                0 <= mid < 0x1_0000_0000,
        ;
        if mid * mid <= n {
            lo = mid;
        } else {
            hi = mid;
        }
    }
    proof {
        assert(is_floor_sqrt(lo as int, n as int));
        lemma_floor_sqrt(n as int);
    }
    lo
}

} // verus!
