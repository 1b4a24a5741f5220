//! Fixed-point arithmetic helpers shared by the geometry and rendering code.
//!
//! World positions are plain `i64` values; fractional quantities (direction
//! components, fog factors, column fractions, wall-height multipliers) are
//! fixed-point numbers scaled by [`ONE`].

use vstd::prelude::*;

verus! {

use vstd::arithmetic::div_mod::{lemma_div_is_ordered, lemma_fundamental_div_mod};
use vstd::arithmetic::mul::{lemma_mul_inequality, lemma_mul_nonnegative};

/// The fixed-point unit: fractional values are scaled by this constant.
pub const ONE: i64 = 65536;

/// Truncating division (rounds toward zero), matching Rust's `/` on signed
/// integers, stated over nonnegative Euclidean division.
pub open spec fn tdiv(a: int, b: int) -> int
    recommends
        b > 0,
{
    if a >= 0 {
        a / b
    } else {
        -((-a) / b)
    }
}

/// Truncating remainder (sign of the dividend), matching Rust's `%`.
pub open spec fn tmod(a: int, b: int) -> int
    recommends
        b > 0,
{
    if a >= 0 {
        a % b
    } else {
        -((-a) % b)
    }
}

/// Remainder normalised into `[0, b)`, used for texture tiling.
pub open spec fn emod(a: int, b: int) -> int
    recommends
        b > 0,
{
    if tmod(a, b) < 0 {
        tmod(a, b) + b
    } else {
        tmod(a, b)
    }
}

/// Clamp `a` into `[lo, hi]`.
pub open spec fn clamp(a: int, lo: int, hi: int) -> int
    recommends
        lo <= hi,
{
    if a < lo {
        lo
    } else if a > hi {
        hi
    } else {
        a
    }
}

/// Absolute value.
pub open spec fn abs_i(a: int) -> int {
    if a < 0 {
        -a
    } else {
        a
    }
}

/// Minimum of two integers.
pub open spec fn min_i(a: int, b: int) -> int {
    if a < b {
        a
    } else {
        b
    }
}

/// Maximum of two integers.
pub open spec fn max_i(a: int, b: int) -> int {
    if a > b {
        a
    } else {
        b
    }
}

/// Truncating division of an `i64` by a positive `i64`.
pub fn div_t(a: i64, b: i64) -> (r: i64)
    requires
        b > 0,
        a > i64::MIN,
    ensures
        r == tdiv(a as int, b as int),
        a >= 0 ==> 0 <= r <= a,
        a < 0 ==> a <= r <= 0,
{
    proof {
        if a >= 0 {
            lemma_div_is_ordered(0, a as int, b as int);
            vstd::arithmetic::div_mod::lemma_div_nonincreasing(a as int, b as int);
        } else {
            lemma_div_is_ordered(0, -(a as int), b as int);
            vstd::arithmetic::div_mod::lemma_div_nonincreasing(-(a as int), b as int);
        }
    }
    a / b
}

/// Truncating remainder of an `i64` by a positive `i64`.
pub fn rem_t(a: i64, b: i64) -> (r: i64)
    requires
        b > 0,
        a > i64::MIN,
    ensures
        r == tmod(a as int, b as int),
        -b < r < b,
        a >= 0 ==> r >= 0,
        a < 0 ==> r <= 0,
{
    a % b
}

/// Remainder normalised into `[0, b)`.
pub fn rem_e(a: i64, b: i64) -> (r: i64)
    requires
        b > 0,
        a > i64::MIN,
    ensures
        r == emod(a as int, b as int),
        0 <= r < b,
{
    let m = rem_t(a, b);
    if m < 0 {
        m + b
    } else {
        m
    }
}

/// Clamp an `i64` into `[lo, hi]`.
pub fn clamp_i64(a: i64, lo: i64, hi: i64) -> (r: i64)
    requires
        lo <= hi,
    ensures
        r == clamp(a as int, lo as int, hi as int),
        lo <= r <= hi,
{
    if a < lo {
        lo
    } else if a > hi {
        hi
    } else {
        a
    }
}

/// A quotient `a / b` with `0 <= a <= b * c` lies in `[0, c]`.
pub proof fn lemma_div_le(a: int, b: int, c: int)
    requires
        b >= 1,
        0 <= c,
        0 <= a <= b * c,
    ensures
        0 <= a / b <= c,
{
    lemma_div_is_ordered(a, b * c, b);
    vstd::arithmetic::div_mod::lemma_div_pos_is_pos(a, b);
    assert((b * c) / b == c) by {
        vstd::arithmetic::div_mod::lemma_div_multiples_vanish(c, b);
    }
}

/// A quotient `a / b` with `0 <= a < b * c` lies in `[0, c)`.
pub proof fn lemma_div_lt(a: int, b: int, c: int)
    requires
        b >= 1,
        0 <= a < b * c,
    ensures
        0 <= a / b < c,
{
    vstd::arithmetic::div_mod::lemma_div_pos_is_pos(a, b);
    lemma_fundamental_div_mod(a, b);
    if a / b >= c {
        assert(b * (a / b) >= b * c) by (nonlinear_arith)
            requires
                b >= 1,
                a / b >= c,
        ;
        assert(0 <= a % b) by {
            vstd::arithmetic::div_mod::lemma_mod_division_less_than_divisor(a, b);
        }
    }
}

/// A truncating quotient is bounded: `|x| <= d * m` gives
/// `|x / d| <= m`.
pub proof fn lemma_tdiv_bound(x: int, d: int, m: int)
    requires
        d >= 1,
        0 <= m,
        -(d * m) <= x <= d * m,
    ensures
        -m <= tdiv(x, d) <= m,
{
    if x >= 0 {
        lemma_div_le(x, d, m);
    } else {
        lemma_div_le(-x, d, m);
    }
}

/// Dividing a product by one of its factors gives back the other.
pub proof fn lemma_mul_div_exact(a: int, b: int)
    requires
        b >= 1,
    ensures
        (a * b) / b == a,
{
    vstd::arithmetic::div_mod::lemma_div_multiples_vanish(a, b);
    assert(a * b == b * a) by (nonlinear_arith);
}

/// The (unique) integer square root: `r` with `r * r <= n < (r + 1) * (r + 1)`.
pub open spec fn is_isqrt(n: int, r: int) -> bool {
    0 <= r && r * r <= n && n < (r + 1) * (r + 1)
}

/// The integer square root of `n`, as a spec-level value.
pub open spec fn isqrt(n: int) -> int
    recommends
        n >= 0,
{
    choose|r: int| is_isqrt(n, r)
}

/// Square roots are unique.
pub proof fn lemma_isqrt_unique(n: int, r1: int, r2: int)
    requires
        is_isqrt(n, r1),
        is_isqrt(n, r2),
    ensures
        r1 == r2,
{
    if r1 < r2 {
        lemma_mul_inequality(r1 + 1, r2, r1 + 1);
        lemma_mul_inequality(r1 + 1, r2, r2);
        assert((r1 + 1) * (r1 + 1) <= r2 * r2) by (nonlinear_arith)
            requires
                0 <= r1,
                r1 + 1 <= r2,
        ;
    }
    if r2 < r1 {
        assert((r2 + 1) * (r2 + 1) <= r1 * r1) by (nonlinear_arith)
            requires
                0 <= r2,
                r2 + 1 <= r1,
        ;
    }
}

/// Whatever satisfies `is_isqrt(n, _)` equals `isqrt(n)`.
pub proof fn lemma_isqrt_is(n: int, r: int)
    requires
        is_isqrt(n, r),
    ensures
        isqrt(n) == r,
{
    assert(is_isqrt(n, isqrt(n))) by {
        assert(exists|x: int| is_isqrt(n, x)) by {
            assert(is_isqrt(n, r));
        }
    }
    lemma_isqrt_unique(n, r, isqrt(n));
}

/// Computes the integer square root of a nonnegative `i64` by binary search.
pub fn isqrt_i64(n: i64) -> (r: i64)
    requires
        n >= 0,
    ensures
        is_isqrt(n as int, r as int),
        r == isqrt(n as int),
        0 <= r <= n,
{
    let mut lo: i64 = 0;
    let mut hi: i64 = if n < 3037000499 {
        n + 1
    } else {
        3037000500
    };
    proof {
        lemma_mul_nonnegative(n as int, n as int);
        assert((n as int) < hi * hi) by (nonlinear_arith)
            requires
                hi == if (n as int) < 3037000499 { n + 1int } else { 3037000500int },
                n >= 0,
        ;
    }
    while hi - lo > 1
        invariant
            0 <= lo < hi,
            lo * lo <= n,
            n < hi * hi,
            hi <= 3037000500,
        decreases hi - lo,
    {
        let mid: i64 = lo + (hi - lo) / 2;
        assert(lo < mid < hi);
        if mid <= 3037000499 {
            proof {
                assert(mid * mid <= 3037000499 * 3037000499) by (nonlinear_arith)
                    requires
                        0 <= mid <= 3037000499,
                ;
            }
            if mid * mid <= n {
                lo = mid;
            } else {
                hi = mid;
            }
        } else {
            proof {
                assert((n as int) < mid * mid) by (nonlinear_arith)
                    requires
                        mid > 3037000499,
                        n < 0x7fffffffffffffff,
                ;
            }
            hi = mid;
        }
    }
    proof {
        lemma_isqrt_is(n as int, lo as int);
        if lo > n {
            lemma_mul_inequality(n + 1, lo as int, lo as int);
            assert((n + 1) * lo >= (n + 1) * 1) by (nonlinear_arith)
                requires
                    lo >= 1,
                    n >= 0,
            ;
        }
    }
    lo
}

} // verus!
