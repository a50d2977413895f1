//! Scalar integer helpers the physics is built on: truncating (round toward
//! zero) division, and floor square / cube roots.

use vstd::arithmetic::div_mod::{
    lemma_div_is_ordered, lemma_div_nonincreasing, lemma_div_pos_is_pos,
    lemma_fundamental_div_mod, lemma_mod_bound,
};
use vstd::arithmetic::mul::lemma_mul_inequality;
use vstd::prelude::*;

verus! {

/// Magnitude of an integer.
pub open spec fn abs1(n: int) -> int {
    if n >= 0 {
        n
    } else {
        -n
    }
}

/// Division that rounds toward zero, as Rust's `/` on machine integers does.
/// Only meaningful for `d >= 1`.
pub open spec fn div_tz(n: int, d: int) -> int {
    if n >= 0 {
        n / d
    } else {
        -((-n) / d)
    }
}

/// Round-toward-zero division is antisymmetric in the numerator.
pub proof fn lemma_div_tz_neg(n: int, d: int)
    requires
        d >= 1,
    ensures
        div_tz(-n, d) == -div_tz(n, d),
{
}

/// The quotient never grows in magnitude, and scaling it back by the divisor
/// stays within the numerator.
pub proof fn lemma_div_tz_bounds(n: int, d: int)
    requires
        d >= 1,
    ensures
        abs1(div_tz(n, d)) <= abs1(n),
        d * abs1(div_tz(n, d)) <= abs1(n),
        n >= 0 ==> div_tz(n, d) >= 0,
        n <= 0 ==> div_tz(n, d) <= 0,
{
    if n >= 0 {
        lemma_div_nonincreasing(n, d);
        lemma_div_pos_is_pos(n, d);
        lemma_fundamental_div_mod(n, d);
        lemma_mod_bound(n, d);
    } else {
        lemma_div_nonincreasing(-n, d);
        lemma_div_pos_is_pos(-n, d);
        lemma_fundamental_div_mod(-n, d);
        lemma_mod_bound(-n, d);
    }
}

/// The remainder left by truncating division is smaller than the divisor:
/// `d * div_tz(n, d)` lands within `d` of `n`.
pub proof fn lemma_div_tz_remainder(n: int, d: int)
    requires
        d >= 1,
    ensures
        abs1(n - d * div_tz(n, d)) < d,
{
    if n >= 0 {
        lemma_fundamental_div_mod(n, d);
        lemma_mod_bound(n, d);
    } else {
        lemma_fundamental_div_mod(-n, d);
        lemma_mod_bound(-n, d);
        let q = (-n) / d;
        assert(d * (-q) == -(d * q)) by (nonlinear_arith);
        assert(n - d * div_tz(n, d) == -((-n) % d));
    }
}

/// Truncating division extended to signed nonzero divisors.
pub open spec fn div_tz_signed(n: int, d: int) -> int {
    if d > 0 {
        div_tz(n, d)
    } else {
        -div_tz(n, -d)
    }
}

/// Dividing `k * c` by a divisor at least as large as `|c|` keeps the
/// quotient within `k`.
pub proof fn lemma_div_tz_scaled_bound(k: int, c: int, den: int)
    requires
        k >= 0,
        den >= 1,
        abs1(c) <= den,
    ensures
        abs1(div_tz(k * c, den)) <= k,
{
    if c >= 0 {
        lemma_mul_inequality(c, den, k);
        assert(c * k == k * c && den * k == k * den) by (nonlinear_arith);
        lemma_div_is_ordered(k * c, k * den, den);
        vstd::arithmetic::div_mod::lemma_div_by_multiple(k, den);
        assert(k * c >= 0) by (nonlinear_arith)
            requires
                k >= 0,
                c >= 0,
        ;
        lemma_div_pos_is_pos(k * c, den);
    } else {
        lemma_mul_inequality(-c, den, k);
        assert((-c) * k == -(k * c) && den * k == k * den) by (nonlinear_arith);
        lemma_div_is_ordered(-(k * c), k * den, den);
        vstd::arithmetic::div_mod::lemma_div_by_multiple(k, den);
        assert(-(k * c) >= 0) by (nonlinear_arith)
            requires
                k >= 0,
                c < 0,
        ;
        lemma_div_pos_is_pos(-(k * c), den);
        assert(k * c <= 0) by (nonlinear_arith)
            requires
                k >= 0,
                c < 0,
        ;
    }
}

/// The floor of the square root of `n` (0 for negative `n`).
pub open spec fn sqrt_floor(n: int) -> int
    decreases n,
{
    if n <= 0 {
        0
    } else {
        let r = sqrt_floor(n - 1);
        if (r + 1) * (r + 1) <= n {
            r + 1
        } else {
            r
        }
    }
}

/// `sqrt_floor(n)` is the unique `r >= 0` with `r^2 <= n < (r+1)^2`.
pub proof fn lemma_sqrt_floor_bounds(n: int)
    requires
        n >= 0,
    ensures
        0 <= sqrt_floor(n),
        sqrt_floor(n) * sqrt_floor(n) <= n,
        n < (sqrt_floor(n) + 1) * (sqrt_floor(n) + 1),
    decreases n,
{
    if n > 0 {
        lemma_sqrt_floor_bounds(n - 1);
        let r = sqrt_floor(n - 1);
        assert((r + 1) * (r + 1) < (r + 2) * (r + 2)) by (nonlinear_arith)
            requires
                r >= 0,
        ;
    }
}

/// Any `r` satisfying the root bracketing equals `sqrt_floor(n)`.
pub proof fn lemma_sqrt_floor_unique(n: int, r: int)
    requires
        n >= 0,
        r >= 0,
        r * r <= n,
        n < (r + 1) * (r + 1),
    ensures
        r == sqrt_floor(n),
{
    lemma_sqrt_floor_bounds(n);
    let s = sqrt_floor(n);
    if r < s {
        lemma_mul_inequality(r + 1, s, s);
        lemma_mul_inequality(r + 1, s, r + 1);
        assert((r + 1) * (r + 1) <= s * s);
    }
    if s < r {
        lemma_mul_inequality(s + 1, r, r);
        lemma_mul_inequality(s + 1, r, s + 1);
        assert((s + 1) * (s + 1) <= r * r);
    }
}

/// A nonnegative value whose square stays within `n` stays within the root.
pub proof fn lemma_sqrt_floor_dominates(n: int, a: int)
    requires
        n >= 0,
        a >= 0,
        a * a <= n,
    ensures
        a <= sqrt_floor(n),
{
    lemma_sqrt_floor_bounds(n);
    let s = sqrt_floor(n);
    if s < a {
        lemma_mul_inequality(s + 1, a, a);
        lemma_mul_inequality(s + 1, a, s + 1);
        assert((s + 1) * (s + 1) <= a * a);
    }
}

/// The floor of the cube root of `n` (0 for negative `n`).
pub open spec fn cbrt_floor(n: int) -> int
    decreases n,
{
    if n <= 0 {
        0
    } else {
        let r = cbrt_floor(n - 1);
        if (r + 1) * (r + 1) * (r + 1) <= n {
            r + 1
        } else {
            r
        }
    }
}

/// `cbrt_floor(n)` is the unique `r >= 0` with `r^3 <= n < (r+1)^3`.
pub proof fn lemma_cbrt_floor_bounds(n: int)
    requires
        n >= 0,
    ensures
        0 <= cbrt_floor(n),
        cbrt_floor(n) * cbrt_floor(n) * cbrt_floor(n) <= n,
        n < (cbrt_floor(n) + 1) * (cbrt_floor(n) + 1) * (cbrt_floor(n) + 1),
    decreases n,
{
    if n > 0 {
        lemma_cbrt_floor_bounds(n - 1);
        let r = cbrt_floor(n - 1);
        assert((r + 1) * (r + 1) * (r + 1) < (r + 2) * (r + 2) * (r + 2)) by (nonlinear_arith)
            requires
                r >= 0,
        ;
    }
}

proof fn lemma_cube_ordered(a: int, b: int)
    requires
        0 <= a < b,
    ensures
        a * a * a < b * b * b,
{
    assert(a * a * a < b * b * b) by (nonlinear_arith)
        requires
            0 <= a < b,
    ;
}

/// Any `r` satisfying the cube-root bracketing equals `cbrt_floor(n)`.
pub proof fn lemma_cbrt_floor_unique(n: int, r: int)
    requires
        n >= 0,
        r >= 0,
        r * r * r <= n,
        n < (r + 1) * (r + 1) * (r + 1),
    ensures
        r == cbrt_floor(n),
{
    lemma_cbrt_floor_bounds(n);
    let s = cbrt_floor(n);
    if r < s {
        lemma_cube_ordered(r + 1, s + 1);
        if r + 1 < s {
            lemma_cube_ordered(r + 1, s);
            assert((r + 1) * (r + 1) * (r + 1) < s * s * s);
        }
    }
    if s < r {
        if s + 1 < r {
            lemma_cube_ordered(s + 1, r);
        }
    }
}

/// Truncating division on `i64`, matching `div_tz` on the mathematical values.
pub fn div_tz_i64(n: i64, d: i64) -> (q: i64)
    requires
        d >= 1,
        n > i64::MIN,
    ensures
        q as int == div_tz(n as int, d as int),
{
    if n >= 0 {
        let qq: u64 = (n as u64) / (d as u64);
        proof {
            lemma_div_nonincreasing(n as int, d as int);
            lemma_div_pos_is_pos(n as int, d as int);
        }
        qq as i64
    } else {
        let m: u64 = ((-n) as u64) / (d as u64);
        proof {
            lemma_div_nonincreasing(-n as int, d as int);
            lemma_div_pos_is_pos(-n as int, d as int);
        }
        -(m as i64)
    }
}

/// Truncating division on `i128`, matching `div_tz` on the mathematical values.
pub fn div_tz_i128(n: i128, d: i128) -> (q: i128)
    requires
        d >= 1,
        n > i128::MIN,
    ensures
        q as int == div_tz(n as int, d as int),
{
    if n >= 0 {
        let qq: u128 = (n as u128) / (d as u128);
        proof {
            lemma_div_nonincreasing(n as int, d as int);
            lemma_div_pos_is_pos(n as int, d as int);
        }
        qq as i128
    } else {
        let m: u128 = ((-n) as u128) / (d as u128);
        proof {
            lemma_div_nonincreasing(-n as int, d as int);
            lemma_div_pos_is_pos(-n as int, d as int);
        }
        -(m as i128)
    }
}

/// Floor square root of a `u64`, by bisection.
pub fn isqrt_u64(n: u64) -> (r: u64)
    ensures
        r as int == sqrt_floor(n as int),
{
    let mut lo: u64 = 0;
    let mut hi: u64 = if n < 0xFFFF_FFFF {
        n + 1
    } else {
        0x1_0000_0000
    };
    proof {
        if n >= 0xFFFF_FFFF {
            assert((0x1_0000_0000int) * (0x1_0000_0000int) > n as int);
        } else {
            assert((n + 1) * (n + 1) > n as int) by (nonlinear_arith)
                requires
                    n >= 0,
            ;
        }
    }
    while lo + 1 < hi
        invariant
            0 <= lo < hi <= 0x1_0000_0000,
            (lo as int) * (lo as int) <= n as int,
            (n as int) < (hi as int) * (hi as int),
        decreases hi - lo,
    {
        let mid: u64 = lo + (hi - lo) / 2;
        assert(lo < mid < hi);
        assert((mid as int) * (mid as int) < 0x1_0000_0000_0000_0000int) by (nonlinear_arith)
            requires
                0 < mid < 0x1_0000_0000int,
        ;
        if mid * mid <= n {
            lo = mid;
        } else {
            hi = mid;
        }
    }
    proof {
        lemma_sqrt_floor_unique(n as int, lo as int);
    }
    lo
}

/// Floor cube root of a `u64`, by bisection.
pub fn icbrt_u64(n: u64) -> (r: u64)
    requires
        n < 0x8000_0000_0000_0000,
    ensures
        r as int == cbrt_floor(n as int),
{
    let mut lo: u64 = 0;
    let mut hi: u64 = if n < 0x1F_FFFF {
        n + 1
    } else {
        0x20_0000
    };
    proof {
        if n >= 0x1F_FFFF {
            assert((0x20_0000int) * (0x20_0000int) * (0x20_0000int) > n as int);
        } else {
            assert((n + 1) * (n + 1) * (n + 1) > n as int) by (nonlinear_arith)
                requires
                    n >= 0,
            ;
        }
    }
    while lo + 1 < hi
        invariant
            0 <= lo < hi <= 0x20_0000,
            (lo as int) * (lo as int) * (lo as int) <= n as int,
            (n as int) < (hi as int) * (hi as int) * (hi as int),
        decreases hi - lo,
    {
        let mid: u64 = lo + (hi - lo) / 2;
        assert(lo < mid < hi);
        assert((mid as int) * (mid as int) < 0x1_0000_0000_0000int) by (nonlinear_arith)
            requires
                0 < mid < 0x20_0000int,
        ;
        let sq: u64 = mid * mid;
        assert((sq as int) * (mid as int) < 0x8000_0000_0000_0000int) by (nonlinear_arith)
            requires
                sq as int == (mid as int) * (mid as int),
                0 < mid < 0x20_0000,
        ;
        if sq * mid <= n {
            lo = mid;
        } else {
            hi = mid;
        }
    }
    proof {
        lemma_cbrt_floor_unique(n as int, lo as int);
    }
    lo
}

} // verus!
