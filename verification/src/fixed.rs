//! Fixed-point scalars and the integer arithmetic primitives of the kernel.
//!
//! A coordinate is an `i64` holding the real value times [`SCALE`].  The
//! spec functions here give the exact integer value of every rounded
//! operation, so contracts elsewhere can state results to the unit.

use vstd::prelude::*;

verus! {

/// One world unit, as a fixed-point integer.
pub const SCALE: i64 = 65536;

/// Largest magnitude a stored mesh coordinate may have (512 world units).
pub const COORD_MAX: i64 = 33554432;

/// Largest magnitude a projected screen-space coordinate may have.
pub const PROJ_MAX: i64 = 1073741824;

/// Largest magnitude a stored normal component may have (4 world units).
pub const NORMAL_MAX: i64 = 262144;

/// Smallest raw squared cross-product norm a triangle may have: below this
/// the integer square root is too coarse for the normal to come out within
/// tolerance of unit length, so such triangles are rejected as degenerate.
pub const CROSS2_MIN: i64 = 1048576;

/// Quotient of `n` by `d`, rounded toward zero; meaningful for `d > 0`.
pub open spec fn qtz(n: int, d: int) -> int {
    if n >= 0 {
        n / d
    } else {
        -((-n) / d)
    }
}

/// Quotient of `n` by `d` rounded toward zero, for any nonzero `d`.
pub open spec fn dtz(n: int, d: int) -> int {
    if d >= 0 {
        qtz(n, d)
    } else {
        qtz(-n, -d)
    }
}

/// Quotient of `n` by `d` rounded to the nearest integer, halves away from
/// zero; meaningful for `d > 0`.
pub open spec fn rnd(n: int, d: int) -> int {
    if n >= 0 {
        (n + d / 2) / d
    } else {
        -((-n + d / 2) / d)
    }
}

/// The nonnegative integer square root, rounded down.
pub open spec fn sqrt_floor(q: int) -> int {
    choose|r: int| 0 <= r && #[trigger] (r * r) <= q && q < (r + 1) * (r + 1)
}

/// `sqrt_floor` is pinned down by its defining inequalities.
pub proof fn lemma_sqrt_floor_unique(q: int, r: int)
    requires
        0 <= r,
        r * r <= q,
        q < (r + 1) * (r + 1),
    ensures
        r == sqrt_floor(q),
{
    assert(0 <= r && r * r <= q && q < (r + 1) * (r + 1));
    let r2 = sqrt_floor(q);
    assert(0 <= r2 && r2 * r2 <= q && q < (r2 + 1) * (r2 + 1));
    assert(r == r2) by (nonlinear_arith)
        requires
            0 <= r,
            0 <= r2,
            r * r <= q,
            q < (r + 1) * (r + 1),
            r2 * r2 <= q,
            q < (r2 + 1) * (r2 + 1),
    ;
}

/// Exact division cancels: `qtz(a * d, d) == a`.
pub proof fn lemma_qtz_exact(a: int, d: int)
    requires
        d > 0,
    ensures
        qtz(a * d, d) == a,
{
    if a >= 0 {
        assert(a * d >= 0) by (nonlinear_arith)
            requires
                a >= 0,
                d > 0,
        ;
        assert((a * d) / d == a) by (nonlinear_arith)
            requires
                d > 0,
        ;
    } else {
        assert(a * d < 0) by (nonlinear_arith)
            requires
                a < 0,
                d > 0,
        ;
        assert(-(a * d) == (-a) * d) by (nonlinear_arith);
        assert(((-a) * d) / d == -a) by (nonlinear_arith)
            requires
                d > 0,
        ;
    }
}

/// The magnitude of a rounded quotient, scaled back by the divisor, never
/// exceeds the magnitude of the numerator.
pub proof fn lemma_qtz_mag(n: int, d: int)
    requires
        d > 0,
    ensures
        n >= 0 ==> 0 <= qtz(n, d) && d * qtz(n, d) <= n,
        n < 0 ==> qtz(n, d) <= 0 && n <= d * qtz(n, d),
{
    if n >= 0 {
        assert(0 <= n / d && d * (n / d) <= n) by (nonlinear_arith)
            requires
                n >= 0,
                d > 0,
        ;
    } else {
        assert(0 <= (-n) / d && d * ((-n) / d) <= -n) by (nonlinear_arith)
            requires
                -n >= 0,
                d > 0,
        ;
        assert(d * qtz(n, d) == -(d * ((-n) / d))) by (nonlinear_arith)
            requires
                qtz(n, d) == -((-n) / d),
        ;
    }
}

/// Rounding toward zero loses less than one divisor's worth: the scaled
/// quotient is within `d` of the numerator.
pub proof fn lemma_qtz_err(n: int, d: int)
    requires
        d > 0,
    ensures
        -d < n - d * qtz(n, d),
        n - d * qtz(n, d) < d,
{
    if n >= 0 {
        vstd::arithmetic::div_mod::lemma_fundamental_div_mod(n, d);
        vstd::arithmetic::div_mod::lemma_mod_bound(n, d);
    } else {
        vstd::arithmetic::div_mod::lemma_fundamental_div_mod(-n, d);
        vstd::arithmetic::div_mod::lemma_mod_bound(-n, d);
        let k = (-n) / d;
        assert(d * qtz(n, d) == -(d * k)) by (nonlinear_arith)
            requires
                qtz(n, d) == -k,
        ;
        assert(-n == d * k + (-n) % d);
    }
}

/// Exact division cancels for any nonzero divisor: `dtz(a * d, d) == a`.
pub proof fn lemma_dtz_exact(a: int, d: int)
    requires
        d != 0,
    ensures
        dtz(a * d, d) == a,
{
    if d > 0 {
        lemma_qtz_exact(a, d);
    } else {
        assert(-(a * d) == a * (-d)) by (nonlinear_arith);
        lemma_qtz_exact(a, -d);
    }
}

/// A product of bounded factors is bounded by the product of the bounds.
pub proof fn lemma_mul_bound(a: int, b: int, ma: int, mb: int)
    by (nonlinear_arith)
    requires
        -ma <= a <= ma,
        -mb <= b <= mb,
        0 <= ma,
        0 <= mb,
    ensures
        -(ma * mb) <= a * b <= ma * mb,
{
}

/// A quotient rounded toward zero keeps any bound `b` with `|n| <= b * d`.
pub proof fn lemma_qtz_bound(n: int, d: int, b: int)
    requires
        d > 0,
        0 <= b,
        -(b * d) <= n <= b * d,
    ensures
        -b <= qtz(n, d) <= b,
{
    if n >= 0 {
        assert(0 <= n / d <= b) by (nonlinear_arith)
            requires
                d > 0,
                0 <= b,
                0 <= n <= b * d,
        ;
    } else {
        assert(0 <= (-n) / d <= b) by (nonlinear_arith)
            requires
                d > 0,
                0 <= b,
                0 <= -n <= b * d,
        ;
    }
}

/// A rounded-to-nearest quotient keeps any bound `b` with `|n| <= b * d`.
pub proof fn lemma_rnd_bound(n: int, d: int, b: int)
    requires
        d > 0,
        0 <= b,
        -(b * d) <= n <= b * d,
    ensures
        -(b + 1) <= rnd(n, d) <= b + 1,
{
    if n >= 0 {
        assert(0 <= (n + d / 2) / d <= b + 1) by (nonlinear_arith)
            requires
                d > 0,
                0 <= b,
                0 <= n <= b * d,
                0 <= d / 2 <= d,
        ;
    } else {
        assert(0 <= (-n + d / 2) / d <= b + 1) by (nonlinear_arith)
            requires
                d > 0,
                0 <= b,
                0 <= -n <= b * d,
                0 <= d / 2 <= d,
        ;
    }
}

/// Every nonnegative integer has an integer square root.
pub proof fn lemma_sqrt_exists(q: int)
    requires
        0 <= q,
    ensures
        exists|r: int| 0 <= r && #[trigger] (r * r) <= q && q < (r + 1) * (r + 1),
    decreases q,
{
    if q == 0 {
        assert(0 * 0 <= q && q < (0 + 1) * (0 + 1)) by (nonlinear_arith)
            requires
                q == 0,
        ;
    } else {
        lemma_sqrt_exists(q - 1);
        let r0 = choose|r: int| 0 <= r && #[trigger] (r * r) <= q - 1 && q - 1 < (r + 1) * (r
            + 1);
        if (r0 + 1) * (r0 + 1) <= q {
            assert(q == (r0 + 1) * (r0 + 1));
            assert(q < (r0 + 2) * (r0 + 2)) by (nonlinear_arith)
                requires
                    0 <= r0,
                    q == (r0 + 1) * (r0 + 1),
            ;
            assert(0 <= r0 + 1 && (r0 + 1) * (r0 + 1) <= q && q < ((r0 + 1) + 1) * ((r0 + 1)
                + 1));
        } else {
            assert(0 <= r0 && r0 * r0 <= q && q < (r0 + 1) * (r0 + 1));
        }
    }
}

/// The defining inequalities of `sqrt_floor`, available once existence holds.
pub proof fn lemma_sqrt_props(q: int)
    requires
        0 <= q,
    ensures
        0 <= sqrt_floor(q),
        sqrt_floor(q) * sqrt_floor(q) <= q,
        q < (sqrt_floor(q) + 1) * (sqrt_floor(q) + 1),
{
    lemma_sqrt_exists(q);
}

/// Divide an `i128` by a nonzero `i128`, rounding toward zero.
pub fn div_tz(n: i128, d: i128) -> (q: i128)
    requires
        d != 0,
        n != i128::MIN,
        d != i128::MIN,
    ensures
        q == dtz(n as int, d as int),
{
    let neg_n: bool = n < 0;
    let neg_d: bool = d < 0;
    let num: u128 = if neg_n {
        (-n) as u128
    } else {
        n as u128
    };
    let den: u128 = if neg_d {
        (-d) as u128
    } else {
        d as u128
    };
    let q0: u128 = num / den;
    assert(q0 <= num);
    if neg_n != neg_d {
        -(q0 as i128)
    } else {
        q0 as i128
    }
}

/// Divide an `i128` by a positive `i128`, rounding to the nearest integer
/// with halves away from zero.
pub fn div_rnd(n: i128, d: i128) -> (q: i128)
    requires
        d > 0,
        -0x4000_0000_0000_0000_0000_0000_0000_0000 < n
            < 0x4000_0000_0000_0000_0000_0000_0000_0000,
        d < 0x4000_0000_0000_0000_0000_0000_0000_0000,
    ensures
        q == rnd(n as int, d as int),
{
    let half: u128 = (d as u128) / 2;
    let num: u128 = if n < 0 {
        (-n) as u128 + half
    } else {
        n as u128 + half
    };
    let q0: u128 = num / (d as u128);
    assert(q0 <= num);
    if n < 0 {
        -(q0 as i128)
    } else {
        q0 as i128
    }
}

/// The integer square root of a `u128`, rounded down.
pub fn isqrt(q: u128) -> (r: u64)
    ensures
        r == sqrt_floor(q as int),
        (r as int) * (r as int) <= q as int,
        (q as int) < (r as int + 1) * (r as int + 1),
{
    let mut lo: u128 = 0;
    let mut hi: u128 = 0x1_0000_0000_0000_0000;
    assert((q as int) < (hi as int) * (hi as int)) by (nonlinear_arith)
        requires
            q <= u128::MAX,
            hi == 0x1_0000_0000_0000_0000,
    ;
    while lo + 1 < hi
        invariant
            lo < hi,
            hi <= 0x1_0000_0000_0000_0000,
            (lo as int) * (lo as int) <= q as int,
            (q as int) < (hi as int) * (hi as int),
        decreases hi - lo,
    {
        let mid = lo + (hi - lo) / 2;
        assert(lo < mid && mid < hi);
        assert((mid as int) * (mid as int) <= u128::MAX) by (nonlinear_arith)
            requires
                mid < 0x1_0000_0000_0000_0000,
        ;
        let sq = mid * mid;
        if sq <= q {
            lo = mid;
        } else {
            hi = mid;
        }
    }
    assert(hi == lo + 1);
    proof {
        lemma_sqrt_floor_unique(q as int, lo as int);
    }
    lo as u64
}

} // verus!
