//! Fixed-point scalar arithmetic.
//!
//! A number is an `i64` counting ticks of `1 / SCALE`; `SCALE` raw ticks
//! stand for 1.0. Multiplication and division of two such numbers go
//! through a double-width intermediate and round toward zero, and every
//! operation carries an exact contract over mathematical integers.

use vstd::prelude::*;

verus! {

use vstd::arithmetic::div_mod::{lemma_div_is_ordered, lemma_div_pos_is_pos, lemma_div_nonincreasing};

/// Raw ticks per unit: the fixed-point scale.
pub const SCALE: i64 = 1_000_000;

/// Absolute value over mathematical integers.
pub open spec fn absi(a: int) -> int {
    if a >= 0 {
        a
    } else {
        -a
    }
}

/// Truncating (round-toward-zero) division for a positive divisor: the
/// rounding of Rust's `/` on signed integers.
pub open spec fn tdiv(a: int, b: int) -> int {
    if a >= 0 {
        a / b
    } else {
        -((-a) / b)
    }
}

/// Whether a value lies in the symmetric part of the `i64` range.
pub open spec fn fits_fx(a: int) -> bool {
    -0x7fff_ffff_ffff_ffff <= a <= 0x7fff_ffff_ffff_ffff
}

/// The exact result of fixed-point multiplication.
pub open spec fn fx_mul_spec(a: int, b: int) -> int {
    tdiv(a * b, SCALE as int)
}

/// The exact result of fixed-point division (divisor taken positive).
pub open spec fn fx_div_spec(a: int, b: int) -> int {
    tdiv(a * (SCALE as int), b)
}

/// Truncating division keeps the sign of the dividend and its magnitude
/// is the floor of the magnitude quotient.
pub proof fn lemma_tdiv_abs(a: int, b: int)
    requires
        b > 0,
    ensures
        absi(tdiv(a, b)) == absi(a) / b,
        absi(a) / b <= absi(a),
        a >= 0 ==> tdiv(a, b) >= 0,
        a <= 0 ==> tdiv(a, b) <= 0,
{
    if a >= 0 {
        lemma_div_pos_is_pos(a, b);
        lemma_div_nonincreasing(a, b);
    } else {
        lemma_div_pos_is_pos(-a, b);
        lemma_div_nonincreasing(-a, b);
    }
}

/// Truncating division is monotone in the magnitude of the dividend.
pub proof fn lemma_tdiv_abs_le(a: int, m: int, b: int)
    requires
        b > 0,
        absi(a) <= m,
    ensures
        absi(tdiv(a, b)) <= m / b,
        -(m / b) <= tdiv(a, b) <= m / b,
{
    lemma_tdiv_abs(a, b);
    lemma_div_is_ordered(absi(a), m, b);
}

/// A magnitude bound on each factor gives a magnitude bound on a
/// fixed-point product.
pub proof fn lemma_fx_mul_bound(a: int, b: int, m: int, n: int)
    requires
        absi(a) <= m,
        absi(b) <= n,
    ensures
        absi(a * b) <= m * n,
        absi(fx_mul_spec(a, b)) <= (m * n) / (SCALE as int),
        (m * n) / (SCALE as int) <= m * n,
{
    assert(absi(a * b) <= m * n) by (nonlinear_arith)
        requires
            absi(a) <= m,
            absi(b) <= n,
    ;
    lemma_tdiv_abs_le(a * b, m * n, SCALE as int);
    lemma_tdiv_abs(a * b, SCALE as int);
    lemma_div_nonincreasing(m * n, SCALE as int);
}

/// Fixed-point multiplication: `(a * b) / SCALE`, rounded toward zero.
pub fn fx_mul(a: i64, b: i64) -> (r: i64)
    requires
        fits_fx(fx_mul_spec(a as int, b as int)),
    ensures
        r == fx_mul_spec(a as int, b as int),
{
    proof {
        assert(absi((a as int) * (b as int)) <= 0x4000_0000_0000_0000_0000_0000_0000_0000)
            by (nonlinear_arith)
            requires
                absi(a as int) <= 0x8000_0000_0000_0000,
                absi(b as int) <= 0x8000_0000_0000_0000,
        ;
    }
    let p: i128 = (a as i128) * (b as i128);
    let q: i128 = p / (SCALE as i128);
    proof {
        assert(q == fx_mul_spec(a as int, b as int));
    }
    q as i64
}

/// Fixed-point division by a positive divisor: `(a * SCALE) / b`,
/// rounded toward zero.
pub fn fx_div(a: i64, b: i64) -> (r: i64)
    requires
        b > 0,
        fits_fx(fx_div_spec(a as int, b as int)),
    ensures
        r == fx_div_spec(a as int, b as int),
{
    let p: i128 = (a as i128) * (SCALE as i128);
    let q: i128 = p / (b as i128);
    proof {
        assert(q == fx_div_spec(a as int, b as int));
    }
    q as i64
}

/// `r` is the integer square root of `n`.
pub open spec fn is_sqrt_of(n: int, r: int) -> bool {
    0 <= r && r * r <= n && n < (r + 1) * (r + 1)
}

/// The integer square root (the unique `r` with `r * r <= n < (r + 1) * (r + 1)`).
pub open spec fn sqrt_floor(n: int) -> int {
    choose|r: int| is_sqrt_of(n, r)
}

/// A number has at most one integer square root.
pub proof fn lemma_sqrt_unique(n: int, r1: int, r2: int)
    requires
        is_sqrt_of(n, r1),
        is_sqrt_of(n, r2),
    ensures
        r1 == r2,
{
    assert(r1 == r2) by (nonlinear_arith)
        requires
            is_sqrt_of(n, r1),
            is_sqrt_of(n, r2),
    ;
}

/// Every nonnegative number has an integer square root, so `sqrt_floor`
/// denotes it.
pub proof fn lemma_sqrt_exists(n: int)
    requires
        n >= 0,
    ensures
        is_sqrt_of(n, sqrt_floor(n)),
    decreases n,
{
    if n == 0 {
        assert(is_sqrt_of(0, 0));
    } else {
        lemma_sqrt_exists(n - 1);
        let r = sqrt_floor(n - 1);
        if n < (r + 1) * (r + 1) {
            assert(is_sqrt_of(n, r));
        } else {
            assert(n == (r + 1) * (r + 1)) by (nonlinear_arith)
                requires
                    is_sqrt_of(n - 1, r),
                    n >= (r + 1) * (r + 1),
            ;
            assert(is_sqrt_of(n, r + 1)) by (nonlinear_arith)
                requires
                    n == (r + 1) * (r + 1),
                    r >= 0,
            ;
        }
    }
    assert(exists|r: int| is_sqrt_of(n, r));
}

/// The exact result of the fixed-point square root: the square root in
/// fixed-point ticks is the integer square root of `a * SCALE`.
pub open spec fn fx_sqrt_spec(a: int) -> int {
    sqrt_floor(a * (SCALE as int))
}

/// Fixed-point square root, rounded down.
pub fn fx_sqrt(a: i64) -> (r: i64)
    requires
        0 <= a,
    ensures
        r == fx_sqrt_spec(a as int),
        is_sqrt_of(a * (SCALE as int), r as int),
        0 <= r <= 3_100_000_000_000,
{
    let n: i128 = (a as i128) * (SCALE as i128);
    let mut lo: i128 = 0;
    let mut hi: i128 = 3_100_000_000_001;
    proof {
        assert(n < hi * hi) by (nonlinear_arith)
            requires
                n == (a as int) * (SCALE as int),
                0 <= a < 0x8000_0000_0000_0000,
                hi == 3_100_000_000_001int,
        ;
    }
    while lo + 1 < hi
        invariant
            0 <= lo < hi <= 3_100_000_000_001,
            lo * lo <= n,
            n < hi * hi,
        decreases hi - lo,
    {
        let mid: i128 = lo + (hi - lo) / 2;
        proof {
            assert(lo < mid < hi);
            assert(mid * mid <= 0x4_0000_0000_0000_0000_0000_0000) by (nonlinear_arith)
                requires
                    0 <= mid <= 3_100_000_000_001int,
            ;
        }
        if mid * mid <= n {
            lo = mid;
        } else {
            hi = mid;
        }
    }
    proof {
        assert(is_sqrt_of(n as int, lo as int));
        lemma_sqrt_unique(n as int, lo as int, sqrt_floor(n as int));
    }
    lo as i64
}

/// The exact result of a fixed-point power with a natural exponent:
/// repeated fixed-point multiplication starting from 1.0.
pub open spec fn fx_powi_spec(b: int, n: nat) -> int
    decreases n,
{
    if n == 0 {
        SCALE as int
    } else {
        fx_mul_spec(b, fx_powi_spec(b, (n - 1) as nat))
    }
}

/// A fixed-point product of two values of [0, 1] stays in [0, 1].
pub proof fn lemma_fx_mul_unit(b: int, x: int)
    requires
        0 <= b <= SCALE as int,
        0 <= x <= SCALE as int,
    ensures
        0 <= fx_mul_spec(b, x) <= SCALE as int,
{
    assert(0 <= b * x <= (SCALE as int) * (SCALE as int)) by (nonlinear_arith)
        requires
            0 <= b <= SCALE as int,
            0 <= x <= SCALE as int,
    ;
    lemma_tdiv_abs(b * x, SCALE as int);
    lemma_div_is_ordered(b * x, (SCALE as int) * (SCALE as int), SCALE as int);
}

/// Fixed-point power with a natural exponent, for a base in [0, 1].
pub fn fx_powi(base: i64, e: u32) -> (r: i64)
    requires
        0 <= base <= SCALE,
    ensures
        r == fx_powi_spec(base as int, e as nat),
        0 <= r <= SCALE,
{
    let mut acc: i64 = SCALE;
    let mut i: u32 = 0;
    while i < e
        invariant
            0 <= base <= SCALE,
            i <= e,
            acc == fx_powi_spec(base as int, i as nat),
            0 <= acc <= SCALE,
        decreases e - i,
    {
        proof {
            lemma_fx_mul_unit(base as int, acc as int);
        }
        acc = fx_mul(base, acc);
        i = i + 1;
    }
    acc
}

/// The exact result of clamping to the unit interval [0, 1].
pub open spec fn clamp01_spec(a: int) -> int {
    if a < 0 {
        0
    } else if a > SCALE as int {
        SCALE as int
    } else {
        a
    }
}

/// Clamp a fixed-point value to the unit interval [0, 1].
pub fn clamp01(a: i64) -> (r: i64)
    ensures
        r == clamp01_spec(a as int),
{
    if a < 0 {
        0
    } else if a > SCALE {
        SCALE
    } else {
        a
    }
}

} // verus!
