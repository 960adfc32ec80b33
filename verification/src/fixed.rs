//! Fixed-point scalar arithmetic.
//!
//! A fixed-point value is an `i64` holding the real value multiplied by
//! [`SCALE`].  Multiplication and division of two fixed-point values are
//! truncating (they round toward zero, as Rust's `/` does), and [`tdiv`]
//! gives that rounding a name that contracts can use.  The module also
//! provides an exact integer square root, which the samplers and the corner
//! scorer use for Euclidean distances.

use vstd::prelude::*;

verus! {

use vstd::arithmetic::div_mod::{
    lemma_div_is_ordered,
    lemma_div_is_ordered_by_denominator,
    lemma_div_by_multiple,
    lemma_div_pos_is_pos,
    lemma_div_nonincreasing,
};
use vstd::arithmetic::mul::lemma_mul_inequality;

/// Number of fixed-point units in one: a fixed-point value stores the real
/// value multiplied by this factor.
pub const SCALE: i64 = 1_000_000;

/// Truncating (round-toward-zero) integer division over mathematical
/// integers: the semantics of Rust's `/` on signed integers, written in
/// terms of the Euclidean `/` of specifications.
pub open spec fn tdiv(a: int, b: int) -> int {
    if a == 0 {
        0
    } else if a > 0 && b > 0 {
        a / b
    } else if a < 0 && b < 0 {
        (a * -1) / (b * -1)
    } else if a < 0 {
        ((a * -1) / b) * -1
    } else {
        (a / (b * -1)) * -1
    }
}

/// Product of two fixed-point values, as a mathematical integer.
pub open spec fn fmul(a: int, b: int) -> int {
    tdiv(a * b, SCALE as int)
}

/// Quotient of two fixed-point values, as a mathematical integer.
pub open spec fn fdiv(a: int, b: int) -> int {
    tdiv(a * (SCALE as int), b)
}

/// A truncating quotient lies within every symmetric bound that the
/// dividend lies within, `b` times over.
pub proof fn lemma_tdiv_bounds(a: int, b: int, m: int)
    requires
        b > 0,
        m >= 0,
        -(m * b) <= a <= m * b,
    ensures
        -m <= tdiv(a, b) <= m,
{
    if a == 0 {
    } else if a > 0 {
        lemma_div_pos_is_pos(a, b);
        lemma_div_is_ordered(a, m * b, b);
        lemma_div_by_multiple(m, b);
    } else {
        lemma_div_pos_is_pos(-a, b);
        lemma_div_is_ordered(-a, m * b, b);
        lemma_div_by_multiple(m, b);
    }
}

/// As `lemma_tdiv_bounds`, for a divisor of either sign.
pub proof fn lemma_tdiv_bounds_abs(a: int, b: int, m: int)
    requires
        b != 0,
        m >= 0,
        -(m * vstd::math::abs(b)) <= a <= m * vstd::math::abs(b),
    ensures
        -m <= tdiv(a, b) <= m,
{
    if b > 0 {
        assert(vstd::math::abs(b) == b);
        lemma_tdiv_bounds(a, b, m);
    } else {
        assert(vstd::math::abs(b) == -b);
        let nb = -b;
        assert(-(m * nb) <= a <= m * nb);
        if a == 0 {
        } else if a < 0 {
            assert(tdiv(a, b) == (-a) / nb);
            lemma_div_pos_is_pos(-a, nb);
            lemma_div_is_ordered(-a, m * nb, nb);
            lemma_div_by_multiple(m, nb);
            assert((m * nb) / nb == m);
            assert((-a) / nb <= m);
        } else {
            assert(tdiv(a, b) == (a / nb) * -1);
            lemma_div_pos_is_pos(a, nb);
            lemma_div_is_ordered(a, m * nb, nb);
            lemma_div_by_multiple(m, nb);
            assert((m * nb) / nb == m);
            assert(a / nb <= m);
        }
    }
}

/// Bounds on both factors bound a fixed-point product: the precondition of
/// `fx_mul` and a range for its result, in one step.
pub proof fn lemma_fmul_bounds(a: int, b: int, ma: int, mb: int, m: int)
    requires
        0 <= ma,
        0 <= mb,
        -ma <= a <= ma,
        -mb <= b <= mb,
        ma * mb <= m * (SCALE as int),
        0 <= m,
    ensures
        -(m * (SCALE as int)) <= a * b <= m * (SCALE as int),
        -m <= fmul(a, b) <= m,
{
    assert(-(ma * mb) <= a * b <= ma * mb) by (nonlinear_arith)
        requires
            0 <= ma && 0 <= mb && -ma <= a <= ma && -mb <= b <= mb,
    ;
    lemma_tdiv_bounds(a * b, SCALE as int, m);
}

/// A fixed-point product of nonnegative factors is nonnegative.
pub proof fn lemma_fmul_nonneg(a: int, b: int)
    requires
        0 <= a,
        0 <= b,
    ensures
        0 <= fmul(a, b),
{
    assert(0 <= a * b) by (nonlinear_arith)
        requires
            0 <= a && 0 <= b,
    ;
    lemma_tdiv_nonneg(a * b, SCALE as int);
}

/// Multiplying by one, in fixed point, changes nothing.
pub proof fn lemma_fmul_scale(a: int)
    ensures
        fmul(a, SCALE as int) == a,
{
    lemma_tdiv_mul_cancel(a, SCALE as int);
}

/// A zero factor gives a zero fixed-point product.
pub proof fn lemma_fmul_zero(a: int)
    ensures
        fmul(a, 0) == 0,
        fmul(0, a) == 0,
{
    assert(a * 0 == 0);
    assert(0 * a == 0);
}

/// The magnitude of a truncating quotient never exceeds the magnitude of
/// the dividend.
pub proof fn lemma_tdiv_abs(a: int, b: int)
    requires
        b != 0,
    ensures
        a >= 0 ==> -a <= tdiv(a, b) <= a,
        a < 0 ==> a <= tdiv(a, b) <= -a,
{
    if a == 0 {
    } else if a > 0 && b > 0 {
        lemma_div_pos_is_pos(a, b);
        lemma_div_nonincreasing(a, b);
    } else if a < 0 && b < 0 {
        lemma_div_pos_is_pos(-a, -b);
        lemma_div_nonincreasing(-a, -b);
    } else if a < 0 {
        lemma_div_pos_is_pos(-a, b);
        lemma_div_nonincreasing(-a, b);
    } else {
        lemma_div_pos_is_pos(a, -b);
        lemma_div_nonincreasing(a, -b);
    }
}

/// Dividing an exact multiple truncates nothing.
pub proof fn lemma_tdiv_mul_cancel(a: int, b: int)
    requires
        b > 0,
    ensures
        tdiv(a * b, b) == a,
{
    if a == 0 {
        assert(a * b == 0);
    } else if a > 0 {
        assert(a * b > 0) by (nonlinear_arith)
            requires
                a > 0 && b > 0,
        ;
        lemma_div_by_multiple(a, b);
    } else {
        assert(a * b < 0) by (nonlinear_arith)
            requires
                a < 0 && b > 0,
        ;
        assert((a * b) * -1 == (a * -1) * b) by (nonlinear_arith);
        lemma_div_by_multiple(-a, b);
    }
}

/// A nonnegative dividend and positive divisor give the Euclidean quotient.
pub proof fn lemma_tdiv_nonneg(a: int, b: int)
    requires
        a >= 0,
        b > 0,
    ensures
        tdiv(a, b) == a / b,
        tdiv(a, b) >= 0,
{
    if a > 0 {
        lemma_div_pos_is_pos(a, b);
    }
}

/// Truncating division by a positive divisor is monotone in the dividend.
pub proof fn lemma_tdiv_ordered(a1: int, a2: int, b: int)
    requires
        b > 0,
        a1 <= a2,
    ensures
        tdiv(a1, b) <= tdiv(a2, b),
{
    if a1 == 0 {
        if a2 > 0 {
            lemma_div_pos_is_pos(a2, b);
        }
    } else if a1 > 0 {
        lemma_div_is_ordered(a1, a2, b);
        lemma_div_pos_is_pos(a1, b);
        lemma_div_pos_is_pos(a2, b);
    } else {
        if a2 == 0 {
            lemma_div_pos_is_pos(-a1, b);
        } else if a2 > 0 {
            lemma_div_pos_is_pos(-a1, b);
            lemma_div_pos_is_pos(a2, b);
        } else {
            lemma_div_is_ordered(-a2, -a1, b);
        }
    }
}

/// The truncating remainder has magnitude below the divisor.
pub proof fn lemma_tdiv_remainder(a: int, b: int)
    requires
        b > 0,
    ensures
        -(b - 1) <= a - tdiv(a, b) * b <= b - 1,
{
    if a == 0 {
    } else if a > 0 {
        vstd::arithmetic::div_mod::lemma_fundamental_div_mod(a, b);
        vstd::arithmetic::div_mod::lemma_remainder_lower(a, b);
        vstd::arithmetic::div_mod::lemma_remainder_upper(a, b);
        assert(b * (a / b) == (a / b) * b) by (nonlinear_arith);
    } else {
        vstd::arithmetic::div_mod::lemma_fundamental_div_mod(-a, b);
        vstd::arithmetic::div_mod::lemma_remainder_lower(-a, b);
        vstd::arithmetic::div_mod::lemma_remainder_upper(-a, b);
        assert(tdiv(a, b) == ((-a) / b) * -1);
        assert((((-a) / b) * -1) * b == (b * ((-a) / b)) * -1) by (nonlinear_arith);
    }
}

/// A dividend within `m` divisor-steps of an exact multiple divides to
/// within `m` of the factor.
pub proof fn lemma_tdiv_near_multiple(x: int, e: int, b: int, m: int)
    requires
        b > 0,
        0 <= m,
        -(m * b) <= e <= m * b,
    ensures
        x - m <= tdiv(x * b + e, b) <= x + m,
{
    assert((x - m) * b <= x * b + e && x * b + e <= (x + m) * b) by (nonlinear_arith)
        requires
            -(m * b) <= e <= m * b,
    ;
    lemma_tdiv_ordered((x - m) * b, x * b + e, b);
    lemma_tdiv_ordered(x * b + e, (x + m) * b, b);
    lemma_tdiv_mul_cancel(x - m, b);
    lemma_tdiv_mul_cancel(x + m, b);
}

/// Dividends at most `m` divisor-steps apart divide to within `m + 1` of
/// each other.
pub proof fn lemma_tdiv_diff(a: int, c: int, b: int, m: int)
    requires
        b > 0,
        0 <= m,
        -(m * b) <= a - c <= m * b,
    ensures
        -(m + 1) <= tdiv(a, b) - tdiv(c, b) <= m + 1,
{
    let x1 = tdiv(c, b);
    lemma_tdiv_remainder(c, b);
    assert(-((m + 1) * b) <= a - x1 * b <= (m + 1) * b) by (nonlinear_arith)
        requires
            -(m * b) <= a - c <= m * b && -(b - 1) <= c - x1 * b <= b - 1 && b > 0 && 0 <= m,
    ;
    lemma_tdiv_near_multiple(x1, a - x1 * b, b, m + 1);
    assert(x1 * b + (a - x1 * b) == a);
}

/// Truncating division over the full `i128` range stays in that range, as
/// long as the one overflowing case is excluded.
proof fn lemma_tdiv_i128_range(a: int, b: int)
    requires
        i128::MIN <= a <= i128::MAX,
        b != 0,
        !(a == i128::MIN && b == -1),
    ensures
        i128::MIN <= tdiv(a, b) <= i128::MAX,
{
    lemma_tdiv_abs(a, b);
    if a == i128::MIN && b < 0 {
        lemma_div_is_ordered_by_denominator(-a, 2, -b);
    }
}

/// Truncating division, `i128` dividend.  Relies only on the exactly
/// specified `checked_div` of std.
pub(crate) fn tdiv_i128(a: i128, b: i128) -> (r: i128)
    requires
        b != 0,
        !(a == i128::MIN && b == -1),
    ensures
        r == tdiv(a as int, b as int),
{
    proof {
        lemma_tdiv_i128_range(a as int, b as int);
    }
    let q = a.checked_div(b);
    q.unwrap()
}

/// Fixed-point multiplication: `a` times `b`, truncated toward zero.
pub fn fx_mul(a: i64, b: i64) -> (r: i64)
    requires
        i64::MIN * (SCALE as int) <= a * b <= i64::MAX * (SCALE as int),
    ensures
        r == fmul(a as int, b as int),
{
    let p: i128 = (a as i128) * (b as i128);
    let q = tdiv_i128(p, SCALE as i128);
    proof {
        lemma_tdiv_bounds(p as int, SCALE as int, -(i64::MIN as int));
    }
    q as i64
}

/// Fixed-point division: `a` over `b`, truncated toward zero.
pub fn fx_div(a: i64, b: i64) -> (r: i64)
    requires
        b != 0,
        i64::MIN <= fdiv(a as int, b as int) <= i64::MAX,
    ensures
        r == fdiv(a as int, b as int),
{
    let p: i128 = (a as i128) * (SCALE as i128);
    let q = tdiv_i128(p, b as i128);
    q as i64
}

/// `r` is the floor of the square root of `x`.
pub open spec fn is_sqrt(x: int, r: int) -> bool {
    0 <= r && r * r <= x && x < (r + 1) * (r + 1)
}

/// The floor of the square root, as a function.  `lemma_sqrt_floor` shows
/// that it satisfies `is_sqrt` for every nonnegative argument.
pub open spec fn sqrt_floor(x: int) -> int {
    choose|r: int| is_sqrt(x, r)
}

/// Two floors of the same square root are equal.
pub proof fn lemma_sqrt_unique(x: int, r1: int, r2: int)
    requires
        is_sqrt(x, r1),
        is_sqrt(x, r2),
    ensures
        r1 == r2,
{
    if r1 < r2 {
        lemma_mul_inequality(r1 + 1, r2, r2);
        lemma_mul_inequality(r1 + 1, r2, r1 + 1);
    }
    if r2 < r1 {
        lemma_mul_inequality(r2 + 1, r1, r1);
        lemma_mul_inequality(r2 + 1, r1, r2 + 1);
    }
}

/// Every nonnegative integer has a square-root floor, and `sqrt_floor`
/// denotes it.
pub proof fn lemma_sqrt_floor(x: int)
    requires
        x >= 0,
    ensures
        is_sqrt(x, sqrt_floor(x)),
    decreases x,
{
    if x == 0 {
        assert(is_sqrt(0, 0));
    } else {
        lemma_sqrt_floor(x - 1);
        let r = sqrt_floor(x - 1);
        assert(is_sqrt(x - 1, r));
        if x < (r + 1) * (r + 1) {
            assert(is_sqrt(x, r));
        } else {
            assert(x == (r + 1) * (r + 1));
            assert(x < (r + 2) * (r + 2)) by (nonlinear_arith)
                requires
                    x == (r + 1) * (r + 1) && r >= 0,
            ;
            assert(is_sqrt(x, r + 1));
        }
    }
    let w = choose|r: int| is_sqrt(x, r);
    assert(is_sqrt(x, w));
    lemma_sqrt_unique(x, w, sqrt_floor(x));
}

/// Floor of the square root of `x`, by binary search.
pub fn isqrt_u128(x: u128) -> (r: u64)
    ensures
        is_sqrt(x as int, r as int),
        r == sqrt_floor(x as int),
{
    let mut lo: u128 = 0;
    let mut hi: u128 = 0x1_0000_0000_0000_0000;
    proof {
        assert((hi as int) * (hi as int) > u128::MAX) by (nonlinear_arith)
            requires
                hi == 0x1_0000_0000_0000_0000u128,
        ;
    }
    while lo + 1 < hi
        invariant
            lo < hi <= 0x1_0000_0000_0000_0000u128,
            (lo as int) * (lo as int) <= x as int,
            (x as int) < (hi as int) * (hi as int),
        decreases hi - lo,
    {
        let mid = lo + (hi - lo) / 2;
        proof {
            assert(lo < mid < hi);
            assert((mid as int) * (mid as int) <= u128::MAX) by (nonlinear_arith)
                requires
                    mid < 0x1_0000_0000_0000_0000u128,
            ;
        }
        if mid * mid <= x {
            lo = mid;
        } else {
            hi = mid;
        }
    }
    proof {
        assert(hi == lo + 1);
        assert(is_sqrt(x as int, lo as int));
        lemma_sqrt_floor(x as int);
        lemma_sqrt_unique(x as int, lo as int, sqrt_floor(x as int));
    }
    lo as u64
}

} // verus!
