//! Fixed-point arithmetic: an `i64` value `v` stands for the real number
//! `v / SCALE`. Multiplication truncates toward zero, matching the sign
//! behaviour of hardware division on the magnitudes.

use vstd::prelude::*;
use vstd::arithmetic::div_mod::{
    lemma_div_is_ordered, lemma_div_multiples_vanish, lemma_div_pos_is_pos,
};

verus! {

/// One unit of the fixed-point scale: `SCALE` represents the real number 1.
pub const SCALE: i64 = 1_000_000;

/// Absolute value of a mathematical integer.
pub open spec fn fp_abs(a: int) -> int {
    if a >= 0 {
        a
    } else {
        -a
    }
}

/// Quotient of `a / b` rounded toward zero (for `b > 0`), as opposed to the
/// Euclidean `/` of spec arithmetic, which rounds toward minus infinity.
pub open spec fn div_trunc(a: int, b: int) -> int {
    if a >= 0 {
        a / b
    } else {
        -((-a) / b)
    }
}

/// The fixed-point product of `a` and `b`: `a * b / SCALE`, truncated
/// toward zero.
pub open spec fn fp_mul(a: int, b: int) -> int {
    div_trunc(a * b, SCALE as int)
}

pub proof fn lemma_abs_mul(a: int, b: int)
    ensures
        fp_abs(a * b) == fp_abs(a) * fp_abs(b),
{
    assert(fp_abs(a * b) == fp_abs(a) * fp_abs(b)) by (nonlinear_arith);
}

/// `fp_mul` never increases a magnitude bound: if `|a| * |b| <= m * SCALE`
/// then `|a * b / SCALE| <= m`.
pub proof fn lemma_fp_mul_abs_le(a: int, b: int, m: int)
    requires
        fp_abs(a) * fp_abs(b) <= m * (SCALE as int),
        0 <= m,
    ensures
        fp_abs(fp_mul(a, b)) <= m,
{
    let s = SCALE as int;
    lemma_abs_mul(a, b);
    lemma_div_is_ordered(fp_abs(a * b), m * s, s);
    lemma_div_multiples_vanish(m, s);
    assert(m * s == s * m) by (nonlinear_arith);
    if a * b >= 0 {
        assert(fp_mul(a, b) == (a * b) / s);
        lemma_div_pos_is_pos(a * b, s);
    } else {
        assert(fp_mul(a, b) == -((-(a * b)) / s));
        lemma_div_pos_is_pos(-(a * b), s);
    }
}

/// For non-negative operands the truncated product is the Euclidean one,
/// and stays non-negative.
pub proof fn lemma_fp_mul_nonneg(a: int, b: int)
    requires
        0 <= a,
        0 <= b,
    ensures
        fp_mul(a, b) == (a * b) / (SCALE as int),
        0 <= fp_mul(a, b),
{
    assert(0 <= a * b) by (nonlinear_arith)
        requires
            0 <= a,
            0 <= b,
    ;
    lemma_div_pos_is_pos(a * b, SCALE as int);
}

/// Multiplying a non-negative value by a factor of at most one (`SCALE`)
/// does not increase it.
pub proof fn lemma_fp_mul_le_left(a: int, b: int)
    requires
        0 <= a,
        0 <= b <= SCALE as int,
    ensures
        0 <= fp_mul(a, b) <= a,
{
    let s = SCALE as int;
    lemma_fp_mul_nonneg(a, b);
    assert(a * b <= a * s) by (nonlinear_arith)
        requires
            0 <= a,
            b <= s,
    ;
    lemma_div_is_ordered(a * b, a * s, s);
    lemma_div_multiples_vanish(a, s);
    assert(a * s == s * a) by (nonlinear_arith);
}

/// Multiplying a positive value by a factor strictly below one strictly
/// decreases it.
pub proof fn lemma_fp_mul_lt_left(a: int, b: int)
    requires
        0 < a,
        0 <= b < SCALE as int,
    ensures
        0 <= fp_mul(a, b) < a,
{
    let s = SCALE as int;
    lemma_fp_mul_nonneg(a, b);
    assert(a * b < s * a) by (nonlinear_arith)
        requires
            0 < a,
            0 <= b < s,
    ;
    vstd::arithmetic::div_mod::lemma_multiply_divide_lt(a * b, s, a);
}

/// The magnitude of a truncated quotient is the quotient of the magnitude.
pub proof fn lemma_div_trunc_abs(a: int, d: int)
    requires
        0 < d,
    ensures
        fp_abs(div_trunc(a, d)) == fp_abs(a) / d,
{
    if a >= 0 {
        lemma_div_pos_is_pos(a, d);
    } else {
        lemma_div_pos_is_pos(-a, d);
    }
}

/// Sum of quotients never exceeds the quotient of the sum.
pub proof fn lemma_div_sum_le(x: int, y: int, d: int)
    requires
        0 <= x,
        0 <= y,
        0 < d,
    ensures
        x / d + y / d <= (x + y) / d,
{
    vstd::arithmetic::div_mod::lemma_fundamental_div_mod(x, d);
    vstd::arithmetic::div_mod::lemma_fundamental_div_mod(y, d);
    vstd::arithmetic::div_mod::lemma_mod_bound(x, d);
    vstd::arithmetic::div_mod::lemma_mod_bound(y, d);
    let q = x / d + y / d;
    assert(x + y == d * q + (x % d + y % d)) by (nonlinear_arith)
        requires
            x == d * (x / d) + x % d,
            y == d * (y / d) + y % d,
            q == x / d + y / d,
    ;
    assert(d * q <= x + y);
    assert((d * q) / d <= (x + y) / d) by {
        lemma_div_is_ordered(d * q, x + y, d);
    }
    lemma_div_multiples_vanish(q, d);
}

/// The quotient of a sum exceeds the sum of the quotients by at most one.
pub proof fn lemma_div_sum_upper(x: int, y: int, d: int)
    requires
        0 <= x,
        0 <= y,
        0 < d,
    ensures
        (x + y) / d <= x / d + y / d + 1,
{
    vstd::arithmetic::div_mod::lemma_fundamental_div_mod(x, d);
    vstd::arithmetic::div_mod::lemma_fundamental_div_mod(y, d);
    vstd::arithmetic::div_mod::lemma_mod_bound(x, d);
    vstd::arithmetic::div_mod::lemma_mod_bound(y, d);
    let q = x / d + y / d + 1;
    assert(x + y < d * q + d) by (nonlinear_arith)
        requires
            x == d * (x / d) + x % d,
            y == d * (y / d) + y % d,
            x % d < d,
            y % d < d,
            q == x / d + y / d + 1,
    ;
    assert(d * q + d == d * (q + 1)) by (nonlinear_arith);
    vstd::arithmetic::div_mod::lemma_multiply_divide_lt(x + y, d, q + 1);
}

/// Division by a larger positive denominator gives a quotient at most as
/// large (non-negative numerator).
pub proof fn lemma_div_denom_le(x: int, d1: int, d2: int)
    requires
        0 <= x,
        0 < d1 <= d2,
    ensures
        x / d2 <= x / d1,
{
    vstd::arithmetic::div_mod::lemma_div_is_ordered_by_denominator(x, d1, d2);
}

/// Fixed-point multiplication, truncating toward zero.
pub fn mul_fp(a: i64, b: i64) -> (r: i64)
    requires
        a > i64::MIN,
        b > i64::MIN,
        fp_abs(a as int) * fp_abs(b as int) <= i64::MAX as int * (SCALE as int),
    ensures
        r == fp_mul(a as int, b as int),
{
    let neg: bool = (a < 0) != (b < 0);
    let aa: u64 = if a < 0 {
        (-a) as u64
    } else {
        a as u64
    };
    let ab: u64 = if b < 0 {
        (-b) as u64
    } else {
        b as u64
    };
    let p: u128 = (aa as u128) * (ab as u128);
    proof {
        lemma_abs_mul(a as int, b as int);
        assert(p == fp_abs(a as int) * fp_abs(b as int)) by (nonlinear_arith)
            requires
                aa == fp_abs(a as int),
                ab == fp_abs(b as int),
                p == (aa as u128) * (ab as u128),
        ;
    }
    let q: u128 = p / (SCALE as u128);
    proof {
        let s = SCALE as int;
        lemma_div_is_ordered(p as int, i64::MAX as int * s, s);
        lemma_div_multiples_vanish(i64::MAX as int, s);
        assert(i64::MAX as int * s == s * (i64::MAX as int)) by (nonlinear_arith);
        lemma_div_pos_is_pos(p as int, s);
    }
    let qi: i64 = q as i64;
    if neg {
        proof {
            let s = SCALE as int;
            if a as int * b as int >= 0 {
                // one operand must be zero, so the product and quotient are zero
                assert(a as int * b as int == 0) by (nonlinear_arith)
                    requires
                        (a < 0) != (b < 0),
                        a as int * b as int >= 0,
                ;
                assert(fp_abs(a as int * b as int) == 0);
                lemma_abs_mul(a as int, b as int);
                assert(p == 0);
                assert(q == 0);
                assert(0int / s == 0) by {
                    vstd::arithmetic::div_mod::lemma_div_of0(s);
                }
            } else {
                lemma_abs_mul(a as int, b as int);
                assert(fp_mul(a as int, b as int) == -((-(a as int * b as int)) / s));
                assert(-(a as int * b as int) == p);
            }
        }
        -qi
    } else {
        proof {
            let s = SCALE as int;
            assert(a as int * b as int >= 0) by (nonlinear_arith)
                requires
                    (a < 0) == (b < 0),
                    a > i64::MIN,
                    b > i64::MIN,
            ;
            lemma_abs_mul(a as int, b as int);
            assert(a as int * b as int == p);
        }
        qi
    }
}

/// `a * b / d`, truncated toward zero, for a non-negative factor `b` and a
/// positive divisor `d`.
pub fn mul_div_trunc(a: i64, b: i64, d: i64) -> (r: i64)
    requires
        a > i64::MIN,
        0 <= b,
        0 < d,
        fp_abs(a as int) * (b as int) / (d as int) <= i64::MAX as int,
    ensures
        r == div_trunc(a as int * b as int, d as int),
{
    let neg: bool = a < 0;
    let aa: u64 = if a < 0 {
        (-a) as u64
    } else {
        a as u64
    };
    proof {
        assert((aa as int) * (b as int) <= (u64::MAX as int) * (u64::MAX as int)) by (nonlinear_arith)
            requires
                (aa as int) <= (u64::MAX as int),
                0 <= (b as int) <= (u64::MAX as int),
        ;
    }
    let p: u128 = (aa as u128) * (b as u128);
    proof {
        lemma_abs_mul(a as int, b as int);
        assert(p == fp_abs(a as int) * (b as int)) by (nonlinear_arith)
            requires
                aa == fp_abs(a as int),
                0 <= b,
                p == (aa as u128) * (b as u128),
        ;
    }
    let q: u128 = p / (d as u128);
    proof {
        lemma_div_pos_is_pos(p as int, d as int);
    }
    let qi: i64 = q as i64;
    if neg {
        proof {
            let ab = a as int * b as int;
            if ab >= 0 {
                assert(a as int * b as int <= 0) by (nonlinear_arith)
                    requires
                        (a as int) < 0,
                        0 <= (b as int),
                ;
                assert(ab == 0);
                assert(p == 0);
                assert(0int / (d as int) == 0) by {
                    vstd::arithmetic::div_mod::lemma_div_of0(d as int);
                }
            } else {
                assert(-ab == p);
            }
        }
        -qi
    } else {
        proof {
            assert(a as int * b as int >= 0) by (nonlinear_arith)
                requires
                    a >= 0,
                    0 <= b,
            ;
            assert(a as int * b as int == p);
        }
        qi
    }
}

} // verus!
