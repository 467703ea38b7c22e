//! Fixed-point scalars: `i64` values carrying `FP` sub-units per 1.0.
//!
//! Division and the fixed-point product round toward zero, mirroring the
//! truncation a float-to-integer conversion performs.  The spec-level model is
//! `t_div`, truncating division, defined from Euclidean division on `int`.

use vstd::prelude::*;

verus! {

/// Number of fixed-point sub-units per 1.0.
pub const FP: i64 = 65536;

/// Truncating (round-toward-zero) division, for a positive divisor.
pub open spec fn t_div(a: int, b: int) -> int {
    if a >= 0 {
        a / b
    } else {
        -((-a) / b)
    }
}

/// Fixed-point product: `a * b` rescaled back to `FP` units, truncated.
pub open spec fn fmul(a: int, b: int) -> int {
    t_div(a * b, FP as int)
}

proof fn lemma_nonneg_div_bounds(a: int, b: int)
    requires
        a >= 0,
        b >= 1,
    ensures
        0 <= a / b <= a,
        b * (a / b) <= a,
{
    vstd::arithmetic::div_mod::lemma_fundamental_div_mod(a, b);
    vstd::arithmetic::div_mod::lemma_mod_division_less_than_divisor(a, b);
    vstd::arithmetic::div_mod::lemma_div_nonincreasing(a, b);
    vstd::arithmetic::div_mod::lemma_div_pos_is_pos(a, b);
}

/// Magnitude of an integer.
pub open spec fn iabs(a: int) -> int {
    if a >= 0 {
        a
    } else {
        -a
    }
}

/// A dividend within `b * m` of zero divides to a quotient within `m` of zero.
pub proof fn lemma_t_div_mag(a: int, b: int, m: int)
    requires
        b >= 1,
        m >= 0,
        iabs(a) <= b * m,
    ensures
        iabs(t_div(a, b)) <= m,
{
    if a >= 0 {
        vstd::arithmetic::div_mod::lemma_div_is_ordered(a, b * m, b);
        vstd::arithmetic::div_mod::lemma_div_multiples_vanish(m, b);
        lemma_nonneg_div_bounds(a, b);
    } else {
        vstd::arithmetic::div_mod::lemma_div_is_ordered(-a, b * m, b);
        vstd::arithmetic::div_mod::lemma_div_multiples_vanish(m, b);
        lemma_nonneg_div_bounds(-a, b);
    }
}

/// Bounding one factor bounds the product: `|a| <= b` gives `|a*v| <= b*|v|`.
pub proof fn lemma_mul_mag(a: int, v: int, b: int)
    requires
        iabs(a) <= b,
    ensures
        iabs(a * v) <= b * iabs(v),
        iabs(v * a) <= b * iabs(v),
{
    assert(iabs(a * v) <= b * iabs(v) && v * a == a * v) by (nonlinear_arith)
        requires
            iabs(a) <= b,
    ;
}

/// A fixed-point product with one fixed-point-sized factor keeps the other
/// factor's magnitude bound, in either argument order.
pub proof fn lemma_fmul_mag(a: int, b: int, m: int)
    requires
        iabs(a) <= FP,
        iabs(b) <= m,
        m >= 0,
    ensures
        iabs(fmul(a, b)) <= m,
        iabs(fmul(b, a)) <= m,
        iabs(a * b) <= FP * m,
        iabs(b * a) <= FP * m,
{
    lemma_mul_mag(a, b, FP as int);
    lemma_t_div_mag(a * b, FP as int, m);
    lemma_t_div_mag(b * a, FP as int, m);
}

/// Truncating division never grows the magnitude of the dividend.
pub proof fn lemma_t_div_bounds(a: int, b: int)
    requires
        b >= 1,
    ensures
        -(if a >= 0 { a } else { -a }) <= t_div(a, b) <= (if a >= 0 { a } else { -a }),
        a >= 0 ==> 0 <= t_div(a, b),
        a <= 0 ==> t_div(a, b) <= 0,
{
    if a >= 0 {
        lemma_nonneg_div_bounds(a, b);
    } else {
        lemma_nonneg_div_bounds(-a, b);
    }
}

/// Truncating division is monotone in the dividend, for a positive divisor.
pub proof fn lemma_t_div_ordered(a1: int, a2: int, b: int)
    requires
        a1 <= a2,
        b >= 1,
    ensures
        t_div(a1, b) <= t_div(a2, b),
{
    if a1 >= 0 {
        vstd::arithmetic::div_mod::lemma_div_is_ordered(a1, a2, b);
    } else if a2 <= 0 {
        vstd::arithmetic::div_mod::lemma_div_is_ordered(-a2, -a1, b);
    } else {
        lemma_nonneg_div_bounds(-a1, b);
        lemma_nonneg_div_bounds(a2, b);
    }
}

/// A dividend of at least `b * c` (all non-negative) divides to at least `c`.
pub proof fn lemma_t_div_at_least(a: int, b: int, c: int)
    requires
        b >= 1,
        c >= 0,
        a >= b * c,
    ensures
        t_div(a, b) >= c,
{
    vstd::arithmetic::div_mod::lemma_div_multiples_vanish(c, b);
    vstd::arithmetic::div_mod::lemma_div_is_ordered(b * c, a, b);
}

/// A dividend of at most `-(b * c)` divides to at most `-c`.
pub proof fn lemma_t_div_at_most_neg(a: int, b: int, c: int)
    requires
        b >= 1,
        c >= 0,
        a <= -(b * c),
    ensures
        t_div(a, b) <= -c,
{
    lemma_t_div_at_least(-a, b, c);
}

/// Truncation loses less than one divisor: `|t_div(a, b) * b - a| < b`.
pub proof fn lemma_t_div_close(a: int, b: int)
    requires
        b >= 1,
    ensures
        iabs(t_div(a, b) * b - a) < b,
{
    if a >= 0 {
        vstd::arithmetic::div_mod::lemma_fundamental_div_mod(a, b);
        vstd::arithmetic::div_mod::lemma_mod_division_less_than_divisor(a, b);
        assert((a / b) * b == b * (a / b)) by (nonlinear_arith);
    } else {
        vstd::arithmetic::div_mod::lemma_fundamental_div_mod(-a, b);
        vstd::arithmetic::div_mod::lemma_mod_division_less_than_divisor(-a, b);
        assert((-((-a) / b)) * b == -(b * ((-a) / b))) by (nonlinear_arith);
    }
}

/// Truncating division of `a * FP` by `FP` gives back `a` exactly.
pub proof fn lemma_t_div_exact(a: int, b: int)
    requires
        b >= 1,
    ensures
        t_div(a * b, b) == a,
{
    assert(a * b == b * a) by (nonlinear_arith);
    if a >= 0 {
        vstd::arithmetic::div_mod::lemma_div_multiples_vanish(a, b);
    } else {
        vstd::arithmetic::div_mod::lemma_div_multiples_vanish(-a, b);
        assert(b * (-a) == -(b * a)) by (nonlinear_arith);
    }
}

/// Executable truncating division; `r == t_div(a, b)`.
pub fn divt(a: i64, b: i64) -> (r: i64)
    requires
        b >= 1,
        a > i64::MIN,
    ensures
        r == t_div(a as int, b as int),
{
    proof {
        lemma_t_div_bounds(a as int, b as int);
    }
    if a >= 0 {
        ((a as u64) / (b as u64)) as i64
    } else {
        let neg: i64 = -a;
        -(((neg as u64) / (b as u64)) as i64)
    }
}

/// Executable fixed-point product; `r == fmul(a, b)`.
pub fn mul_fp(a: i64, b: i64) -> (r: i64)
    requires
        -0x4000_0000_0000_0000 < a * b < 0x4000_0000_0000_0000,
    ensures
        r == fmul(a as int, b as int),
{
    let p: i64 = a * b;
    divt(p, FP)
}

} // verus!
