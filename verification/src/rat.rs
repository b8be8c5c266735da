//! Exact arithmetic on rational numbers given as numerator and
//! positive denominator: floor, ceiling and round-half-away-from-zero,
//! with the ordering and scaling lemmas the rasterizer needs.

use vstd::prelude::*;
use vstd::arithmetic::div_mod::{
    lemma_div_is_ordered, lemma_fundamental_div_mod, lemma_fundamental_div_mod_converse_div,
};

verus! {

/// The ceiling of num/den.
pub open spec fn rat_ceil(num: int, den: int) -> int
    recommends
        den > 0,
{
    (num + den - 1) / den
}

/// num/den rounded to the nearest integer, halves away from zero.
pub open spec fn rat_round(num: int, den: int) -> int
    recommends
        den > 0,
{
    if num >= 0 {
        (2 * num + den) / (2 * den)
    } else {
        -((2 * (-num) + den) / (2 * den))
    }
}

/// The ceiling is the least integer at or above the value:
/// (c - 1) * den < num <= c * den for c == rat_ceil(num, den).
pub proof fn lemma_rat_ceil_bounds(num: int, den: int)
    requires
        den > 0,
    ensures
        rat_ceil(num, den) * den >= num,
        (rat_ceil(num, den) - 1) * den < num,
{
    let c = rat_ceil(num, den);
    lemma_fundamental_div_mod(num + den - 1, den);
    let r = (num + den - 1) % den;
    assert(num + den - 1 == den * c + r);
    assert(den * c == c * den) by (nonlinear_arith);
    assert((c - 1) * den == c * den - den) by (nonlinear_arith);
}

/// The ceiling of the integer m (as the fraction m*den/den) is m.
pub proof fn lemma_rat_ceil_int(m: int, den: int)
    requires
        den > 0,
    ensures
        rat_ceil(m * den, den) == m,
{
    assert(m * den + den - 1 == m * den + (den - 1));
    lemma_fundamental_div_mod_converse_div(m * den + den - 1, den, m, den - 1);
}

/// Ceilings over a common denominator preserve order.
pub proof fn lemma_rat_ceil_mono(a: int, b: int, den: int)
    requires
        den > 0,
        a <= b,
    ensures
        rat_ceil(a, den) <= rat_ceil(b, den),
{
    lemma_div_is_ordered(a + den - 1, b + den - 1, den);
}

/// Round brackets the value to within half a unit:
/// 2 * num - den <= 2 * rat_round(num, den) * den <= 2 * num + den.
pub proof fn lemma_rat_round_bounds(num: int, den: int)
    requires
        den > 0,
    ensures
        2 * num - den <= 2 * rat_round(num, den) * den,
        2 * rat_round(num, den) * den <= 2 * num + den,
{
    if num >= 0 {
        let q = (2 * num + den) / (2 * den);
        lemma_fundamental_div_mod(2 * num + den, 2 * den);
        let r = (2 * num + den) % (2 * den);
        assert(2 * num + den == (2 * den) * q + r);
        assert((2 * den) * q == 2 * q * den) by (nonlinear_arith);
    } else {
        let q = (2 * (-num) + den) / (2 * den);
        lemma_fundamental_div_mod(2 * (-num) + den, 2 * den);
        let r = (2 * (-num) + den) % (2 * den);
        assert(2 * (-num) + den == (2 * den) * q + r);
        assert((2 * den) * q == 2 * q * den) by (nonlinear_arith);
        assert(2 * (-q) * den == -(2 * q * den)) by (nonlinear_arith);
    }
}

/// Rounding the integer m (as the fraction m*den/den) gives m back.
pub proof fn lemma_rat_round_int(m: int, den: int)
    requires
        den > 0,
    ensures
        rat_round(m * den, den) == m,
{
    assert((m >= 0) == (m * den >= 0)) by (nonlinear_arith)
        requires den > 0;
    if m >= 0 {
        assert(2 * (m * den) + den == m * (2 * den) + den) by (nonlinear_arith);
        lemma_fundamental_div_mod_converse_div(2 * (m * den) + den, 2 * den, m, den);
    } else {
        assert(2 * (-(m * den)) + den == (-m) * (2 * den) + den) by (nonlinear_arith);
        lemma_fundamental_div_mod_converse_div(2 * (-(m * den)) + den, 2 * den, -m, den);
    }
}

/// Rounds over a common denominator preserve order.
pub proof fn lemma_rat_round_mono(a: int, b: int, den: int)
    requires
        den > 0,
        a <= b,
    ensures
        rat_round(a, den) <= rat_round(b, den),
{
    lemma_fundamental_div_mod_converse_div(0, 2 * den, 0, 0);
    if a >= 0 {
        lemma_div_is_ordered(2 * a + den, 2 * b + den, 2 * den);
    } else if b < 0 {
        lemma_div_is_ordered(2 * (-b) + den, 2 * (-a) + den, 2 * den);
    } else {
        lemma_div_is_ordered(0, 2 * (-a) + den, 2 * den);
        lemma_div_is_ordered(0, 2 * b + den, 2 * den);
    }
}

/// Rounding is unchanged when numerator and denominator are scaled by
/// a common positive factor.
pub proof fn lemma_rat_round_scale(num: int, den: int, c: int)
    requires
        den > 0,
        c > 0,
    ensures
        rat_round(num * c, den * c) == rat_round(num, den),
{
    if num >= 0 {
        let q = (2 * num + den) / (2 * den);
        lemma_fundamental_div_mod(2 * num + den, 2 * den);
        let r = (2 * num + den) % (2 * den);
        assert(2 * num + den == (2 * den) * q + r);
        assert(num * c >= 0) by (nonlinear_arith) requires num >= 0 && c > 0;
        assert(2 * (num * c) + den * c == q * (2 * (den * c)) + r * c) by (nonlinear_arith)
            requires 2 * num + den == (2 * den) * q + r;
        assert(0 <= r * c < 2 * (den * c)) by (nonlinear_arith)
            requires c > 0 && den > 0 && 0 <= r < 2 * den;
        lemma_fundamental_div_mod_converse_div(2 * (num * c) + den * c, 2 * (den * c), q, r * c);
    } else {
        let q = (2 * (-num) + den) / (2 * den);
        lemma_fundamental_div_mod(2 * (-num) + den, 2 * den);
        let r = (2 * (-num) + den) % (2 * den);
        assert(2 * (-num) + den == (2 * den) * q + r);
        assert(num * c < 0) by (nonlinear_arith) requires num < 0 && c > 0;
        assert(2 * (-(num * c)) + den * c == q * (2 * (den * c)) + r * c) by (nonlinear_arith)
            requires 2 * (-num) + den == (2 * den) * q + r;
        assert(0 <= r * c < 2 * (den * c)) by (nonlinear_arith)
            requires c > 0 && den > 0 && 0 <= r < 2 * den;
        lemma_fundamental_div_mod_converse_div(2 * (-(num * c)) + den * c, 2 * (den * c), q, r * c);
    }
}

/// Rounding never lands above the ceiling, and never more than one
/// below it.
pub proof fn lemma_rat_round_le_ceil(num: int, den: int)
    requires
        den > 0,
    ensures
        rat_ceil(num, den) - 1 <= rat_round(num, den) <= rat_ceil(num, den),
{
    let rr = rat_round(num, den);
    let cc = rat_ceil(num, den);
    lemma_rat_round_bounds(num, den);
    lemma_rat_ceil_bounds(num, den);
    assert(2 * rr * den <= 2 * num + den);
    assert(num <= cc * den);
    assert(rr <= cc) by (nonlinear_arith)
        requires den > 0 && 2 * rr * den <= 2 * num + den && num <= cc * den;
    assert((cc - 1) * den < num);
    assert(2 * num - den <= 2 * rr * den);
    assert(cc - 1 <= rr) by (nonlinear_arith)
        requires den > 0 && (cc - 1) * den < num && 2 * num - den <= 2 * rr * den;
}

/// A value within 32768 whole units of zero has its ceiling there
/// too.
pub proof fn lemma_rat_ceil_range(num: int, den: int)
    requires
        den > 0,
        -den * 32768 <= num <= den * 32768,
    ensures
        -32768 <= rat_ceil(num, den) <= 32768,
{
    let c = rat_ceil(num, den);
    lemma_rat_ceil_bounds(num, den);
    assert(c <= 32768) by (nonlinear_arith)
        requires den > 0 && (c - 1) * den < num && num <= den * 32768;
    assert(c >= -32768) by (nonlinear_arith)
        requires den > 0 && c * den >= num && num >= -den * 32768;
}

/// Euclidean (floor) division, computed on machine integers.
pub fn floor_div_i128(num: i128, den: i128) -> (q: i128)
    requires
        den > 0,
        -0x4000_0000_0000_0000_0000_0000_0000_0000 < num
            < 0x4000_0000_0000_0000_0000_0000_0000_0000,
        den < 0x4000_0000_0000_0000_0000_0000_0000_0000,
    ensures
        q == num / den,
{
    if num >= 0 {
        num / den
    } else {
        let m = -num;
        let q0 = (m + den - 1) / den;
        proof {
            let mi = m as int;
            let di = den as int;
            let qi = q0 as int;
            lemma_fundamental_div_mod(mi + di - 1, di);
            let r = (mi + di - 1) % di;
            assert(mi + di - 1 == di * qi + r);
            assert(di * qi == qi * di) by (nonlinear_arith);
            // num == (-qi) * di + (qi * di - mi), with remainder in [0, di)
            assert((-qi) * di == -(qi * di)) by (nonlinear_arith);
            lemma_fundamental_div_mod_converse_div(num as int, di, -qi, qi * di - mi);
        }
        -q0
    }
}

/// The ceiling of num/den, computed on machine integers.
pub fn rat_ceil_i128(num: i128, den: i128) -> (c: i128)
    requires
        den > 0,
        -0x2000_0000_0000_0000_0000_0000_0000_0000 < num
            < 0x2000_0000_0000_0000_0000_0000_0000_0000,
        den < 0x2000_0000_0000_0000_0000_0000_0000_0000,
    ensures
        c == rat_ceil(num as int, den as int),
{
    floor_div_i128(num + den - 1, den)
}

/// num/den rounded half away from zero, computed on machine integers.
pub fn rat_round_i128(num: i128, den: i128) -> (r: i128)
    requires
        den > 0,
        -0x2000_0000_0000_0000_0000_0000_0000_0000 < num
            < 0x2000_0000_0000_0000_0000_0000_0000_0000,
        den < 0x2000_0000_0000_0000_0000_0000_0000_0000,
    ensures
        r == rat_round(num as int, den as int),
{
    if num >= 0 {
        (2 * num + den) / (2 * den)
    } else {
        -((2 * (-num) + den) / (2 * den))
    }
}

} // verus!
