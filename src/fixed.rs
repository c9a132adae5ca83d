//! Saturating fixed-point arithmetic on `i64` millionths.

use vstd::prelude::*;
use vstd::arithmetic::div_mod::{lemma_div_is_ordered, lemma_div_by_multiple, lemma_div_pos_is_pos, lemma_fundamental_div_mod, lemma_fundamental_div_mod_converse, lemma_div_multiples_vanish};

verus! {

/// Fixed-point unity: a signal value of `ONE` stands for 1.0, and a time of
/// `ONE` for one second, so times are counted in microseconds.
pub const ONE: i64 = 1_000_000;

/// `v` pinned to the range of `i64`.
pub open spec fn saturate(v: int) -> int {
    if v > i64::MAX {
        i64::MAX as int
    } else if v < i64::MIN {
        i64::MIN as int
    } else {
        v
    }
}

/// Quotient rounded toward zero, as Rust's `/` computes it (`b > 0`).
pub open spec fn div_trunc(a: int, b: int) -> int {
    if a >= 0 {
        a / b
    } else {
        -((-a) / b)
    }
}

/// The remainder that goes with `div_trunc`; it has the sign of `a`.
pub open spec fn rem_trunc(a: int, b: int) -> int {
    a - b * div_trunc(a, b)
}

/// Product of two fixed-point values, rounded toward zero, saturated.
pub open spec fn mul_spec(a: int, b: int) -> int {
    saturate(div_trunc(a * b, ONE as int))
}

/// Sum of two fixed-point values, saturated.
pub open spec fn add_spec(a: int, b: int) -> int {
    saturate(a + b)
}

/// Pins a wide intermediate to the range of `i64`.
pub fn saturate_i128(v: i128) -> (r: i64)
    ensures
        r == saturate(v as int),
{
    if v > i64::MAX as i128 {
        i64::MAX
    } else if v < i64::MIN as i128 {
        i64::MIN
    } else {
        v as i64
    }
}

/// Quotient of `v` by a positive `d`, rounded toward zero.
pub fn div_trunc_i128(v: i128, d: i128) -> (r: i128)
    requires
        d > 0,
        v > i128::MIN,
    ensures
        r == div_trunc(v as int, d as int),
{
    if v >= 0 {
        v / d
    } else {
        let m: i128 = -v;
        let q: i128 = m / d;
        -q
    }
}

/// Fixed-point product, rounded toward zero and saturated.
pub fn fx_mul(a: i64, b: i64) -> (r: i64)
    ensures
        r == mul_spec(a as int, b as int),
{
    proof {
        let (x, y) = (a as int, b as int);
        assert(-0x8000_0000_0000_0000 <= x <= 0x7fff_ffff_ffff_ffff);
        assert(-0x8000_0000_0000_0000 <= y <= 0x7fff_ffff_ffff_ffff);
        assert(-0x4000_0000_0000_0000_0000_0000_0000_0000 <= x * y
            <= 0x4000_0000_0000_0000_0000_0000_0000_0000) by (nonlinear_arith)
            requires
                -0x8000_0000_0000_0000 <= x <= 0x7fff_ffff_ffff_ffff,
                -0x8000_0000_0000_0000 <= y <= 0x7fff_ffff_ffff_ffff,
        ;
    }
    let p: i128 = (a as i128) * (b as i128);
    saturate_i128(div_trunc_i128(p, ONE as i128))
}

/// Fixed-point sum, saturated.
pub fn fx_add(a: i64, b: i64) -> (r: i64)
    ensures
        r == add_spec(a as int, b as int),
{
    saturate_i128(a as i128 + b as i128)
}

/// Scaling a non-negative `c` by a fraction `w / s` of at most one neither
/// makes it negative nor larger.
pub proof fn lemma_scale_down(w: int, c: int, s: int)
    requires
        0 <= w <= s,
        0 < s,
        0 <= c,
    ensures
        0 <= w * c / s <= c,
{
    assert(0 <= w * c <= c * s) by (nonlinear_arith)
        requires
            0 <= w <= s,
            0 <= c,
    ;
    lemma_div_is_ordered(w * c, c * s, s);
    lemma_div_by_multiple(c, s);
    lemma_div_pos_is_pos(w * c, s);
}

/// Euclidean remainder of `x` by a positive `m`, which is never negative.
pub fn mod_floor(x: i64, m: i64) -> (r: i64)
    requires
        m > 0,
    ensures
        r == x % m,
        0 <= r < m,
{
    let wide: i128 = x as i128;
    if wide >= 0 {
        (wide % (m as i128)) as i64
    } else {
        let a: i128 = -wide;
        let s: i128 = a % (m as i128);
        proof {
            let (ai, mi) = (a as int, m as int);
            let q = ai / mi;
            lemma_fundamental_div_mod(ai, mi);
            if s == 0 {
                assert(x as int == (-q) * mi + 0) by (nonlinear_arith)
                    requires
                        ai == mi * q + 0,
                        x as int == -ai,
                ;
                lemma_fundamental_div_mod_converse(x as int, mi, -q, 0);
            } else {
                assert(x as int == (-q - 1) * mi + (mi - s)) by (nonlinear_arith)
                    requires
                        ai == mi * q + s,
                        x as int == -ai,
                ;
                lemma_fundamental_div_mod_converse(x as int, mi, -q - 1, mi - s);
            }
        }
        if s == 0 {
            0
        } else {
            (m as i128 - s) as i64
        }
    }
}

/// Dividing `x * ONE` by `ONE` gives `x` back.
pub proof fn lemma_div_trunc_scaled(x: int)
    ensures
        div_trunc(x * ONE, ONE as int) == x,
        div_trunc(ONE * x, ONE as int) == x,
{
    let one = ONE as int;
    assert(one * x == x * one) by (nonlinear_arith);
    if x >= 0 {
        assert(x * one >= 0) by (nonlinear_arith)
            requires
                x >= 0,
                one > 0,
        ;
        lemma_div_by_multiple(x, one);
    } else {
        assert(-(x * one) == (-x) * one) by (nonlinear_arith);
        assert(x * one < 0) by (nonlinear_arith)
            requires
                x < 0,
                one > 0,
        ;
        lemma_div_by_multiple(-x, one);
    }
}

/// A quotient rounded toward zero stays within the bounds that the
/// dividend has in units of `ONE`.
pub proof fn lemma_div_trunc_between(v: int, lo: int, hi: int)
    requires
        lo * ONE <= v <= hi * ONE,
    ensures
        lo <= div_trunc(v, ONE as int) <= hi,
{
    let one = ONE as int;
    lemma_div_multiples_vanish(hi, one);
    lemma_div_multiples_vanish(lo, one);
    lemma_div_multiples_vanish(-hi, one);
    lemma_div_multiples_vanish(-lo, one);
    assert(lo * one == one * lo && hi * one == one * hi) by (nonlinear_arith);
    assert(-(one * lo) == one * (-lo)) by (nonlinear_arith);
    assert(-(one * hi) == one * (-hi)) by (nonlinear_arith);
    if v >= 0 {
        lemma_div_pos_is_pos(v, one);
        if hi >= 0 {
            lemma_div_is_ordered(v, one * hi, one);
        }
        if lo >= 0 {
            lemma_div_is_ordered(one * lo, v, one);
        }
    } else {
        lemma_div_pos_is_pos(-v, one);
        if lo <= 0 {
            lemma_div_is_ordered(-v, one * (-lo), one);
        }
        if hi <= 0 {
            lemma_div_is_ordered(one * (-hi), -v, one);
        }
    }
}

/// Multiplying by 1.0 changes nothing, on either side.
pub proof fn lemma_mul_one(x: int)
    requires
        i64::MIN <= x <= i64::MAX,
    ensures
        mul_spec(ONE as int, x) == x,
        mul_spec(x, ONE as int) == x,
        add_spec(x, 0) == x,
{
    lemma_div_trunc_scaled(x);
}

} // verus!
