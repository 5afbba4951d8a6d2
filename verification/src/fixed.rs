//! Scalar fixed-point arithmetic.
//!
//! A real number `x` is represented by the `i64` value `x * SCALE`,
//! rounded towards minus infinity.  Multiplication, division and square
//! root are given exact contracts over the mathematical integers:
//! `fmul` returns precisely `floor(a * b / SCALE)`, and so on.  All
//! intermediate products are taken in 128-bit arithmetic, so an
//! operation only requires that its final value fits in an `i64`.

use vstd::arithmetic::div_mod::{
    lemma_div_is_ordered, lemma_div_is_ordered_by_denominator, lemma_div_multiples_vanish,
    lemma_div_nonincreasing, lemma_div_pos_is_pos, lemma_fundamental_div_mod,
    lemma_fundamental_div_mod_converse, lemma_mod_bound,
};
use vstd::prelude::*;

verus! {

/// Number of representation units per real unit.
pub const SCALE: i64 = 1_000_000;

/// The representation of the real number one.
pub const ONE: i64 = 1_000_000;

/// The representation of one half.
pub const HALF: i64 = 500_000;

/// True when a mathematical integer fits in an `i64`.
pub open spec fn in64(x: int) -> bool {
    i64::MIN <= x <= i64::MAX
}

/// The exact value of a fixed-point product: `floor(a * b / SCALE)`.
pub open spec fn fmul_s(a: int, b: int) -> int {
    (a * b) / (SCALE as int)
}

/// The exact value of a fixed-point quotient: `floor(a * SCALE / b)`.
/// Meaningful for positive divisors only.
pub open spec fn fdiv_s(a: int, b: int) -> int
    recommends
        b > 0,
{
    (a * (SCALE as int)) / b
}

/// `r` is the integer square root of `n`.
pub open spec fn is_sqrt(n: int, r: int) -> bool {
    &&& 0 <= r
    &&& r * r <= n
    &&& n < (r + 1) * (r + 1)
}

/// The integer square root of `n`, as a function.
pub open spec fn sqrt_s(n: int) -> int {
    choose|r: int| #[trigger] is_sqrt(n, r)
}

/// The exact value of a fixed-point square root: `isqrt(x * SCALE)`.
pub open spec fn fsqrt_s(x: int) -> int {
    sqrt_s(x * (SCALE as int))
}

/// Every nonnegative integer has an integer square root.
pub proof fn lemma_sqrt_exists(n: int)
    requires
        0 <= n,
    ensures
        exists|r: int| #[trigger] is_sqrt(n, r),
    decreases n,
{
    if n == 0 {
        assert(is_sqrt(0, 0));
    } else {
        lemma_sqrt_exists(n - 1);
        let p = choose|r: int| #[trigger] is_sqrt(n - 1, r);
        if n < (p + 1) * (p + 1) {
            assert(is_sqrt(n, p));
        } else {
            assert((p + 1) * (p + 1) <= n && n < (p + 2) * (p + 2)) by (nonlinear_arith)
                requires
                    0 <= p,
                    p * p <= n - 1,
                    n - 1 < (p + 1) * (p + 1),
                    (p + 1) * (p + 1) <= n,
            ;
            assert(is_sqrt(n, p + 1));
        }
    }
}

/// The integer square root is unique, so any witness determines `sqrt_s`.
pub proof fn lemma_sqrt_is(n: int, r: int)
    requires
        is_sqrt(n, r),
    ensures
        sqrt_s(n) == r,
{
    lemma_sqrt_exists_from_witness(n, r);
    let w = choose|q: int| #[trigger] is_sqrt(n, q);
    assert(is_sqrt(n, w));
    assert(w == r) by (nonlinear_arith)
        requires
            0 <= r,
            r * r <= n,
            n < (r + 1) * (r + 1),
            0 <= w,
            w * w <= n,
            n < (w + 1) * (w + 1),
    ;
}

/// A witness shows the existential that `sqrt_s` draws from.
proof fn lemma_sqrt_exists_from_witness(n: int, r: int)
    requires
        is_sqrt(n, r),
    ensures
        exists|q: int| #[trigger] is_sqrt(n, q),
{
    assert(is_sqrt(n, r));
}

/// `sqrt_s` really is the integer square root of a nonnegative value.
pub proof fn lemma_sqrt_s_props(n: int)
    requires
        0 <= n,
    ensures
        is_sqrt(n, sqrt_s(n)),
{
    lemma_sqrt_exists(n);
}

/// A negative numerator over a positive divisor yields a quotient
/// of minus one or less.
pub proof fn lemma_neg_div_le(a: int, d: int)
    requires
        a < 0,
        0 < d,
    ensures
        a / d <= -1,
{
    lemma_fundamental_div_mod(a, d);
    lemma_mod_bound(a, d);
    if a / d >= 0 {
        assert(d * (a / d) >= 0) by (nonlinear_arith)
            requires
                d > 0,
                a / d >= 0,
        ;
    }
}

/// The floored quotient times the divisor loses less than one divisor.
pub proof fn lemma_div_mul_lower(p: int, d: int)
    requires
        0 < d,
    ensures
        d * (p / d) > p - d,
        d * (p / d) <= p,
{
    lemma_fundamental_div_mod(p, d);
    lemma_mod_bound(p, d);
}

/// A bound on the operands gives a bound on the fixed-point product.
pub proof fn lemma_fmul_range(a: int, b: int, ba: int, bb: int)
    requires
        -ba <= a <= ba,
        -bb <= b <= bb,
        0 <= ba,
        0 <= bb,
    ensures
        -((ba * bb) / (SCALE as int)) - 1 <= fmul_s(a, b) <= (ba * bb) / (SCALE as int),
{
    let s = SCALE as int;
    let m = ba * bb;
    assert(-m <= a * b <= m) by (nonlinear_arith)
        requires
            -ba <= a <= ba,
            -bb <= b <= bb,
            0 <= ba,
            0 <= bb,
            m == ba * bb,
    ;
    lemma_div_is_ordered(a * b, m, s);
    lemma_div_is_ordered(-m, a * b, s);
    lemma_div_neg_bound(m, s);
}

/// Floor division of `-m` by positive `s` is at least `-(m / s) - 1`.
proof fn lemma_div_neg_bound(m: int, s: int)
    requires
        0 <= m,
        0 < s,
    ensures
        (-m) / s >= -(m / s) - 1,
{
    lemma_fundamental_div_mod(m, s);
    lemma_mod_bound(m, s);
    let q = m / s;
    let r = m % s;
    if r == 0 {
        assert(-m == (-q) * s + 0) by (nonlinear_arith)
            requires
                m == s * q + r,
                r == 0,
        ;
        lemma_fundamental_div_mod_converse(-m, s, -q, 0);
    } else {
        assert(-m == (-q - 1) * s + (s - r)) by (nonlinear_arith)
            requires
                m == s * q + r,
        ;
        lemma_fundamental_div_mod_converse(-m, s, -q - 1, s - r);
    }
}

/// A bound on the numerator and a positive lower bound on the divisor
/// give a bound on the fixed-point quotient.
pub proof fn lemma_fdiv_range(a: int, b: int, ba: int, bmin: int)
    requires
        -ba <= a <= ba,
        0 <= ba,
        1 <= bmin <= b,
    ensures
        -((ba * (SCALE as int)) / bmin) - 1 <= fdiv_s(a, b) <= (ba * (SCALE as int)) / bmin,
{
    let s = SCALE as int;
    let m = ba * s;
    assert(-m <= a * s <= m) by (nonlinear_arith)
        requires
            -ba <= a <= ba,
            0 <= ba,
            0 < s,
            m == ba * s,
    ;
    lemma_div_pos_is_pos(m, bmin);
    if a * s >= 0 {
        lemma_div_is_ordered(a * s, m, b);
        lemma_div_is_ordered_by_denominator(m, bmin, b);
        lemma_div_pos_is_pos(a * s, b);
    } else {
        lemma_div_is_ordered(a * s, 0, b);
        lemma_div_pos_is_pos(0, b);
        lemma_div_nonincreasing(0, b);
        lemma_div_neg_bound(-(a * s), b);
        lemma_div_is_ordered_by_denominator(-(a * s), bmin, b);
        lemma_div_is_ordered(-(a * s), m, bmin);
    }
}

/// Multiplying by the representation of one changes nothing.
pub proof fn lemma_fmul_one(a: int)
    ensures
        fmul_s(a, ONE as int) == a,
        fmul_s(ONE as int, a) == a,
{
    let s = SCALE as int;
    assert(a * s == s * a) by (nonlinear_arith);
    lemma_div_multiples_vanish(a, s);
    assert(ONE as int == s);
    assert(fmul_s(a, ONE as int) == (s * a) / s);
    assert(fmul_s(ONE as int, a) == (s * a) / s);
}

/// A factor in the unit interval can only shrink a nonnegative value.
pub proof fn lemma_fmul_le(a: int, b: int)
    requires
        0 <= a <= ONE as int,
        0 <= b,
    ensures
        0 <= fmul_s(a, b) <= b,
{
    let s = SCALE as int;
    assert(0 <= a * b && a * b <= s * b) by (nonlinear_arith)
        requires
            0 <= a <= s,
            0 <= b,
    ;
    lemma_div_pos_is_pos(a * b, s);
    lemma_div_is_ordered(a * b, s * b, s);
    lemma_div_multiples_vanish(b, s);
}

/// Halving is exact: multiplying by the representation of one half is
/// Euclidean division by two.
pub proof fn lemma_fmul_half(t: int)
    ensures
        fmul_s(t, HALF as int) == t / 2,
{
    let s = SCALE as int;
    lemma_fundamental_div_mod(t, 2);
    lemma_mod_bound(t, 2);
    let q = t / 2;
    let r = t % 2;
    assert(t * (HALF as int) == q * s + r * 500_000) by (nonlinear_arith)
        requires
            t == 2 * q + r,
            s == 1_000_000,
    ;
    lemma_fundamental_div_mod_converse(t * (HALF as int), s, q, r * 500_000);
}

/// A product of nonnegative values is nonnegative.
pub proof fn lemma_fmul_nonneg(a: int, b: int)
    requires
        0 <= a,
        0 <= b,
    ensures
        0 <= fmul_s(a, b),
{
    assert(0 <= a * b) by (nonlinear_arith)
        requires
            0 <= a,
            0 <= b,
    ;
    lemma_div_pos_is_pos(a * b, SCALE as int);
}

/// A proper fraction stays below one unit in the representation.
pub proof fn lemma_fdiv_unit_interval(a: int, b: int)
    requires
        0 <= a < b,
    ensures
        0 <= fdiv_s(a, b) < SCALE as int,
{
    let s = SCALE as int;
    lemma_div_pos_is_pos(a * s, b);
    vstd::arithmetic::mul::lemma_mul_inequality(a, b - 1, s);
    assert((b - 1) * s == -s + s * b) by (nonlinear_arith);
    vstd::arithmetic::div_mod::lemma_hoist_over_denominator(-s, s, b as nat);
    lemma_neg_div_le(-s, b);
    lemma_div_is_ordered(a * s, (b - 1) * s, b);
}

/// A proper fraction of either sign stays within one unit.
pub proof fn lemma_fdiv_proper_fraction(a: int, b: int)
    requires
        -b < a < b,
        0 < b,
    ensures
        -(SCALE as int) <= fdiv_s(a, b) < SCALE as int,
{
    let s = SCALE as int;
    if a >= 0 {
        lemma_fdiv_unit_interval(a, b);
    } else {
        lemma_fdiv_unit_interval(-a, b);
        lemma_div_neg_bound(-(a * s), b);
        assert(-(a * s) == (-a) * s) by (nonlinear_arith);
        lemma_div_is_ordered(a * s, 0, b);
        lemma_div_pos_is_pos(0, b);
        lemma_div_nonincreasing(0, b);
    }
}

/// Dividing a value within a linear envelope `a * l + b` of the divisor
/// gives a quotient within `a` units and a remainder share.
pub proof fn lemma_fdiv_linear_bound(x: int, l: int, a: int, b: int)
    requires
        -(a * l + b) <= x <= a * l + b,
        1000 <= l,
        0 <= a,
        0 <= b,
    ensures
        -(a * (SCALE as int) + (b * (SCALE as int)) / 1000 + 1) <= fdiv_s(x, l) <= a * (SCALE as int)
            + (b * (SCALE as int)) / 1000 + 1,
{
    let s = SCALE as int;
    let m = (a * s) * l + b * s;
    assert(x * s <= m && -m <= x * s && 0 <= m) by (nonlinear_arith)
        requires
            -(a * l + b) <= x <= a * l + b,
            0 <= a,
            0 <= b,
            0 < s,
            0 < l,
            m == (a * s) * l + b * s,
    ;
    vstd::arithmetic::div_mod::lemma_hoist_over_denominator(b * s, a * s, l as nat);
    lemma_div_is_ordered(x * s, m, l);
    lemma_div_neg_bound(m, l);
    lemma_div_is_ordered(-m, x * s, l);
    lemma_div_is_ordered_by_denominator(b * s, 1000, l);
    lemma_div_pos_is_pos(b * s, 1000);
}

/// Floor division of a 128-bit value by a positive divisor.
pub(crate) fn floor_div_i128(p: i128, d: i128) -> (q: i128)
    requires
        -0x4000_0000_0000_0000_0000_0000_0000_0000 <= p,
        p <= 0x4000_0000_0000_0000_0000_0000_0000_0000,
        0 < d <= 0x7fff_ffff_ffff_ffff,
    ensures
        q == p as int / d as int,
{
    if p >= 0 {
        proof {
            lemma_div_nonincreasing(p as int, d as int);
            lemma_div_pos_is_pos(p as int, d as int);
        }
        let q0: u128 = (p as u128) / (d as u128);
        q0 as i128
    } else {
        let x: u128 = (-p) as u128;
        let m: u128 = (x + (d as u128) - 1) / (d as u128);
        proof {
            let pi = p as int;
            let di = d as int;
            lemma_fundamental_div_mod(pi, di);
            lemma_mod_bound(pi, di);
            let qq = pi / di;
            let r = pi % di;
            if r == 0 {
                assert(x as int + di - 1 == (-qq) * di + (di - 1)) by (nonlinear_arith)
                    requires
                        pi == di * qq + r,
                        r == 0,
                        x as int == -pi,
                ;
                lemma_fundamental_div_mod_converse(x as int + di - 1, di, -qq, di - 1);
            } else {
                assert(x as int + di - 1 == (-qq) * di + (di - r - 1)) by (nonlinear_arith)
                    requires
                        pi == di * qq + r,
                        x as int == -pi,
                ;
                lemma_fundamental_div_mod_converse(x as int + di - 1, di, -qq, di - r - 1);
            }
            // m equals -qq, which is small enough to negate within i128
            lemma_div_is_ordered(-0x4000_0000_0000_0000_0000_0000_0000_0000, pi, di);
            lemma_div_neg_bound(0x4000_0000_0000_0000_0000_0000_0000_0000, di);
            lemma_div_nonincreasing(0x4000_0000_0000_0000_0000_0000_0000_0000, di);
            lemma_div_is_ordered(pi, 0, di);
            lemma_div_pos_is_pos(0, di);
            lemma_div_nonincreasing(0, di);
        }
        -(m as i128)
    }
}

/// The product of two 64-bit values stays well inside the 128-bit range.
proof fn lemma_mul_i64_range(a: int, b: int)
    requires
        i64::MIN <= a <= i64::MAX,
        i64::MIN <= b <= i64::MAX,
    ensures
        -0x4000_0000_0000_0000_0000_0000_0000_0000 <= a * b,
        a * b <= 0x4000_0000_0000_0000_0000_0000_0000_0000,
{
    assert(-0x4000_0000_0000_0000_0000_0000_0000_0000 <= a * b <= 0x4000_0000_0000_0000_0000_0000_0000_0000)
        by (nonlinear_arith)
        requires
            -0x8000_0000_0000_0000 <= a <= 0x7fff_ffff_ffff_ffff,
            -0x8000_0000_0000_0000 <= b <= 0x7fff_ffff_ffff_ffff,
    ;
}

/// A fixed-point product carried in 128 bits, exact and never overflowing.
pub(crate) fn fmul_i128(a: i64, b: i64) -> (q: i128)
    ensures
        q == fmul_s(a as int, b as int),
        -0x1_0000_0000_0000_0000_0000_0000_0000 <= q <= 0x1_0000_0000_0000_0000_0000_0000_0000,
{
    proof {
        lemma_mul_i64_range(a as int, b as int);
        lemma_fmul_range(a as int, b as int, 0x8000_0000_0000_0000, 0x8000_0000_0000_0000);
    }
    let p: i128 = (a as i128) * (b as i128);
    floor_div_i128(p, SCALE as i128)
}

/// A 64-bit sum carried in 128 bits; only the result must fit.
pub(crate) fn add64(a: i64, b: i64) -> (r: i64)
    requires
        in64(a + b),
    ensures
        r as int == a + b,
{
    ((a as i128) + (b as i128)) as i64
}

/// A 64-bit difference carried in 128 bits; only the result must fit.
pub(crate) fn sub64(a: i64, b: i64) -> (r: i64)
    requires
        in64(a - b),
    ensures
        r as int == a - b,
{
    ((a as i128) - (b as i128)) as i64
}

/// Fixed-point multiplication: exactly `floor(a * b / SCALE)`.
pub fn fmul(a: i64, b: i64) -> (r: i64)
    requires
        in64(fmul_s(a as int, b as int)),
    ensures
        r as int == fmul_s(a as int, b as int),
{
    proof {
        lemma_mul_i64_range(a as int, b as int);
    }
    let p: i128 = (a as i128) * (b as i128);
    let q: i128 = floor_div_i128(p, SCALE as i128);
    q as i64
}

/// Fixed-point division: exactly `floor(a * SCALE / b)`, for `b > 0`.
pub fn fdiv(a: i64, b: i64) -> (r: i64)
    requires
        b > 0,
        in64(fdiv_s(a as int, b as int)),
    ensures
        r as int == fdiv_s(a as int, b as int),
{
    proof {
        lemma_mul_i64_range(a as int, SCALE as int);
    }
    let p: i128 = (a as i128) * (SCALE as i128);
    let q: i128 = floor_div_i128(p, b as i128);
    q as i64
}

/// Integer square root of a 128-bit value, by binary search.
pub(crate) fn isqrt_u128(n: u128) -> (r: u128)
    ensures
        is_sqrt(n as int, r as int),
        r <= 0xffff_ffff_ffff_ffff,
{
    let mut lo: u128 = 0;
    let mut hi: u128 = 0x1_0000_0000_0000_0000;
    proof {
        assert((n as int) < 0x1_0000_0000_0000_0000 * 0x1_0000_0000_0000_0000) by (nonlinear_arith)
            requires
                n <= u128::MAX,
        ;
    }
    while hi - lo > 1
        invariant
            lo < hi <= 0x1_0000_0000_0000_0000,
            lo * lo <= n as int,
            (n as int) < hi * hi,
        decreases hi - lo,
    {
        let mid: u128 = lo + (hi - lo) / 2;
        proof {
            assert(mid * mid <= u128::MAX) by (nonlinear_arith)
                requires
                    mid <= 0xffff_ffff_ffff_ffff,
            ;
        }
        if mid * mid <= n {
            lo = mid;
        } else {
            hi = mid;
        }
    }
    lo
}

/// Fixed-point square root: exactly `isqrt(x * SCALE)`, for `x >= 0`.
pub fn fsqrt(x: i64) -> (r: i64)
    requires
        x >= 0,
    ensures
        0 <= r,
        r as int == fsqrt_s(x as int),
        is_sqrt(x as int * (SCALE as int), r as int),
{
    let n: u128 = (x as u128) * 1_000_000;
    let r0: u128 = isqrt_u128(n);
    proof {
        assert(n as int == x as int * 1_000_000);
        assert(n as int <= 0x7fff_ffff_ffff_ffff * 1_000_000);
        assert(r0 as int * r0 as int <= n as int);
        assert(r0 < 0x8000_0000_0000) by (nonlinear_arith)
            requires
                r0 as int * r0 as int <= n as int,
                n as int <= 0x7fff_ffff_ffff_ffff * 1_000_000,
        ;
        lemma_sqrt_is(n as int, r0 as int);
    }
    r0 as i64
}

} // verus!
