//! Three-component fixed-point vectors.
//!
//! `Vec3` holds three scalars in the representation of [`crate::fixed`].
//! Its view is a `SpecVec3` of unbounded integers, and every operation
//! has an exact contract phrased with the spec-level vector functions.

use crate::fixed::{
    fdiv, fdiv_s, fmul, fmul_i128, fmul_s, fsqrt, fsqrt_s, in64, is_sqrt, lemma_div_mul_lower,
    lemma_fdiv_range, lemma_neg_div_le, lemma_sqrt_s_props, add64, sub64, ONE,
    SCALE,
};
use vstd::arithmetic::div_mod::{lemma_div_is_ordered, lemma_hoist_over_denominator};
use vstd::arithmetic::mul::lemma_mul_inequality;
use vstd::prelude::*;

verus! {

/// The mathematical image of a vector: three unbounded integers in the
/// fixed-point representation.
pub struct SpecVec3 {
    pub x: int,
    pub y: int,
    pub z: int,
}

/// A vector of three fixed-point coordinates.
#[derive(Clone, Copy, Debug, PartialEq, Eq, Structural)]
pub struct Vec3 {
    pub x: i64,
    pub y: i64,
    pub z: i64,
}

impl View for Vec3 {
    type V = SpecVec3;

    open spec fn view(&self) -> SpecVec3 {
        SpecVec3 { x: self.x as int, y: self.y as int, z: self.z as int }
    }
}

/// Component-wise sum.
pub open spec fn add_s(a: SpecVec3, b: SpecVec3) -> SpecVec3 {
    SpecVec3 { x: a.x + b.x, y: a.y + b.y, z: a.z + b.z }
}

/// Component-wise difference.
pub open spec fn sub_s(a: SpecVec3, b: SpecVec3) -> SpecVec3 {
    SpecVec3 { x: a.x - b.x, y: a.y - b.y, z: a.z - b.z }
}

/// Component-wise fixed-point product.
pub open spec fn mul_s(a: SpecVec3, b: SpecVec3) -> SpecVec3 {
    SpecVec3 { x: fmul_s(a.x, b.x), y: fmul_s(a.y, b.y), z: fmul_s(a.z, b.z) }
}

/// The vector scaled by a fixed-point factor.
pub open spec fn scale_s(a: SpecVec3, t: int) -> SpecVec3 {
    SpecVec3 { x: fmul_s(a.x, t), y: fmul_s(a.y, t), z: fmul_s(a.z, t) }
}

/// The vector divided by a positive fixed-point scalar.
pub open spec fn div_s(a: SpecVec3, t: int) -> SpecVec3
    recommends
        t > 0,
{
    SpecVec3 { x: fdiv_s(a.x, t), y: fdiv_s(a.y, t), z: fdiv_s(a.z, t) }
}

/// Fixed-point dot product.
pub open spec fn dot_s(a: SpecVec3, b: SpecVec3) -> int {
    fmul_s(a.x, b.x) + fmul_s(a.y, b.y) + fmul_s(a.z, b.z)
}

/// Fixed-point cross product.
pub open spec fn cross_s(a: SpecVec3, b: SpecVec3) -> SpecVec3 {
    SpecVec3 {
        x: fmul_s(a.y, b.z) - fmul_s(a.z, b.y),
        y: fmul_s(a.z, b.x) - fmul_s(a.x, b.z),
        z: fmul_s(a.x, b.y) - fmul_s(a.y, b.x),
    }
}

/// Squared Euclidean length.
pub open spec fn sq_len_s(a: SpecVec3) -> int {
    dot_s(a, a)
}

/// Euclidean length.
pub open spec fn len_s(a: SpecVec3) -> int {
    fsqrt_s(sq_len_s(a))
}

/// The length-normalized vector.
pub open spec fn unit_s(a: SpecVec3) -> SpecVec3 {
    div_s(a, len_s(a))
}

/// Every component lies within `[-b, b]`.
pub open spec fn in_bounds_s(a: SpecVec3, b: int) -> bool {
    &&& -b <= a.x <= b
    &&& -b <= a.y <= b
    &&& -b <= a.z <= b
}

/// Every component fits in an `i64`.
pub open spec fn in64_v(a: SpecVec3) -> bool {
    in64(a.x) && in64(a.y) && in64(a.z)
}

/// The component-wise negation.
pub open spec fn neg_s(a: SpecVec3) -> SpecVec3 {
    SpecVec3 { x: -a.x, y: -a.y, z: -a.z }
}

/// Scaling by minus one negates exactly: `-ONE` represents an integer,
/// so the flooring product loses nothing.
pub proof fn lemma_scale_neg_one(a: SpecVec3)
    ensures
        scale_s(a, -(ONE as int)) == neg_s(a),
{
    lemma_fmul_neg_one(a.x);
    lemma_fmul_neg_one(a.y);
    lemma_fmul_neg_one(a.z);
}

/// `fmul_s(x, -ONE) == -x`.
pub proof fn lemma_fmul_neg_one(x: int)
    ensures
        fmul_s(x, -(ONE as int)) == -x,
{
    let s = SCALE as int;
    assert(x * (-s) == s * (-x)) by (nonlinear_arith);
    vstd::arithmetic::div_mod::lemma_div_multiples_vanish(-x, s);
}

/// Bounded operands give a bounded dot product.
pub proof fn lemma_dot_range(a: SpecVec3, b: SpecVec3, ba: int, bb: int)
    requires
        in_bounds_s(a, ba),
        in_bounds_s(b, bb),
        0 <= ba,
        0 <= bb,
    ensures
        -3 * ((ba * bb) / (SCALE as int) + 1) <= dot_s(a, b) <= 3 * ((ba * bb) / (SCALE as int) + 1),
{
    crate::fixed::lemma_fmul_range(a.x, b.x, ba, bb);
    crate::fixed::lemma_fmul_range(a.y, b.y, ba, bb);
    crate::fixed::lemma_fmul_range(a.z, b.z, ba, bb);
}

/// Bounded operands give a bounded scaled vector.
pub proof fn lemma_scale_range(a: SpecVec3, t: int, ba: int, bt: int)
    requires
        in_bounds_s(a, ba),
        -bt <= t <= bt,
        0 <= ba,
        0 <= bt,
    ensures
        in_bounds_s(scale_s(a, t), (ba * bt) / (SCALE as int) + 1),
{
    crate::fixed::lemma_fmul_range(a.x, t, ba, bt);
    crate::fixed::lemma_fmul_range(a.y, t, ba, bt);
    crate::fixed::lemma_fmul_range(a.z, t, ba, bt);
}

/// Bounded operands give a bounded cross product.
pub proof fn lemma_cross_range(a: SpecVec3, b: SpecVec3, ba: int, bb: int)
    requires
        in_bounds_s(a, ba),
        in_bounds_s(b, bb),
        0 <= ba,
        0 <= bb,
    ensures
        in_bounds_s(cross_s(a, b), 2 * ((ba * bb) / (SCALE as int) + 1)),
{
    crate::fixed::lemma_fmul_range(a.y, b.z, ba, bb);
    crate::fixed::lemma_fmul_range(a.z, b.y, ba, bb);
    crate::fixed::lemma_fmul_range(a.z, b.x, ba, bb);
    crate::fixed::lemma_fmul_range(a.x, b.z, ba, bb);
    crate::fixed::lemma_fmul_range(a.x, b.y, ba, bb);
    crate::fixed::lemma_fmul_range(a.y, b.x, ba, bb);
}

/// A bounded vector divided by a scalar bounded below stays bounded.
pub proof fn lemma_div_range(a: SpecVec3, t: int, ba: int, tmin: int)
    requires
        in_bounds_s(a, ba),
        0 <= ba,
        1 <= tmin <= t,
    ensures
        in_bounds_s(div_s(a, t), (ba * (SCALE as int)) / tmin + 1),
{
    lemma_fdiv_range(a.x, t, ba, tmin);
    lemma_fdiv_range(a.y, t, ba, tmin);
    lemma_fdiv_range(a.z, t, ba, tmin);
}

/// The squared length is a sum of nonnegative terms.
pub proof fn lemma_sq_len_nonneg(a: SpecVec3)
    ensures
        sq_len_s(a) >= 0,
        fmul_s(a.x, a.x) >= 0,
        fmul_s(a.y, a.y) >= 0,
        fmul_s(a.z, a.z) >= 0,
{
    assert(a.x * a.x >= 0 && a.y * a.y >= 0 && a.z * a.z >= 0) by (nonlinear_arith);
    vstd::arithmetic::div_mod::lemma_div_pos_is_pos(a.x * a.x, SCALE as int);
    vstd::arithmetic::div_mod::lemma_div_pos_is_pos(a.y * a.y, SCALE as int);
    vstd::arithmetic::div_mod::lemma_div_pos_is_pos(a.z * a.z, SCALE as int);
}

/// For a vector of registering length, the normalized components stay
/// within twice the unit, and the length is at least a thousandth.
pub proof fn lemma_unit_bounds(a: SpecVec3)
    requires
        1 <= sq_len_s(a),
        sq_len_s(a) <= i64::MAX,
    ensures
        1000 <= len_s(a),
        is_sqrt(sq_len_s(a) * (SCALE as int), len_s(a)),
        in_bounds_s(unit_s(a), 2 * (ONE as int)),
        len_s(a) * len_s(a) <= sq_len_s(a) * (SCALE as int),
{
    let q = sq_len_s(a);
    let s = SCALE as int;
    let l = len_s(a);
    lemma_sqrt_s_props(q * s);
    assert(q * s >= s) by (nonlinear_arith)
        requires
            q >= 1,
            s > 0,
    ;
    assert(l >= 1000) by (nonlinear_arith)
        requires
            l >= 0,
            q * s < (l + 1) * (l + 1),
            q * s >= 1_000_000,
            s == 1_000_000,
    ;
    lemma_sq_len_nonneg(a);
    lemma_unit_component(a.x, fmul_s(a.y, a.y) + fmul_s(a.z, a.z), q, l);
    lemma_unit_component(a.y, fmul_s(a.x, a.x) + fmul_s(a.z, a.z), q, l);
    lemma_unit_component(a.z, fmul_s(a.x, a.x) + fmul_s(a.y, a.y), q, l);
    assert(fmul_s(a.x, a.x) + (fmul_s(a.y, a.y) + fmul_s(a.z, a.z)) == q);
    assert(fmul_s(a.y, a.y) + (fmul_s(a.x, a.x) + fmul_s(a.z, a.z)) == q);
    assert(fmul_s(a.z, a.z) + (fmul_s(a.x, a.x) + fmul_s(a.y, a.y)) == q);
}

/// A component contributing `fmul_s(x, x)` to a squared length `q`
/// with square root `l` is itself within `2 l - 1`.
proof fn lemma_component_within(x: int, rest: int, q: int, l: int)
    requires
        fmul_s(x, x) + rest == q,
        rest >= 0,
        l >= 1000,
        is_sqrt(q * (SCALE as int), l),
    ensures
        -(2 * l - 1) <= x <= 2 * l - 1,
{
    let s = SCALE as int;
    // x * x < (q + 1) * s
    lemma_div_mul_lower(x * x, s);
    assert(x * x < (fmul_s(x, x) + 1) * s) by (nonlinear_arith)
        requires
            s * ((x * x) / s) > x * x - s,
            fmul_s(x, x) == (x * x) / s,
            s > 0,
    ;
    // (q + 1) * s <= l * l + 2 * l + s
    assert(q * s <= l * l + 2 * l) by (nonlinear_arith)
        requires
            q * s < (l + 1) * (l + 1),
    ;
    // x * x < 4 * l * l, hence |x| <= 2l - 1
    assert(x * x < 4 * (l * l)) by (nonlinear_arith)
        requires
            x * x < (fmul_s(x, x) + 1) * s,
            fmul_s(x, x) + rest == q,
            rest >= 0,
            q * s <= l * l + 2 * l,
            l >= 1000,
            s == 1_000_000,
    ;
    assert(-(2 * l - 1) <= x <= 2 * l - 1) by (nonlinear_arith)
        requires
            x * x < 4 * (l * l),
            l >= 1000,
    ;
}

/// Every component of a vector of registering length is within twice
/// the vector's own length.
pub proof fn lemma_components_within_length(a: SpecVec3)
    requires
        1 <= sq_len_s(a),
        sq_len_s(a) <= i64::MAX,
    ensures
        1000 <= len_s(a),
        is_sqrt(sq_len_s(a) * (SCALE as int), len_s(a)),
        -(2 * len_s(a) - 1) <= a.x <= 2 * len_s(a) - 1,
        -(2 * len_s(a) - 1) <= a.y <= 2 * len_s(a) - 1,
        -(2 * len_s(a) - 1) <= a.z <= 2 * len_s(a) - 1,
{
    let q = sq_len_s(a);
    let s = SCALE as int;
    let l = len_s(a);
    lemma_sqrt_s_props(q * s);
    assert(q * s >= s) by (nonlinear_arith)
        requires
            q >= 1,
            s > 0,
    ;
    assert(l >= 1000) by (nonlinear_arith)
        requires
            l >= 0,
            q * s < (l + 1) * (l + 1),
            q * s >= 1_000_000,
            s == 1_000_000,
    ;
    lemma_sq_len_nonneg(a);
    lemma_component_within(a.x, fmul_s(a.y, a.y) + fmul_s(a.z, a.z), q, l);
    lemma_component_within(a.y, fmul_s(a.x, a.x) + fmul_s(a.z, a.z), q, l);
    lemma_component_within(a.z, fmul_s(a.x, a.x) + fmul_s(a.y, a.y), q, l);
    assert(fmul_s(a.x, a.x) + (fmul_s(a.y, a.y) + fmul_s(a.z, a.z)) == q);
    assert(fmul_s(a.y, a.y) + (fmul_s(a.x, a.x) + fmul_s(a.z, a.z)) == q);
    assert(fmul_s(a.z, a.z) + (fmul_s(a.x, a.x) + fmul_s(a.y, a.y)) == q);
}

/// One component of the normalization bound: if `x` contributes
/// `fmul_s(x, x)` to a squared length `q` with square root `l`, then
/// `x * SCALE / l` lies within twice the unit.
proof fn lemma_unit_component(x: int, rest: int, q: int, l: int)
    requires
        fmul_s(x, x) + rest == q,
        rest >= 0,
        l >= 1000,
        is_sqrt(q * (SCALE as int), l),
    ensures
        -2 * (ONE as int) <= fdiv_s(x, l) <= 2 * (ONE as int),
{
    let s = SCALE as int;
    lemma_component_within(x, rest, q, l);
    // x * s <= (2l - 1) * s and symmetrically below
    lemma_mul_inequality(x, 2 * l - 1, s);
    lemma_mul_inequality(-(2 * l - 1), x, s);
    assert((2 * l - 1) * s == -s + (2 * s) * l && (-(2 * l - 1)) * s == s + (-(2 * s)) * l)
        by (nonlinear_arith);
    lemma_hoist_over_denominator(-s, 2 * s, l as nat);
    lemma_hoist_over_denominator(s, -(2 * s), l as nat);
    lemma_neg_div_le(-s, l);
    lemma_div_is_ordered(x * s, (2 * l - 1) * s, l);
    lemma_div_is_ordered((-(2 * l - 1)) * s, x * s, l);
    vstd::arithmetic::div_mod::lemma_div_pos_is_pos(s, l);
}

impl Vec3 {
    /// Create a new Vec3.
    pub fn new(x: i64, y: i64, z: i64) -> (r: Vec3)
        ensures
            r@ == (SpecVec3 { x: x as int, y: y as int, z: z as int }),
    {
        Vec3 { x, y, z }
    }

    /// Component-wise sum.
    pub fn add(self, other: Vec3) -> (r: Vec3)
        requires
            in64_v(add_s(self@, other@)),
        ensures
            r@ == add_s(self@, other@),
    {
        Vec3 { x: add64(self.x, other.x), y: add64(self.y, other.y), z: add64(self.z, other.z) }
    }

    /// Component-wise difference.
    pub fn sub(self, other: Vec3) -> (r: Vec3)
        requires
            in64_v(sub_s(self@, other@)),
        ensures
            r@ == sub_s(self@, other@),
    {
        Vec3 { x: sub64(self.x, other.x), y: sub64(self.y, other.y), z: sub64(self.z, other.z) }
    }

    /// Component-wise fixed-point product.
    pub fn mul(self, other: Vec3) -> (r: Vec3)
        requires
            in64_v(mul_s(self@, other@)),
        ensures
            r@ == mul_s(self@, other@),
    {
        Vec3 {
            x: fmul(self.x, other.x),
            y: fmul(self.y, other.y),
            z: fmul(self.z, other.z),
        }
    }

    /// The vector scaled by a fixed-point factor.
    pub fn scale(self, t: i64) -> (r: Vec3)
        requires
            in64_v(scale_s(self@, t as int)),
        ensures
            r@ == scale_s(self@, t as int),
    {
        Vec3 { x: fmul(self.x, t), y: fmul(self.y, t), z: fmul(self.z, t) }
    }

    /// The vector divided by a positive fixed-point scalar.
    pub fn div(self, t: i64) -> (r: Vec3)
        requires
            t > 0,
            in64_v(div_s(self@, t as int)),
        ensures
            r@ == div_s(self@, t as int),
    {
        Vec3 { x: fdiv(self.x, t), y: fdiv(self.y, t), z: fdiv(self.z, t) }
    }

    /// Fixed-point dot product.
    pub fn dot(self, t: Vec3) -> (r: i64)
        requires
            in64(dot_s(self@, t@)),
        ensures
            r as int == dot_s(self@, t@),
    {
        let q1: i128 = fmul_i128(self.x, t.x);
        let q2: i128 = fmul_i128(self.y, t.y);
        let q3: i128 = fmul_i128(self.z, t.z);
        (q1 + q2 + q3) as i64
    }

    /// Fixed-point cross product.
    pub fn cross(self, t: Vec3) -> (r: Vec3)
        requires
            in64_v(cross_s(self@, t@)),
        ensures
            r@ == cross_s(self@, t@),
    {
        let x: i64 = (fmul_i128(self.y, t.z) - fmul_i128(self.z, t.y)) as i64;
        let y: i64 = (fmul_i128(self.z, t.x) - fmul_i128(self.x, t.z)) as i64;
        let z: i64 = (fmul_i128(self.x, t.y) - fmul_i128(self.y, t.x)) as i64;
        Vec3 { x, y, z }
    }

    /// Squared Euclidean length.
    pub fn squared_len(self) -> (r: i64)
        requires
            in64(sq_len_s(self@)),
        ensures
            r as int == sq_len_s(self@),
            r >= 0,
    {
        proof {
            lemma_sq_len_nonneg(self@);
        }
        self.dot(self)
    }

    /// Euclidean length.
    pub fn length(self) -> (r: i64)
        requires
            in64(sq_len_s(self@)),
        ensures
            r as int == len_s(self@),
            r >= 0,
    {
        let q: i64 = self.squared_len();
        fsqrt(q)
    }

    /// The length-normalized vector.  Undefined for vectors whose
    /// squared length does not register in the representation, so those
    /// are excluded by contract.
    pub fn unit_vector(self) -> (r: Vec3)
        requires
            1 <= sq_len_s(self@),
            in64(sq_len_s(self@)),
        ensures
            r@ == unit_s(self@),
            in_bounds_s(r@, 2 * (ONE as int)),
    {
        proof {
            lemma_unit_bounds(self@);
        }
        let l: i64 = self.length();
        Vec3 { x: fdiv(self.x, l), y: fdiv(self.y, l), z: fdiv(self.z, l) }
    }
}

} // verus!
