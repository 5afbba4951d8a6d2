//! Rays: the parametric line `p(t) = origin + t * direction`.

use crate::fixed::in64;
use crate::vecmath::{add_s, in_bounds_s, scale_s, sq_len_s, SpecVec3, Vec3};
use vstd::prelude::*;

verus! {

/// Bound on the coordinates of rays and spheres the tracer works with,
/// a thousand units: large enough for any scene of this renderer, small
/// enough that every intersection intermediate fits in 128 bits.
pub const COORD_LIMIT: i64 = 1_000_000_000;

/// The far end of every search window along a ray, a million units;
/// it stands in for an unbounded upper limit.
pub const T_LIMIT: i64 = 1_000_000_000_000;

/// The mathematical image of a ray.
pub struct SpecRay {
    pub origin: SpecVec3,
    pub direction: SpecVec3,
}

/// A ray can be seen as a function `p(t) = a + t * b`, where `a` is the
/// origin and `b` the direction: a straight line, with `p(t)` the
/// position along it at parameter `t`.
#[derive(Clone, Copy, Debug, PartialEq, Eq, Structural)]
pub struct Ray {
    pub origin: Vec3,
    pub direction: Vec3,
}

impl View for Ray {
    type V = SpecRay;

    open spec fn view(&self) -> SpecRay {
        SpecRay { origin: self.origin@, direction: self.direction@ }
    }
}

/// The position along the ray at parameter `t`.
pub open spec fn at_s(r: SpecRay, t: int) -> SpecVec3 {
    add_s(r.origin, scale_s(r.direction, t))
}

/// A ray the tracer can work with: coordinates within `COORD_LIMIT`,
/// and a direction whose squared length registers in the representation
/// (degenerate directions are a caller error, never constructed by the
/// camera or by scattering).
pub open spec fn ray_ok_s(r: SpecRay) -> bool {
    &&& in_bounds_s(r.origin, COORD_LIMIT as int)
    &&& in_bounds_s(r.direction, COORD_LIMIT as int)
    &&& 1 <= sq_len_s(r.direction)
}

/// Decide `ray_ok_s` at run time: coordinate bounds first, then the
/// squared length, which the bounds keep representable.
pub fn ray_check(r: &Ray) -> (b: bool)
    ensures
        b == ray_ok_s(r@),
{
    let o = r.get_origin();
    let d = r.get_direction();
    if o.x < -COORD_LIMIT || o.x > COORD_LIMIT || o.y < -COORD_LIMIT || o.y > COORD_LIMIT || o.z
        < -COORD_LIMIT || o.z > COORD_LIMIT {
        return false;
    }
    if d.x < -COORD_LIMIT || d.x > COORD_LIMIT || d.y < -COORD_LIMIT || d.y > COORD_LIMIT || d.z
        < -COORD_LIMIT || d.z > COORD_LIMIT {
        return false;
    }
    proof {
        crate::vecmath::lemma_dot_range(d@, d@, COORD_LIMIT as int, COORD_LIMIT as int);
    }
    d.squared_len() >= 1
}

impl Ray {
    /// Create a new ray from a starting position and a direction.
    pub fn new(origin: Vec3, direction: Vec3) -> (r: Ray)
        ensures
            r@ == (SpecRay { origin: origin@, direction: direction@ }),
    {
        Ray { origin, direction }
    }

    /// Position at a certain `t` parameter.
    pub fn point_at_parameter(&self, t: i64) -> (r: Vec3)
        requires
            in64(scale_s(self@.direction, t as int).x),
            in64(scale_s(self@.direction, t as int).y),
            in64(scale_s(self@.direction, t as int).z),
            in64(at_s(self@, t as int).x),
            in64(at_s(self@, t as int).y),
            in64(at_s(self@, t as int).z),
        ensures
            r@ == at_s(self@, t as int),
    {
        self.origin.add(self.direction.scale(t))
    }

    pub fn get_origin(&self) -> (r: Vec3)
        ensures
            r@ == self@.origin,
    {
        self.origin
    }

    pub fn get_direction(&self) -> (r: Vec3)
        ensures
            r@ == self@.direction,
    {
        self.direction
    }
}

} // verus!
