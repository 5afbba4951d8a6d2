//! Rejection sampling of points inside the unit sphere and unit disc.

use crate::fixed::{add64, sub64, ONE};
use crate::rng::rand_unit;
use crate::vecmath::{in_bounds_s, sq_len_s, SpecVec3, Vec3};
use vstd::prelude::*;

verus! {

/// A point strictly inside the unit sphere, components within one unit.
pub open spec fn sample_ok_s(v: SpecVec3) -> bool {
    &&& in_bounds_s(v, ONE as int)
    &&& sq_len_s(v) < ONE as int
}

/// A point strictly inside the unit disc of the `x`-`y` plane.
pub open spec fn disc_sample_ok_s(v: SpecVec3) -> bool {
    &&& sample_ok_s(v)
    &&& v.z == 0
}

/// One coordinate draw: uniform in `[-1, 1)`, as `2 u - 1` for a unit
/// draw `u`.
fn sample_coord(rng: &mut rand::rngs::StdRng) -> (r: i64)
    ensures
        -(ONE as int) <= r as int <= ONE as int,
{
    let u: i64 = rand_unit(rng);
    sub64(add64(u, u), ONE)
}

impl Vec3 {
    /// A random point inside the unit sphere, by rejection: draw in the
    /// cube `[-1, 1)^3` until the squared length is below one.  The
    /// number of attempts is capped; if every draw is rejected (which a
    /// generator is vanishingly unlikely to do) the centre is used.
    pub fn random_in_unit_sphere(rng: &mut rand::rngs::StdRng) -> (r: Vec3)
        ensures
            sample_ok_s(r@),
    {
        let mut attempts: usize = 0;
        while attempts < 64
            invariant
                true,
            decreases 64 - attempts,
        {
            let p = Vec3::new(sample_coord(rng), sample_coord(rng), sample_coord(rng));
            proof {
                crate::vecmath::lemma_dot_range(p@, p@, ONE as int, ONE as int);
            }
            if p.squared_len() < ONE {
                return p;
            }
            attempts = attempts + 1;
        }
        proof {
            crate::vecmath::lemma_dot_range(
                (Vec3 { x: 0i64, y: 0i64, z: 0i64 })@,
                (Vec3 { x: 0i64, y: 0i64, z: 0i64 })@,
                0,
                0,
            );
        }
        Vec3::new(0, 0, 0)
    }

    /// A random point inside the unit disc, by the same rejection
    /// scheme in two dimensions.
    pub fn random_in_unit_disc(rng: &mut rand::rngs::StdRng) -> (r: Vec3)
        ensures
            disc_sample_ok_s(r@),
    {
        let mut attempts: usize = 0;
        while attempts < 64
            invariant
                true,
            decreases 64 - attempts,
        {
            let p = Vec3::new(sample_coord(rng), sample_coord(rng), 0);
            proof {
                crate::vecmath::lemma_dot_range(p@, p@, ONE as int, ONE as int);
            }
            if p.squared_len() < ONE {
                return p;
            }
            attempts = attempts + 1;
        }
        proof {
            crate::vecmath::lemma_dot_range(
                (Vec3 { x: 0i64, y: 0i64, z: 0i64 })@,
                (Vec3 { x: 0i64, y: 0i64, z: 0i64 })@,
                0,
                0,
            );
        }
        Vec3::new(0, 0, 0)
    }
}

} // verus!
