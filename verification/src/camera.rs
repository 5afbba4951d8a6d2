//! The camera: maps normalized viewport coordinates and a lens sample
//! to a primary ray.
//!
//! The vertical field of view enters as the tangent of its half-angle,
//! already in the fixed-point representation; the trigonometry that
//! produces it from an angle in degrees is the caller's business.

use crate::fixed::{fmul, fmul_s, lemma_fmul_range, HALF, ONE};
use crate::ray::{Ray, SpecRay, COORD_LIMIT};
use crate::sampling::disc_sample_ok_s;
use crate::vecmath::{
    add_s, cross_s, in_bounds_s, lemma_dot_range, lemma_scale_range,
    lemma_unit_bounds, scale_s, sq_len_s, sub_s, unit_s, SpecVec3, Vec3,
};
use vstd::prelude::*;

verus! {

/// Bound on the viewport vectors a well-formed camera carries.
pub const CAM_VEC_LIMIT: i64 = 100_000_000_000_000;

/// Largest admitted half-angle tangent and aspect ratio, one hundred
/// units.
pub const TAN_LIMIT: i64 = 100_000_000;

/// The mathematical image of a camera.
pub struct SpecCamera {
    pub origin: SpecVec3,
    pub lower_left_corner: SpecVec3,
    pub horizontal: SpecVec3,
    pub vertical: SpecVec3,
    pub u: SpecVec3,
    pub v: SpecVec3,
    pub w: SpecVec3,
    pub lens_radius: int,
}

/// A camera, immutable once constructed from scene parameters.
#[derive(Clone, Copy, Debug, PartialEq, Eq, Structural)]
pub struct Camera {
    pub origin: Vec3,
    pub lower_left_corner: Vec3,
    pub horizontal: Vec3,
    pub vertical: Vec3,
    pub u: Vec3,
    pub v: Vec3,
    pub w: Vec3,
    pub lens_radius: i64,
}

impl View for Camera {
    type V = SpecCamera;

    open spec fn view(&self) -> SpecCamera {
        SpecCamera {
            origin: self.origin@,
            lower_left_corner: self.lower_left_corner@,
            horizontal: self.horizontal@,
            vertical: self.vertical@,
            u: self.u@,
            v: self.v@,
            w: self.w@,
            lens_radius: self.lens_radius as int,
        }
    }
}

/// The back axis of the camera basis: from the target to the eye.
pub open spec fn cam_w_s(lookfrom: SpecVec3, lookat: SpecVec3) -> SpecVec3 {
    unit_s(sub_s(lookfrom, lookat))
}

/// The right axis: perpendicular to the up hint and the back axis.
pub open spec fn cam_u_s(lookfrom: SpecVec3, lookat: SpecVec3, vup: SpecVec3) -> SpecVec3 {
    unit_s(cross_s(vup, cam_w_s(lookfrom, lookat)))
}

/// The up axis, completing the right-handed basis.
pub open spec fn cam_v_s(lookfrom: SpecVec3, lookat: SpecVec3, vup: SpecVec3) -> SpecVec3 {
    cross_s(cam_w_s(lookfrom, lookat), cam_u_s(lookfrom, lookat, vup))
}

/// A camera whose fields are small enough for ray generation.
pub open spec fn camera_ok_s(c: SpecCamera) -> bool {
    &&& in_bounds_s(c.origin, COORD_LIMIT as int)
    &&& in_bounds_s(c.lower_left_corner, CAM_VEC_LIMIT as int)
    &&& in_bounds_s(c.horizontal, CAM_VEC_LIMIT as int)
    &&& in_bounds_s(c.vertical, CAM_VEC_LIMIT as int)
    &&& in_bounds_s(c.u, 10_000_000)
    &&& in_bounds_s(c.v, 10_000_000)
    &&& in_bounds_s(c.w, 10_000_000)
    &&& 0 <= c.lens_radius <= COORD_LIMIT as int
}

/// The ray aimed from the lens sample `rd` through the viewport point
/// `(s, t)`.
pub open spec fn cam_ray_s(c: SpecCamera, s: int, t: int, rd: SpecVec3) -> SpecRay {
    let scaled = scale_s(rd, c.lens_radius);
    let offset = add_s(scale_s(c.u, scaled.x), scale_s(c.v, scaled.y));
    SpecRay {
        origin: add_s(c.origin, offset),
        direction: sub_s(
            sub_s(
                add_s(add_s(c.lower_left_corner, scale_s(c.horizontal, s)), scale_s(c.vertical, t)),
                c.origin,
            ),
            offset,
        ),
    }
}

/// A ray the camera can emit through `(s, t)`: one produced by some
/// point of the unit lens disc.
pub open spec fn cam_ray_ok_s(c: SpecCamera, s: int, t: int, ray: SpecRay) -> bool {
    exists|rd: SpecVec3| #[trigger] disc_sample_ok_s(rd) && ray == cam_ray_s(c, s, t, rd)
}

/// Decide `camera_ok_s` at run time.
pub fn camera_check(c: &Camera) -> (b: bool)
    ensures
        b == camera_ok_s(c@),
{
    vec_within(&c.origin, COORD_LIMIT) && vec_within(&c.lower_left_corner, CAM_VEC_LIMIT)
        && vec_within(&c.horizontal, CAM_VEC_LIMIT) && vec_within(&c.vertical, CAM_VEC_LIMIT)
        && vec_within(&c.u, 10_000_000) && vec_within(&c.v, 10_000_000) && vec_within(
        &c.w,
        10_000_000,
    ) && 0 <= c.lens_radius && c.lens_radius <= COORD_LIMIT
}

/// Every component within `[-b, b]`, decided at run time.
fn vec_within(v: &Vec3, b: i64) -> (r: bool)
    requires
        b >= 0,
    ensures
        r == in_bounds_s(v@, b as int),
{
    -b <= v.x && v.x <= b && -b <= v.y && v.y <= b && -b <= v.z && v.z <= b
}

impl Camera {
    /// Build the camera from eye and target positions, an up hint, the
    /// tangent of half the vertical field of view, the aspect ratio,
    /// the aperture and the focus distance.
    pub fn new(
        lookfrom: Vec3,
        lookat: Vec3,
        vup: Vec3,
        tan_half_vfov: i64,
        aspect: i64,
        aperture: i64,
        focus_dist: i64,
    ) -> (r: Camera)
        requires
            in_bounds_s(lookfrom@, COORD_LIMIT as int),
            in_bounds_s(lookat@, COORD_LIMIT as int),
            in_bounds_s(vup@, COORD_LIMIT as int),
            1 <= sq_len_s(sub_s(lookfrom@, lookat@)),
            1 <= sq_len_s(cross_s(vup@, cam_w_s(lookfrom@, lookat@))),
            0 <= tan_half_vfov <= TAN_LIMIT,
            0 <= aspect <= TAN_LIMIT,
            0 <= aperture <= COORD_LIMIT,
            0 <= focus_dist <= COORD_LIMIT,
        ensures
            r@.origin == lookfrom@,
            r@.w == cam_w_s(lookfrom@, lookat@),
            r@.u == cam_u_s(lookfrom@, lookat@, vup@),
            r@.v == cam_v_s(lookfrom@, lookat@, vup@),
            r@.lens_radius == fmul_s(aperture as int, HALF as int),
            r@.horizontal == scale_s(
                scale_s(
                    scale_s(cam_u_s(lookfrom@, lookat@, vup@), 2 * ONE as int),
                    fmul_s(aspect as int, tan_half_vfov as int),
                ),
                focus_dist as int,
            ),
            r@.vertical == scale_s(
                scale_s(scale_s(cam_v_s(lookfrom@, lookat@, vup@), 2 * ONE as int), tan_half_vfov as int),
                focus_dist as int,
            ),
            r@.lower_left_corner == sub_s(
                sub_s(
                    sub_s(
                        lookfrom@,
                        scale_s(
                            scale_s(
                                cam_u_s(lookfrom@, lookat@, vup@),
                                fmul_s(aspect as int, tan_half_vfov as int),
                            ),
                            focus_dist as int,
                        ),
                    ),
                    scale_s(
                        scale_s(cam_v_s(lookfrom@, lookat@, vup@), tan_half_vfov as int),
                        focus_dist as int,
                    ),
                ),
                scale_s(cam_w_s(lookfrom@, lookat@), focus_dist as int),
            ),
            camera_ok_s(r@),
    {
        proof {
            lemma_fmul_range(aperture as int, HALF as int, COORD_LIMIT as int, HALF as int);
            lemma_fmul_range(aspect as int, tan_half_vfov as int, TAN_LIMIT as int,
                TAN_LIMIT as int);
            lemma_dot_range(sub_s(lookfrom@, lookat@), sub_s(lookfrom@, lookat@),
                2 * COORD_LIMIT as int, 2 * COORD_LIMIT as int);
        }
        let lens_radius: i64 = fmul(aperture, HALF);
        let halfheight: i64 = tan_half_vfov;
        let halfwidth: i64 = fmul(aspect, halfheight);
        let origin = lookfrom;
        let w = lookfrom.sub(lookat).unit_vector();
        proof {
            lemma_unit_bounds(sub_s(lookfrom@, lookat@));
            crate::vecmath::lemma_cross_range(vup@, cam_w_s(lookfrom@, lookat@),
                COORD_LIMIT as int, 2 * ONE as int);
            lemma_dot_range(
                cross_s(vup@, cam_w_s(lookfrom@, lookat@)),
                cross_s(vup@, cam_w_s(lookfrom@, lookat@)),
                4_000_000_002,
                4_000_000_002,
            );
        }
        let u = vup.cross(w).unit_vector();
        proof {
            lemma_unit_bounds(cross_s(vup@, cam_w_s(lookfrom@, lookat@)));
            crate::vecmath::lemma_cross_range(cam_w_s(lookfrom@, lookat@),
                cam_u_s(lookfrom@, lookat@, vup@), 2 * ONE as int, 2 * ONE as int);
        }
        let v = w.cross(u);
        proof {
            // horizontal and corner pieces stay in range
            lemma_scale_range(cam_u_s(lookfrom@, lookat@, vup@), 2 * ONE as int, 2 * ONE as int,
                2 * ONE as int);
            lemma_scale_range(scale_s(cam_u_s(lookfrom@, lookat@, vup@), 2 * ONE as int),
                fmul_s(aspect as int, tan_half_vfov as int), 4_000_001, 10_000_000_000);
            lemma_scale_range(
                scale_s(
                    scale_s(cam_u_s(lookfrom@, lookat@, vup@), 2 * ONE as int),
                    fmul_s(aspect as int, tan_half_vfov as int),
                ),
                focus_dist as int,
                40_000_010_001,
                COORD_LIMIT as int,
            );
            lemma_scale_range(cam_v_s(lookfrom@, lookat@, vup@), 2 * ONE as int, 8_000_002,
                2 * ONE as int);
            lemma_scale_range(scale_s(cam_v_s(lookfrom@, lookat@, vup@), 2 * ONE as int),
                tan_half_vfov as int, 16_000_005, TAN_LIMIT as int);
            lemma_scale_range(
                scale_s(scale_s(cam_v_s(lookfrom@, lookat@, vup@), 2 * ONE as int),
                    tan_half_vfov as int),
                focus_dist as int,
                1_600_000_501,
                COORD_LIMIT as int,
            );
            lemma_scale_range(cam_u_s(lookfrom@, lookat@, vup@),
                fmul_s(aspect as int, tan_half_vfov as int), 2 * ONE as int, 10_000_000_000);
            lemma_scale_range(
                scale_s(cam_u_s(lookfrom@, lookat@, vup@),
                    fmul_s(aspect as int, tan_half_vfov as int)),
                focus_dist as int,
                20_000_000_001,
                COORD_LIMIT as int,
            );
            lemma_scale_range(cam_v_s(lookfrom@, lookat@, vup@), tan_half_vfov as int, 8_000_002,
                TAN_LIMIT as int);
            lemma_scale_range(
                scale_s(cam_v_s(lookfrom@, lookat@, vup@), tan_half_vfov as int),
                focus_dist as int,
                800_000_201,
                COORD_LIMIT as int,
            );
            lemma_scale_range(cam_w_s(lookfrom@, lookat@), focus_dist as int, 2 * ONE as int,
                COORD_LIMIT as int);
        }
        let horizontal = u.scale(2 * ONE).scale(halfwidth).scale(focus_dist);
        let vertical = v.scale(2 * ONE).scale(halfheight).scale(focus_dist);
        let lower_left_corner = origin
            .sub(u.scale(halfwidth).scale(focus_dist))
            .sub(v.scale(halfheight).scale(focus_dist))
            .sub(w.scale(focus_dist));
        Camera { origin, lower_left_corner, horizontal, vertical, u, v, w, lens_radius }
    }

    /// Aim a ray from a random point of the lens disc toward the
    /// viewport point `(s, t)`, producing depth-of-field blur.
    pub fn get_ray(&self, s: i64, t: i64, rng: &mut rand::rngs::StdRng) -> (r: Ray)
        requires
            camera_ok_s(self@),
            0 <= s <= ONE,
            0 <= t <= ONE,
        ensures
            cam_ray_ok_s(self@, s as int, t as int, r@),
    {
        let smp = Vec3::random_in_unit_disc(rng);
        proof {
            lemma_scale_range(smp@, self@.lens_radius, ONE as int, COORD_LIMIT as int);
        }
        let rd = smp.scale(self.lens_radius);
        proof {
            lemma_scale_range(self@.u, rd@.x, 10_000_000, 1_000_000_001);
            lemma_scale_range(self@.v, rd@.y, 10_000_000, 1_000_000_001);
            lemma_scale_range(self@.horizontal, s as int, CAM_VEC_LIMIT as int, ONE as int);
            lemma_scale_range(self@.vertical, t as int, CAM_VEC_LIMIT as int, ONE as int);
        }
        let offset = self.u.scale(rd.x).add(self.v.scale(rd.y));
        let origin = self.origin.add(offset);
        let direction = self
            .lower_left_corner
            .add(self.horizontal.scale(s))
            .add(self.vertical.scale(t))
            .sub(self.origin)
            .sub(offset);
        let r = Ray::new(origin, direction);
        proof {
            assert(disc_sample_ok_s(smp@));
            assert(r@ == cam_ray_s(self@, s as int, t as int, smp@));
        }
        r
    }
}

} // verus!
