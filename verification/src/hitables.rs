//! Geometry: hit records, spheres, and the aggregate of everything a
//! ray can strike.

use crate::fixed::{
    floor_div_i128, fmul, fmul_s, fdiv_s, lemma_fmul_range, lemma_neg_div_le, lemma_sqrt_is, lemma_sqrt_s_props, sqrt_s, sub64, SCALE,
};
use crate::materials::Material;
use crate::ray::{at_s, ray_ok_s, Ray, SpecRay, COORD_LIMIT, T_LIMIT};
use crate::vecmath::{
    div_s, dot_s, in_bounds_s, lemma_div_range, lemma_dot_range, lemma_scale_range, sq_len_s, sub_s, SpecVec3, Vec3,
};
use vstd::arithmetic::div_mod::{lemma_div_is_ordered, lemma_div_pos_is_pos};
use vstd::prelude::*;

verus! {

/// Bound on the coordinates of a hit point: the far window limit times
/// the coordinate limit, with room to spare.
pub const POINT_LIMIT: i64 = 2_000_000_000_000_000;

/// Bound on the components of a surface normal a material accepts:
/// ten units, ample for the unit-length normals geometry produces.
pub const NORMAL_LIMIT: i64 = 10_000_000;

/// Smallest admitted sphere radius, a thousandth of a unit.
pub const RADIUS_MIN: i64 = 1_000;

/// The mathematical image of a hit record.
pub struct SpecHitRecord {
    pub t: int,
    pub p: SpecVec3,
    pub normal: SpecVec3,
    pub material: Material,
}

/// Data of an intersection between a ray and a surface: the parameter
/// along the ray, the point struck, the outward normal there, and the
/// material of the surface.
#[derive(Clone, Copy, Debug, PartialEq, Eq, Structural)]
pub struct HitRecord {
    pub t: i64,
    pub p: Vec3,
    pub normal: Vec3,
    pub material: Material,
}

impl View for HitRecord {
    type V = SpecHitRecord;

    open spec fn view(&self) -> SpecHitRecord {
        SpecHitRecord { t: self.t as int, p: self.p@, normal: self.normal@, material: self.material }
    }
}

/// A record whose point and normal are small enough for the material
/// arithmetic; the integrator checks this before scattering.
pub open spec fn rec_bounds_ok_s(h: SpecHitRecord) -> bool {
    &&& in_bounds_s(h.p, POINT_LIMIT as int)
    &&& in_bounds_s(h.normal, NORMAL_LIMIT as int)
}

/// Decide `rec_bounds_ok_s` at run time.
pub fn rec_bounds_check(rec: &HitRecord) -> (b: bool)
    ensures
        b == rec_bounds_ok_s(rec@),
{
    let p = rec.get_p();
    let n = rec.get_normal();
    -POINT_LIMIT <= p.x && p.x <= POINT_LIMIT && -POINT_LIMIT <= p.y && p.y <= POINT_LIMIT
        && -POINT_LIMIT <= p.z && p.z <= POINT_LIMIT && -NORMAL_LIMIT <= n.x && n.x <= NORMAL_LIMIT
        && -NORMAL_LIMIT <= n.y && n.y <= NORMAL_LIMIT && -NORMAL_LIMIT <= n.z && n.z
        <= NORMAL_LIMIT
}

impl HitRecord {
    pub fn new(t: i64, p: Vec3, normal: Vec3, material: Material) -> (r: HitRecord)
        ensures
            r@ == (SpecHitRecord { t: t as int, p: p@, normal: normal@, material }),
    {
        HitRecord { t, p, normal, material }
    }

    pub fn get_t(&self) -> (r: i64)
        ensures
            r as int == self@.t,
    {
        self.t
    }

    pub fn get_p(&self) -> (r: Vec3)
        ensures
            r@ == self@.p,
    {
        self.p
    }

    pub fn get_normal(&self) -> (r: Vec3)
        ensures
            r@ == self@.normal,
    {
        self.normal
    }

    pub fn get_material(&self) -> (r: Material)
        ensures
            r == self@.material,
    {
        self.material
    }

    /// Scatter the incoming ray off this record's material.
    pub fn scatter(
        &self,
        r_in: &Ray,
        attenuation: &mut Vec3,
        scattered: &mut Ray,
        rng: &mut rand::rngs::StdRng,
    ) -> (b: bool)
        requires
            crate::ray::ray_ok_s(r_in@),
            rec_bounds_ok_s(self@),
            crate::materials::material_ok_s(self@.material),
        ensures
            crate::materials::scatter_post_s(
                self@.material,
                r_in@,
                self@,
                final(attenuation)@,
                final(scattered)@,
                b,
            ),
    {
        let m = self.material;
        m.scatter(r_in, self, attenuation, scattered, rng)
    }
}

/// The mathematical image of a sphere.
pub struct SpecSphere {
    pub center: SpecVec3,
    pub radius: int,
    pub material: Material,
}

/// A sphere with a centre, a radius and a material.
#[derive(Clone, Copy, Debug, PartialEq, Eq, Structural)]
pub struct Sphere {
    pub center: Vec3,
    pub radius: i64,
    pub material: Material,
}

impl View for Sphere {
    type V = SpecSphere;

    open spec fn view(&self) -> SpecSphere {
        SpecSphere { center: self.center@, radius: self.radius as int, material: self.material }
    }
}

/// A sphere the tracer can work with: centre within the coordinate
/// limit and a positive radius that registers in the representation.
pub open spec fn sphere_ok_s(s: SpecSphere) -> bool {
    &&& in_bounds_s(s.center, COORD_LIMIT as int)
    &&& RADIUS_MIN as int <= s.radius <= COORD_LIMIT as int
}

impl Sphere {
    pub fn new(center: Vec3, radius: i64, material: Material) -> (r: Sphere)
        ensures
            r@ == (SpecSphere { center: center@, radius: radius as int, material }),
    {
        Sphere { center, radius, material }
    }
}

/// Squared length of the ray direction: the quadratic coefficient.
pub open spec fn sphere_a_s(r: SpecRay) -> int {
    sq_len_s(r.direction)
}

/// The linear coefficient: `dot(origin - center, direction)`.
pub open spec fn sphere_b_s(s: SpecSphere, r: SpecRay) -> int {
    dot_s(sub_s(r.origin, s.center), r.direction)
}

/// The constant coefficient: `dot(oc, oc) - radius^2`.
pub open spec fn sphere_c_s(s: SpecSphere, r: SpecRay) -> int {
    dot_s(sub_s(r.origin, s.center), sub_s(r.origin, s.center)) - fmul_s(s.radius, s.radius)
}

/// The half-angle discriminant `b^2 - a c`, in the representation.
pub open spec fn sphere_delta_s(s: SpecSphere, r: SpecRay) -> int {
    (sphere_b_s(s, r) * sphere_b_s(s, r) - sphere_a_s(r) * sphere_c_s(s, r)) / (SCALE as int)
}

/// The near intersection root `(-b - sqrt(delta)) / a`.
pub open spec fn sphere_t_near_s(s: SpecSphere, r: SpecRay) -> int {
    fdiv_s(-sphere_b_s(s, r) - sqrt_s(sphere_delta_s(s, r) * (SCALE as int)), sphere_a_s(r))
}

/// The far intersection root `(-b + sqrt(delta)) / a`.
pub open spec fn sphere_t_far_s(s: SpecSphere, r: SpecRay) -> int {
    fdiv_s(-sphere_b_s(s, r) + sqrt_s(sphere_delta_s(s, r) * (SCALE as int)), sphere_a_s(r))
}

/// The record produced when a sphere is struck at parameter `t`: the
/// point along the ray, and the outward normal `(p - center) / radius`.
pub open spec fn sphere_rec_s(s: SpecSphere, r: SpecRay, t: int) -> SpecHitRecord {
    SpecHitRecord {
        t,
        p: at_s(r, t),
        normal: div_s(sub_s(at_s(r, t), s.center), s.radius),
        material: s.material,
    }
}

/// The whole intersection query: a record exactly when the discriminant
/// is positive and a root lies strictly inside the window, the near
/// root taking precedence.
pub open spec fn sphere_hit_s(s: SpecSphere, r: SpecRay, t_min: int, t_max: int) -> Option<
    SpecHitRecord,
> {
    if sphere_delta_s(s, r) > 0 {
        if t_min < sphere_t_near_s(s, r) < t_max {
            Some(sphere_rec_s(s, r, sphere_t_near_s(s, r)))
        } else if t_min < sphere_t_far_s(s, r) < t_max {
            Some(sphere_rec_s(s, r, sphere_t_far_s(s, r)))
        } else {
            None
        }
    } else {
        None
    }
}

/// A trait implemented by things that can be hit by a ray.  The
/// implementor supplies the mathematical query `hit_s` and the inputs
/// `hit_req` it is defined on; `hit` must agree with the query exactly.
pub trait Hitable: Sized {
    spec fn hit_req(&self, r: SpecRay, t_min: int, t_max: int) -> bool;

    spec fn hit_s(&self, r: SpecRay, t_min: int, t_max: int) -> Option<SpecHitRecord>;

    fn hit(&self, r: &Ray, t_min: i64, t_max: i64, rec: &mut HitRecord) -> (b: bool)
        requires
            self.hit_req(r@, t_min as int, t_max as int),
        ensures
            b == self.hit_s(r@, t_min as int, t_max as int).is_some(),
            b ==> final(rec)@ == self.hit_s(r@, t_min as int, t_max as int).unwrap(),
            !b ==> *final(rec) == *old(rec),
    ;
}

impl Hitable for Sphere {
    open spec fn hit_req(&self, r: SpecRay, t_min: int, t_max: int) -> bool {
        &&& sphere_ok_s(self@)
        &&& ray_ok_s(r)
        &&& 0 <= t_min
        &&& t_max <= T_LIMIT as int
    }

    open spec fn hit_s(&self, r: SpecRay, t_min: int, t_max: int) -> Option<SpecHitRecord> {
        sphere_hit_s(self@, r, t_min, t_max)
    }

    /// Solve the quadratic `|origin + t * direction - center| = radius`
    /// for the nearest admissible `t` and fill in the record.
    fn hit(&self, r: &Ray, t_min: i64, t_max: i64, rec: &mut HitRecord) -> (b: bool) {
        let origin = r.get_origin();
        let dir = r.get_direction();
        proof {
            lemma_dot_range(r@.direction, r@.direction, COORD_LIMIT as int, COORD_LIMIT as int);
            lemma_dot_range(
                sub_s(r@.origin, self@.center),
                r@.direction,
                2 * COORD_LIMIT as int,
                COORD_LIMIT as int,
            );
            lemma_dot_range(
                sub_s(r@.origin, self@.center),
                sub_s(r@.origin, self@.center),
                2 * COORD_LIMIT as int,
                2 * COORD_LIMIT as int,
            );
            lemma_fmul_range(self@.radius, self@.radius, COORD_LIMIT as int, COORD_LIMIT as int);
        }
        let oc = origin.sub(self.center);
        let a: i64 = dir.dot(dir);
        let b: i64 = oc.dot(dir);
        let c: i64 = sub64(oc.dot(oc), fmul(self.radius, self.radius));
        proof {
            assert(0 <= (b as int) * (b as int) <= 49_000_000_000_000_000_000_000_000
                && -56_000_000_000_000_000_000_000_000 <= (a as int) * (c as int)
                    <= 56_000_000_000_000_000_000_000_000
                && -110_000_000_000_000_000_000_000_000 <= (b as int) * (b as int) - (a as int)
                * (c as int) <= 110_000_000_000_000_000_000_000_000) by (nonlinear_arith)
                requires
                    -7_000_000_000_000 <= b as int <= 7_000_000_000_000,
                    -4_000_000_000_000 <= a as int <= 4_000_000_000_000,
                    -14_000_000_000_000 <= c as int <= 14_000_000_000_000,
            ;
        }
        let num: i128 = (b as i128) * (b as i128) - (a as i128) * (c as i128);
        let delta: i128 = floor_div_i128(num, SCALE as i128);
        if delta > 0 {
            proof {
                lemma_div_is_ordered(num as int, 110_000_000_000_000_000_000_000_000, SCALE as int);
            }
            let nsq: u128 = (delta as u128) * (SCALE as u128);
            let sd128: u128 = crate::fixed::isqrt_u128(nsq);
            proof {
                assert(sd128 < 0x1_0000_0000_0000) by (nonlinear_arith)
                    requires
                        sd128 as int * sd128 as int <= nsq as int,
                        nsq as int <= 110_000_000_000_000_000_000_000_000,
                ;
                lemma_sqrt_is(nsq as int, sd128 as int);
            }
            let sd: i64 = sd128 as i64;
            let t1: i128 = floor_div_i128(
                ((-(b as i128)) - (sd as i128)) * (SCALE as i128),
                a as i128,
            );
            proof {
                lemma_sphere_root_in64(self@, r@);
            }
            if (t_min as i128) < t1 && t1 < (t_max as i128) {
                let t: i64 = t1 as i64;
                self.fill_record(r, t, rec);
                return true;
            }
            let t2: i128 = floor_div_i128(
                ((-(b as i128)) + (sd as i128)) * (SCALE as i128),
                a as i128,
            );
            if (t_min as i128) < t2 && t2 < (t_max as i128) {
                let t: i64 = t2 as i64;
                self.fill_record(r, t, rec);
                return true;
            }
            false
        } else {
            false
        }
    }
}

impl Sphere {
    /// Fill the record for an accepted root: the struck point and the
    /// outward normal `(p - center) / radius`.
    fn fill_record(&self, r: &Ray, t: i64, rec: &mut HitRecord)
        requires
            sphere_ok_s(self@),
            ray_ok_s(r@),
            0 <= t <= T_LIMIT,
        ensures
            final(rec)@ == sphere_rec_s(self@, r@, t as int),
    {
        proof {
            lemma_scale_range(r@.direction, t as int, COORD_LIMIT as int, T_LIMIT as int);
            lemma_div_range(
                sub_s(at_s(r@, t as int), self@.center),
                self@.radius,
                1_000_000_000_000_001 + 2 * COORD_LIMIT as int,
                RADIUS_MIN as int,
            );
        }
        let p = r.point_at_parameter(t);
        let pc = p.sub(self.center);
        let normal = pc.div(self.radius);
        *rec = HitRecord { t, p, normal, material: self.material };
    }
}

/// A HitableList contains a list of all the objects that can be hit.
pub struct HitableList {
    pub list: Vec<Sphere>,
}

impl View for HitableList {
    type V = Seq<SpecSphere>;

    open spec fn view(&self) -> Seq<SpecSphere> {
        self.list@.map_values(|s: Sphere| s@)
    }
}

/// Every member is a sphere the tracer can work with.
pub open spec fn world_ok_s(ss: Seq<SpecSphere>) -> bool {
    forall|i: int| 0 <= i < ss.len() ==> sphere_ok_s(#[trigger] ss[i])
}

/// The aggregate query after the first `k` members: each accepted hit
/// shrinks the upper bound of the window, so later members can only
/// replace the result with a strictly closer intersection.
pub open spec fn world_hit_prefix_s(
    ss: Seq<SpecSphere>,
    r: SpecRay,
    t_min: int,
    t_max: int,
    k: int,
) -> Option<SpecHitRecord>
    decreases k,
{
    if k <= 0 {
        None
    } else {
        let prev = world_hit_prefix_s(ss, r, t_min, t_max, k - 1);
        let bound = if prev.is_some() {
            prev.unwrap().t
        } else {
            t_max
        };
        match sphere_hit_s(ss[k - 1], r, t_min, bound) {
            Some(h) => Some(h),
            None => prev,
        }
    }
}

/// The aggregate query over the whole list.
pub open spec fn world_hit_s(ss: Seq<SpecSphere>, r: SpecRay, t_min: int, t_max: int) -> Option<
    SpecHitRecord,
> {
    world_hit_prefix_s(ss, r, t_min, t_max, ss.len() as int)
}

/// Decide `sphere_ok_s` at run time.
pub fn sphere_check(s: &Sphere) -> (b: bool)
    ensures
        b == sphere_ok_s(s@),
{
    let c = s.center;
    -COORD_LIMIT <= c.x && c.x <= COORD_LIMIT && -COORD_LIMIT <= c.y && c.y <= COORD_LIMIT
        && -COORD_LIMIT <= c.z && c.z <= COORD_LIMIT && RADIUS_MIN <= s.radius && s.radius
        <= COORD_LIMIT
}

impl HitableList {
    /// Decide `world_ok_s` at run time.
    pub fn world_check(&self) -> (b: bool)
        ensures
            b == world_ok_s(self@),
    {
        let n: usize = self.list.len();
        let mut i: usize = 0;
        while i < n
            invariant
                n == self.list.len(),
                i <= n,
                forall|k: int| 0 <= k < i ==> sphere_ok_s(#[trigger] self@[k]),
            decreases n - i,
        {
            proof {
                assert(self@[i as int] == self.list[i as int]@);
            }
            if !sphere_check(&self.list[i]) {
                return false;
            }
            i = i + 1;
        }
        true
    }

    /// Checks whether the ray hit something in the list, keeping the
    /// nearest accepted intersection.
    pub fn hit_list(&self, r: &Ray, t_min: i64, t_max: i64, rec: &mut HitRecord) -> (b: bool)
        requires
            world_ok_s(self@),
            ray_ok_s(r@),
            0 <= t_min,
            t_max <= T_LIMIT,
        ensures
            b == world_hit_s(self@, r@, t_min as int, t_max as int).is_some(),
            b ==> final(rec)@ == world_hit_s(self@, r@, t_min as int, t_max as int).unwrap(),
            !b ==> *final(rec) == *old(rec),
    {
        let ghost ss = self@;
        let mut hit_anything = false;
        let mut closest_so_far: i64 = t_max;
        let n: usize = self.list.len();
        let mut i: usize = 0;
        while i < n
            invariant
                n == self.list.len(),
                ss == self@,
                world_ok_s(ss),
                ray_ok_s(r@),
                0 <= t_min,
                t_max <= T_LIMIT,
                i <= n,
                hit_anything == world_hit_prefix_s(ss, r@, t_min as int, t_max as int, i as int)
                    .is_some(),
                hit_anything ==> rec@ == world_hit_prefix_s(
                    ss,
                    r@,
                    t_min as int,
                    t_max as int,
                    i as int,
                ).unwrap(),
                hit_anything ==> closest_so_far as int == rec@.t,
                !hit_anything ==> *rec == *old(rec) && closest_so_far == t_max,
                closest_so_far <= t_max,
            decreases n - i,
        {
            proof {
                assert(ss[i as int] == self.list[i as int]@);
            }
            let prev_closest: i64 = closest_so_far;
            if self.list[i].hit(r, t_min, closest_so_far, rec) {
                proof {
                    let sh = sphere_hit_s(ss[i as int], r@, t_min as int, prev_closest as int);
                    assert(sh.unwrap().t < prev_closest as int);
                }
                hit_anything = true;
                closest_so_far = rec.get_t();
            }
            i = i + 1;
        }
        hit_anything
    }
}

/// Accepted hits lie strictly inside the search window.
proof fn lemma_sphere_hit_in_window(s: SpecSphere, r: SpecRay, t_min: int, t_max: int)
    ensures
        sphere_hit_s(s, r, t_min, t_max).is_some() ==> t_min < sphere_hit_s(
            s,
            r,
            t_min,
            t_max,
        ).unwrap().t < t_max,
{
}

/// Shrinking the window only hides hits that are at least as far away:
/// a hit found under a tighter upper bound is exactly the hit under the
/// full window, and if the tighter window finds nothing, any hit under
/// the full window lies beyond the tighter bound.
proof fn lemma_sphere_hit_window(s: SpecSphere, r: SpecRay, t_min: int, b: int, t_max: int)
    requires
        1 <= sphere_a_s(r),
        b <= t_max,
    ensures
        sphere_hit_s(s, r, t_min, b).is_some() ==> sphere_hit_s(s, r, t_min, t_max)
            == sphere_hit_s(s, r, t_min, b),
        sphere_hit_s(s, r, t_min, b).is_none() && sphere_hit_s(s, r, t_min, t_max).is_some()
            ==> sphere_hit_s(s, r, t_min, t_max).unwrap().t >= b,
{
    if sphere_delta_s(s, r) > 0 {
        let a = sphere_a_s(r);
        let sb = sphere_b_s(s, r);
        let sd = sqrt_s(sphere_delta_s(s, r) * (SCALE as int));
        lemma_sqrt_s_props(sphere_delta_s(s, r) * (SCALE as int));
        vstd::arithmetic::mul::lemma_mul_inequality(-sb - sd, -sb + sd, SCALE as int);
        lemma_div_is_ordered((-sb - sd) * (SCALE as int), (-sb + sd) * (SCALE as int), a);
        assert(sphere_t_near_s(s, r) <= sphere_t_far_s(s, r));
    }
}

/// The aggregate prefix query returns the record of the first member
/// achieving the minimum accepted `t` over the original window.
proof fn lemma_world_prefix_nearest(ss: Seq<SpecSphere>, r: SpecRay, t_min: int, t_max: int, k: int)
    requires
        1 <= sphere_a_s(r),
    ensures
        world_hit_prefix_s(ss, r, t_min, t_max, k).is_none() ==> forall|i: int|
            0 <= i < k ==> (#[trigger] sphere_hit_s(ss[i], r, t_min, t_max)).is_none(),
        world_hit_prefix_s(ss, r, t_min, t_max, k).is_some() ==> exists|i: int|
            0 <= i < k && #[trigger] sphere_hit_s(ss[i], r, t_min, t_max) == world_hit_prefix_s(
                ss,
                r,
                t_min,
                t_max,
                k,
            ),
        world_hit_prefix_s(ss, r, t_min, t_max, k).is_some() ==> forall|i: int|
            0 <= i < k && (#[trigger] sphere_hit_s(ss[i], r, t_min, t_max)).is_some()
                ==> world_hit_prefix_s(ss, r, t_min, t_max, k).unwrap().t <= sphere_hit_s(
                ss[i],
                r,
                t_min,
                t_max,
            ).unwrap().t,
        world_hit_prefix_s(ss, r, t_min, t_max, k).is_some() ==> t_min < world_hit_prefix_s(
            ss,
            r,
            t_min,
            t_max,
            k,
        ).unwrap().t < t_max,
    decreases k,
{
    if k > 0 {
        lemma_world_prefix_nearest(ss, r, t_min, t_max, k - 1);
        let prev = world_hit_prefix_s(ss, r, t_min, t_max, k - 1);
        let bound = if prev.is_some() {
            prev.unwrap().t
        } else {
            t_max
        };
        let cur = world_hit_prefix_s(ss, r, t_min, t_max, k);
        lemma_sphere_hit_window(ss[k - 1], r, t_min, bound, t_max);
        lemma_sphere_hit_in_window(ss[k - 1], r, t_min, bound);
        lemma_sphere_hit_in_window(ss[k - 1], r, t_min, t_max);
        let sh = sphere_hit_s(ss[k - 1], r, t_min, bound);
        if sh.is_some() {
            assert(sphere_hit_s(ss[k - 1], r, t_min, t_max) == sh);
            assert(cur == sh);
            assert forall|i: int|
                0 <= i < k && (#[trigger] sphere_hit_s(ss[i], r, t_min, t_max)).is_some() implies
                cur.unwrap().t <= sphere_hit_s(ss[i], r, t_min, t_max).unwrap().t by {
                if i < k - 1 {
                    assert(prev.is_some() ==> prev.unwrap().t <= sphere_hit_s(
                        ss[i],
                        r,
                        t_min,
                        t_max,
                    ).unwrap().t);
                }
            }
        } else {
            assert(cur == prev);
            if prev.is_some() {
                assert(sphere_hit_s(ss[k - 1], r, t_min, t_max).is_some()
                    ==> sphere_hit_s(ss[k - 1], r, t_min, t_max).unwrap().t >= bound);
            } else {
                if sphere_hit_s(ss[k - 1], r, t_min, t_max).is_some() {
                    assert(sphere_hit_s(ss[k - 1], r, t_min, t_max).unwrap().t >= t_max);
                    assert(false);
                }
            }
        }
    }
}

/// The nearest-hit law of the aggregate: over any set of spheres the
/// aggregate query returns the same record as evaluating every member
/// over the original window and selecting the minimum accepted `t`
/// (ties resolved in favour of the earliest member), and an empty world
/// never reports a hit for any ray.
pub proof fn lemma_world_hit_nearest(ss: Seq<SpecSphere>, r: SpecRay, t_min: int, t_max: int)
    requires
        1 <= sphere_a_s(r),
    ensures
        world_hit_s(ss, r, t_min, t_max).is_none() <==> (forall|i: int|
            0 <= i < ss.len() ==> (#[trigger] sphere_hit_s(ss[i], r, t_min, t_max)).is_none()),
        world_hit_s(ss, r, t_min, t_max).is_some() ==> exists|i: int|
            0 <= i < ss.len() && #[trigger] sphere_hit_s(ss[i], r, t_min, t_max) == world_hit_s(
                ss,
                r,
                t_min,
                t_max,
            ),
        world_hit_s(ss, r, t_min, t_max).is_some() ==> forall|i: int|
            0 <= i < ss.len() && (#[trigger] sphere_hit_s(ss[i], r, t_min, t_max)).is_some()
                ==> world_hit_s(ss, r, t_min, t_max).unwrap().t <= sphere_hit_s(
                ss[i],
                r,
                t_min,
                t_max,
            ).unwrap().t,
        ss.len() == 0 ==> world_hit_s(ss, r, t_min, t_max).is_none(),
{
    lemma_world_prefix_nearest(ss, r, t_min, t_max, ss.len() as int);
}

/// One component of the outward-normal law: dividing by a positive
/// radius preserves the sign, so the product with the original
/// component is nonnegative.
proof fn lemma_outward_component(dx: int, rad: int)
    requires
        rad >= 1,
    ensures
        fmul_s(fdiv_s(dx, rad), dx) >= 0,
        dx > 0 ==> fdiv_s(dx, rad) >= 0,
        dx < 0 ==> fdiv_s(dx, rad) <= -1,
        dx == 0 ==> fdiv_s(dx, rad) == 0,
{
    let s = SCALE as int;
    if dx > 0 {
        lemma_div_pos_is_pos(dx * s, rad);
        assert(fdiv_s(dx, rad) * dx >= 0) by (nonlinear_arith)
            requires
                fdiv_s(dx, rad) >= 0,
                dx > 0,
        ;
        lemma_div_pos_is_pos(fdiv_s(dx, rad) * dx, s);
    } else if dx < 0 {
        lemma_neg_div_le(dx * s, rad);
        assert(fdiv_s(dx, rad) * dx >= 0) by (nonlinear_arith)
            requires
                fdiv_s(dx, rad) <= -1,
                dx < 0,
        ;
        lemma_div_pos_is_pos(fdiv_s(dx, rad) * dx, s);
    } else {
        lemma_div_pos_is_pos(0, rad);
        vstd::arithmetic::div_mod::lemma_div_nonincreasing(0, rad);
        lemma_div_pos_is_pos(0, s);
        vstd::arithmetic::div_mod::lemma_div_nonincreasing(0, s);
    }
}

/// The outward-normal law: every record a sphere produces carries a
/// normal whose components have the same signs as `p - center`, so
/// `dot(normal, p - center) >= 0`: the normal points away from the
/// centre regardless of which side the ray came from.
pub proof fn lemma_hit_normal_outward(s: SpecSphere, r: SpecRay, t: int)
    requires
        s.radius >= 1,
    ensures
        dot_s(sphere_rec_s(s, r, t).normal, sub_s(sphere_rec_s(s, r, t).p, s.center)) >= 0,
        sub_s(sphere_rec_s(s, r, t).p, s.center).x > 0 ==> sphere_rec_s(s, r, t).normal.x >= 0,
        sub_s(sphere_rec_s(s, r, t).p, s.center).x < 0 ==> sphere_rec_s(s, r, t).normal.x < 0,
        sub_s(sphere_rec_s(s, r, t).p, s.center).y > 0 ==> sphere_rec_s(s, r, t).normal.y >= 0,
        sub_s(sphere_rec_s(s, r, t).p, s.center).y < 0 ==> sphere_rec_s(s, r, t).normal.y < 0,
        sub_s(sphere_rec_s(s, r, t).p, s.center).z > 0 ==> sphere_rec_s(s, r, t).normal.z >= 0,
        sub_s(sphere_rec_s(s, r, t).p, s.center).z < 0 ==> sphere_rec_s(s, r, t).normal.z < 0,
{
    let d = sub_s(at_s(r, t), s.center);
    lemma_outward_component(d.x, s.radius);
    lemma_outward_component(d.y, s.radius);
    lemma_outward_component(d.z, s.radius);
}

/// Two intersection queries with identical ray and bounds return
/// identical records: the geometry query is a pure function of its
/// declared inputs and independent of any global random state (the
/// query takes no generator at all).
pub proof fn lemma_hit_idempotent(
    s: SpecSphere,
    r: SpecRay,
    t_min: int,
    t_max: int,
    out1: Option<SpecHitRecord>,
    out2: Option<SpecHitRecord>,
)
    requires
        out1 == sphere_hit_s(s, r, t_min, t_max),
        out2 == sphere_hit_s(s, r, t_min, t_max),
    ensures
        out1 == out2,
{
}

/// The near and far roots of any admissible sphere query fit in the
/// 64-bit representation and frame the window comparison.
proof fn lemma_sphere_root_in64(s: SpecSphere, r: SpecRay)
    requires
        sphere_ok_s(s),
        ray_ok_s(r),
    ensures
        sphere_a_s(r) >= 1,
        -7_000_000_000_000 <= sphere_b_s(s, r) <= 7_000_000_000_000,
        -14_000_000_000_000 <= sphere_c_s(s, r) <= 14_000_000_000_000,
        sphere_a_s(r) <= 4_000_000_000_000,
{
    lemma_dot_range(r.direction, r.direction, COORD_LIMIT as int, COORD_LIMIT as int);
    lemma_dot_range(
        sub_s(r.origin, s.center),
        r.direction,
        2 * COORD_LIMIT as int,
        COORD_LIMIT as int,
    );
    lemma_dot_range(
        sub_s(r.origin, s.center),
        sub_s(r.origin, s.center),
        2 * COORD_LIMIT as int,
        2 * COORD_LIMIT as int,
    );
    lemma_fmul_range(s.radius, s.radius, COORD_LIMIT as int, COORD_LIMIT as int);
}

} // verus!
