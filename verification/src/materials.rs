//! Materials and their scattering rules.
//!
//! The three kinds are a closed set, so they form an enum rather than
//! an open trait: a hit record carries its material by value.

use crate::fixed::{
    add64, fdiv, fdiv_s, floor_div_i128, fmul, fmul_s, fsqrt_s, in64, lemma_fdiv_range,
    lemma_fmul_range, is_sqrt, sub64, ONE, SCALE,
};
use crate::hitables::{rec_bounds_ok_s, HitRecord, SpecHitRecord, NORMAL_LIMIT};
use crate::ray::{ray_ok_s, Ray, SpecRay, COORD_LIMIT};
use crate::rng::rand_unit;
use crate::sampling::sample_ok_s;
use crate::vecmath::{
    add_s, dot_s, in_bounds_s, lemma_dot_range, lemma_scale_neg_one, lemma_scale_range, lemma_unit_bounds, len_s, neg_s,
    scale_s, sq_len_s, sub_s, unit_s, SpecVec3, Vec3,
};
use vstd::arithmetic::div_mod::{lemma_div_is_ordered_by_denominator,
    lemma_div_pos_is_pos};
use vstd::prelude::*;

verus! {

/// Largest admitted refractive index, one hundred units.
pub const REF_LIMIT: i64 = 100_000_000;

/// Largest index ratio along a crossing: the reciprocal of the
/// smallest representable index.
pub const NI_LIMIT: i64 = 1_000_000_000_000;

/// A colour: every channel within the unit interval.
pub open spec fn albedo_ok_s(a: SpecVec3) -> bool {
    &&& 0 <= a.x <= ONE as int
    &&& 0 <= a.y <= ONE as int
    &&& 0 <= a.z <= ONE as int
}

/// A diffuse surface, scattering into the hemisphere of the normal.
#[derive(Clone, Copy, Debug, PartialEq, Eq, Structural)]
pub struct Lambertian {
    pub albedo: Vec3,
}

impl Lambertian {
    pub fn new(albedo: Vec3) -> (r: Lambertian)
        ensures
            r.albedo == albedo,
    {
        Lambertian { albedo }
    }
}

/// A reflecting surface, with a fuzziness that perturbs the mirror
/// direction.
#[derive(Clone, Copy, Debug, PartialEq, Eq, Structural)]
pub struct Metal {
    pub albedo: Vec3,
    pub fuzziness: i64,
}

impl Metal {
    pub fn new(albedo: Vec3, fuzziness: i64) -> (r: Metal)
        ensures
            r.albedo == albedo,
            r.fuzziness == fuzziness,
    {
        Metal { albedo, fuzziness }
    }
}

/// A transparent surface that refracts or reflects by Schlick's
/// approximation of Fresnel reflectance.
#[derive(Clone, Copy, Debug, PartialEq, Eq, Structural)]
pub struct Dieletric {
    pub ref_idx: i64,
}

impl Dieletric {
    pub fn new(ref_idx: i64) -> (r: Dieletric)
        ensures
            r.ref_idx == ref_idx,
    {
        Dieletric { ref_idx }
    }
}

/// The closed set of materials.
#[derive(Clone, Copy, Debug, PartialEq, Eq, Structural)]
pub enum Material {
    Lambertian(Lambertian),
    Metal(Metal),
    Dieletric(Dieletric),
}

/// Parameters under which a material's scattering is defined.
pub open spec fn material_ok_s(m: Material) -> bool {
    match m {
        Material::Lambertian(l) => albedo_ok_s(l.albedo@),
        Material::Metal(me) => albedo_ok_s(me.albedo@) && 0 <= me.fuzziness,
        Material::Dieletric(d) => 1 <= d.ref_idx <= REF_LIMIT as int,
    }
}

/// Decide `material_ok_s` at run time.
pub fn material_check(m: &Material) -> (b: bool)
    ensures
        b == material_ok_s(*m),
{
    match m {
        Material::Lambertian(l) => albedo_check(&l.albedo),
        Material::Metal(me) => albedo_check(&me.albedo) && 0 <= me.fuzziness,
        Material::Dieletric(d) => 1 <= d.ref_idx && d.ref_idx <= REF_LIMIT,
    }
}

/// Decide `albedo_ok_s` at run time.
fn albedo_check(a: &Vec3) -> (b: bool)
    ensures
        b == albedo_ok_s(a@),
{
    0 <= a.x && a.x <= ONE && 0 <= a.y && a.y <= ONE && 0 <= a.z && a.z <= ONE
}

/// The mirror reflection of `v` about `n`: `v - 2 * dot(v, n) * n`.
/// The doubling is exact in the representation.
pub open spec fn reflect_s(v: SpecVec3, n: SpecVec3) -> SpecVec3 {
    let d = dot_s(v, n);
    SpecVec3 {
        x: v.x - 2 * fmul_s(n.x, d),
        y: v.y - 2 * fmul_s(n.y, d),
        z: v.z - 2 * fmul_s(n.z, d),
    }
}

/// The direction after a ray has been reflected off a metal surface.
/// Admits any vector within the coordinate limit and any normal within
/// the normal limit.
pub(crate) fn reflect(v: &Vec3, n: &Vec3) -> (r: Vec3)
    requires
        in_bounds_s(v@, COORD_LIMIT as int),
        in_bounds_s(n@, NORMAL_LIMIT as int),
    ensures
        r@ == reflect_s(v@, n@),
{
    proof {
        lemma_dot_range(v@, n@, COORD_LIMIT as int, NORMAL_LIMIT as int);
        lemma_fmul_range(n@.x, dot_s(v@, n@), NORMAL_LIMIT as int, 31_000_000_000);
        lemma_fmul_range(n@.y, dot_s(v@, n@), NORMAL_LIMIT as int, 31_000_000_000);
        lemma_fmul_range(n@.z, dot_s(v@, n@), NORMAL_LIMIT as int, 31_000_000_000);
    }
    let d: i64 = v.dot(*n);
    let sx: i64 = fmul(n.x, d);
    let sy: i64 = fmul(n.y, d);
    let sz: i64 = fmul(n.z, d);
    Vec3 {
        x: sub64(v.x, add64(sx, sx)),
        y: sub64(v.y, add64(sy, sy)),
        z: sub64(v.z, add64(sz, sz)),
    }
}

/// Components of a mirror reflection stay within a small multiple of
/// the operand bounds.
pub proof fn lemma_reflect_bounds(v: SpecVec3, n: SpecVec3)
    requires
        in_bounds_s(v, COORD_LIMIT as int),
        in_bounds_s(n, NORMAL_LIMIT as int),
    ensures
        in_bounds_s(reflect_s(v, n), 700_000_000_000),
{
    lemma_dot_range(v, n, COORD_LIMIT as int, NORMAL_LIMIT as int);
    crate::fixed::lemma_fmul_range(n.x, dot_s(v, n), NORMAL_LIMIT as int, 31_000_000_000);
    crate::fixed::lemma_fmul_range(n.y, dot_s(v, n), NORMAL_LIMIT as int, 31_000_000_000);
    crate::fixed::lemma_fmul_range(n.z, dot_s(v, n), NORMAL_LIMIT as int, 31_000_000_000);
}

/// The Snell discriminant `1 - ratio^2 (1 - dt^2)` with
/// `dt = dot(unit(v), outward)`.
pub open spec fn refract_disc_s(v: SpecVec3, outward: SpecVec3, ratio: int) -> int {
    let dt = dot_s(unit_s(v), outward);
    ONE as int - fmul_s(fmul_s(ratio, ratio), ONE as int - fmul_s(dt, dt))
}

/// The refracted direction
/// `ratio * (unit(v) - outward * dt) - outward * sqrt(disc)`,
/// meaningful when the discriminant is positive.
pub open spec fn refract_dir_s(v: SpecVec3, outward: SpecVec3, ratio: int) -> SpecVec3 {
    let uv = unit_s(v);
    let dt = dot_s(uv, outward);
    sub_s(
        scale_s(sub_s(uv, scale_s(outward, dt)), ratio),
        scale_s(outward, fsqrt_s(refract_disc_s(v, outward, ratio))),
    )
}

/// The direction after a ray has passed into a transparent medium:
/// refraction is geometrically possible exactly when the discriminant
/// is positive, and then the refracted direction is produced.
pub(crate) fn refract(v: &Vec3, n: &Vec3, ni_over_nt: i64, refracted: &mut Vec3) -> (b: bool)
    requires
        in_bounds_s(v@, COORD_LIMIT as int),
        1 <= sq_len_s(v@),
        in64(sq_len_s(v@)),
        in_bounds_s(n@, NORMAL_LIMIT as int),
        0 < ni_over_nt <= NI_LIMIT,
    ensures
        b == (refract_disc_s(v@, n@, ni_over_nt as int) > 0),
        b ==> final(refracted)@ == refract_dir_s(v@, n@, ni_over_nt as int),
        !b ==> *final(refracted) == *old(refracted),
{
    proof {
        lemma_unit_bounds(v@);
        lemma_dot_range(unit_s(v@), n@, 2 * ONE as int, NORMAL_LIMIT as int);
        crate::fixed::lemma_fmul_range(ni_over_nt as int, ni_over_nt as int, NI_LIMIT as int,
            NI_LIMIT as int);
        crate::fixed::lemma_fmul_range(dot_s(unit_s(v@), n@), dot_s(unit_s(v@), n@),
            61_000_000, 61_000_000);
    }
    let uv = v.unit_vector();
    let dt: i64 = uv.dot(*n);
    let ni2: i64 = fmul(ni_over_nt, ni_over_nt);
    let omdt: i64 = sub64(ONE, fmul(dt, dt));
    proof {
        assert(-4_000_000_000_000_000_000_000_000_000 <= (ni2 as int) * (omdt as int)
            <= 4_000_000_000_000_000_000_000_000_000) by (nonlinear_arith)
            requires
                0 <= ni2 as int <= 1_000_000_000_000_000_000,
                -3_800_000_000 <= omdt as int <= 3_800_000_000,
        ;
        crate::fixed::lemma_fmul_range(ni2 as int, omdt as int, 1_000_000_000_000_000_000,
            3_800_000_000);
    }
    let prod: i128 = (ni2 as i128) * (omdt as i128);
    let q: i128 = floor_div_i128(prod, SCALE as i128);
    let disc: i128 = (ONE as i128) - q;
    if disc > 0 {
        proof {
            lemma_scale_range(n@, dt as int, NORMAL_LIMIT as int, 61_000_000);
            lemma_scale_range(
                sub_s(unit_s(v@), scale_s(n@, dt as int)),
                ni_over_nt as int,
                613_000_000,
                NI_LIMIT as int,
            );
        }
        let nsq: u128 = (disc as u128) * (SCALE as u128);
        let sd128: u128 = crate::fixed::isqrt_u128(nsq);
        proof {
            assert(sd128 < 100_000_000_000_000) by (nonlinear_arith)
                requires
                    sd128 as int * sd128 as int <= nsq as int,
                    nsq as int <= 4_000_000_000_000_000_000_000_000_000,
            ;
            crate::fixed::lemma_sqrt_is(nsq as int, sd128 as int);
            lemma_scale_range(n@, sd128 as int, NORMAL_LIMIT as int, 100_000_000_000_000);
        }
        let sd: i64 = sd128 as i64;
        *refracted = uv.sub(n.scale(dt)).scale(ni_over_nt).sub(n.scale(sd));
        true
    } else {
        false
    }
}

/// Schlick's closed-form approximation of Fresnel reflectance:
/// `r0 + (1 - r0) (1 - cosine)^5` with `r0 = ((1 - n) / (1 + n))^2`.
pub open spec fn schlick_s(cosine: int, ref_idx: int) -> int {
    let r0 = fmul_s(
        fdiv_s(ONE as int - ref_idx, ONE as int + ref_idx),
        fdiv_s(ONE as int - ref_idx, ONE as int + ref_idx),
    );
    let om = ONE as int - cosine;
    r0 + fmul_s(ONE as int - r0, fmul_s(fmul_s(fmul_s(fmul_s(om, om), om), om), om))
}

/// The reflectivity varies with the angle; this approximation takes
/// that into account.  The result is carried in 128 bits: a far
/// off-axis cosine drives the fifth power beyond any probability, and
/// the caller only compares the value against a unit draw.
fn schlick(cosine: i64, ref_idx: i64) -> (r: i128)
    requires
        1 <= ref_idx <= REF_LIMIT,
        -6_100_000_000 <= cosine <= 6_100_000_000,
    ensures
        r == schlick_s(cosine as int, ref_idx as int),
{
    proof {
        crate::fixed::lemma_fdiv_proper_fraction(ONE as int - ref_idx as int,
            ONE as int + ref_idx as int);
        let r0v = fdiv_s(ONE as int - ref_idx as int, ONE as int + ref_idx as int);
        assert(r0v * r0v >= 0) by (nonlinear_arith);
        vstd::arithmetic::div_mod::lemma_div_pos_is_pos(r0v * r0v, SCALE as int);
        crate::fixed::lemma_fmul_range(r0v, r0v, 1_000_000, 1_000_000);
        let omv = ONE as int - cosine as int;
        crate::fixed::lemma_fmul_range(omv, omv, 6_101_000_000, 6_101_000_000);
        crate::fixed::lemma_fmul_range(fmul_s(omv, omv), omv, 37_300_000_000_001,
            6_101_000_000);
        crate::fixed::lemma_fmul_range(fmul_s(fmul_s(omv, omv), omv), omv,
            228_000_000_000_000_001, 6_101_000_000);
        crate::fixed::lemma_fmul_range(fmul_s(fmul_s(fmul_s(omv, omv), omv), omv), omv,
            1_400_000_000_000_000_000_001, 6_101_000_000);
        crate::fixed::lemma_fmul_range(
            ONE as int - fmul_s(r0v, r0v),
            fmul_s(fmul_s(fmul_s(fmul_s(omv, omv), omv), omv), omv),
            1_000_000,
            8_600_000_000_000_000_000_000_001,
        );
    }
    let r0: i64 = fdiv(sub64(ONE, ref_idx), add64(ONE, ref_idx));
    let r0sq: i64 = fmul(r0, r0);
    let om: i128 = (ONE as i128) - (cosine as i128);
    proof {
        assert(om * om <= 38_000_000_000_000_000_000) by (nonlinear_arith)
            requires
                -6_101_000_000 <= om <= 6_101_000_000,
        ;
    }
    let p2: i128 = floor_div_i128(om * om, SCALE as i128);
    proof {
        assert(-300_000_000_000_000_000_000_000 <= p2 * om <= 300_000_000_000_000_000_000_000)
            by (nonlinear_arith)
            requires
                -37_300_000_000_002 <= p2 <= 37_300_000_000_001,
                -6_101_000_000 <= om <= 6_101_000_000,
        ;
    }
    let p3: i128 = floor_div_i128(p2 * om, SCALE as i128);
    proof {
        assert(-1_400_000_000_000_000_000_000_000_000 <= p3 * om
            <= 1_400_000_000_000_000_000_000_000_000) by (nonlinear_arith)
            requires
                -228_000_000_000_000_002 <= p3 <= 228_000_000_000_000_001,
                -6_101_000_000 <= om <= 6_101_000_000,
        ;
    }
    let p4: i128 = floor_div_i128(p3 * om, SCALE as i128);
    proof {
        assert(-9_000_000_000_000_000_000_000_000_000_000 <= p4 * om
            <= 9_000_000_000_000_000_000_000_000_000_000) by (nonlinear_arith)
            requires
                -1_400_000_000_000_000_000_002 <= p4 <= 1_400_000_000_000_000_000_001,
                -6_101_000_000 <= om <= 6_101_000_000,
        ;
    }
    let pow5: i128 = floor_div_i128(p4 * om, SCALE as i128);
    proof {
        assert(-9_000_000_000_000_000_000_000_000_000_000 <= ((ONE - r0sq) as i128) * pow5
            <= 9_000_000_000_000_000_000_000_000_000_000) by (nonlinear_arith)
            requires
                0 <= (ONE - r0sq) as i128 <= 1_000_000,
                -8_600_000_000_000_000_000_000_002 <= pow5 <= 8_600_000_000_000_000_000_000_001,
        ;
    }
    (r0sq as i128) + floor_div_i128(((ONE - r0sq) as i128) * pow5, SCALE as i128)
}

/// The fuzziness actually applied: capped at one unit.
pub open spec fn fuzz_clamp_s(f: int) -> int {
    if f > ONE as int {
        ONE as int
    } else {
        f
    }
}

/// The direction a metal surface scatters into: the mirror reflection
/// of the unit incoming direction, perturbed by a sphere sample scaled
/// with the capped fuzziness.
pub open spec fn metal_dir_s(r: SpecRay, n: SpecVec3, smp: SpecVec3, fuzz: int) -> SpecVec3 {
    add_s(reflect_s(unit_s(r.direction), n), scale_s(smp, fuzz_clamp_s(fuzz)))
}

/// The outward-facing normal a transparent surface refracts about:
/// flipped when the ray leaves the medium.
pub open spec fn dielectric_outward_s(r: SpecRay, n: SpecVec3) -> SpecVec3 {
    if dot_s(r.direction, n) > 0 {
        neg_s(n)
    } else {
        n
    }
}

/// The index ratio along the crossing: the index itself when leaving,
/// its reciprocal when entering.
pub open spec fn dielectric_ratio_s(r: SpecRay, n: SpecVec3, ref_idx: int) -> int {
    if dot_s(r.direction, n) > 0 {
        ref_idx
    } else {
        fdiv_s(ONE as int, ref_idx)
    }
}

/// The cosine term fed to Schlick's approximation.
pub open spec fn dielectric_cosine_s(r: SpecRay, n: SpecVec3, ref_idx: int) -> int {
    let dn = dot_s(r.direction, n);
    if dn > 0 {
        fdiv_s(fmul_s(dn, ref_idx), len_s(r.direction))
    } else {
        fdiv_s(-dn, len_s(r.direction))
    }
}

/// The probability of reflecting rather than refracting: Schlick's
/// reflectance whenever refraction is geometrically possible, and
/// certainty otherwise (total internal reflection).
pub open spec fn dielectric_prob_s(r: SpecRay, n: SpecVec3, ref_idx: int) -> int {
    let disc = refract_disc_s(
        r.direction,
        dielectric_outward_s(r, n),
        dielectric_ratio_s(r, n, ref_idx),
    );
    if disc > 0 {
        schlick_s(dielectric_cosine_s(r, n, ref_idx), ref_idx)
    } else {
        ONE as int
    }
}

/// The Schlick cosine of any admissible configuration is moderate:
/// every direction component is within twice the direction's length,
/// so the normalized dot against a bounded normal cannot outgrow the
/// index scaling.
proof fn lemma_dielectric_cosine_bound(r: SpecRay, n: SpecVec3, ref_idx: int)
    requires
        1 <= sq_len_s(r.direction),
        sq_len_s(r.direction) <= i64::MAX,
        in_bounds_s(n, NORMAL_LIMIT as int),
        1 <= ref_idx <= REF_LIMIT as int,
    ensures
        -6_100_000_000 <= dielectric_cosine_s(r, n, ref_idx) <= 6_100_000_000,
{
    let d = r.direction;
    let l = len_s(d);
    let s = SCALE as int;
    crate::vecmath::lemma_components_within_length(d);
    crate::fixed::lemma_fmul_range(d.x, n.x, 2 * l - 1, NORMAL_LIMIT as int);
    crate::fixed::lemma_fmul_range(d.y, n.y, 2 * l - 1, NORMAL_LIMIT as int);
    crate::fixed::lemma_fmul_range(d.z, n.z, 2 * l - 1, NORMAL_LIMIT as int);
    assert(((2 * l - 1) * (NORMAL_LIMIT as int)) / s == 20 * l - 10) by {
        assert((2 * l - 1) * (NORMAL_LIMIT as int) == s * (20 * l - 10)) by (nonlinear_arith)
            requires
                s == 1_000_000,
                NORMAL_LIMIT == 10_000_000i64,
        ;
        vstd::arithmetic::div_mod::lemma_div_multiples_vanish(20 * l - 10, s);
    }
    let dn = dot_s(d, n);
    assert(-(60 * l) <= dn <= 60 * l);
    crate::fixed::lemma_fdiv_linear_bound(-dn, l, 60, 0);
    crate::fixed::lemma_fmul_range(dn, ref_idx, 60 * l, REF_LIMIT as int);
    assert(((60 * l) * (REF_LIMIT as int)) / s == 6000 * l) by {
        assert((60 * l) * (REF_LIMIT as int) == s * (6000 * l)) by (nonlinear_arith)
            requires
                s == 1_000_000,
                REF_LIMIT == 100_000_000i64,
        ;
        vstd::arithmetic::div_mod::lemma_div_multiples_vanish(6000 * l, s);
    }
    crate::fixed::lemma_fdiv_linear_bound(fmul_s(dn, ref_idx), l, 6000, 1);
    assert((1 * s) / 1000 == 1000) by {
        assert(1 * s == 1000 * 1000) by (nonlinear_arith)
            requires
                s == 1_000_000,
        ;
        vstd::arithmetic::div_mod::lemma_div_multiples_vanish(1000, 1000);
    }
}

/// The direction a transparent surface scatters into, for a given
/// uniform draw `u`: reflected below the reflectance threshold,
/// refracted above it.
pub open spec fn dielectric_dir_s(r: SpecRay, n: SpecVec3, ref_idx: int, u: int) -> SpecVec3 {
    if u < dielectric_prob_s(r, n, ref_idx) {
        reflect_s(r.direction, n)
    } else {
        refract_dir_s(
            r.direction,
            dielectric_outward_s(r, n),
            dielectric_ratio_s(r, n, ref_idx),
        )
    }
}

/// A diffuse outgoing direction: the normal displaced by some point
/// inside the unit sphere.
pub open spec fn lambertian_dir_ok_s(n: SpecVec3, dir: SpecVec3) -> bool {
    exists|smp: SpecVec3| #[trigger] sample_ok_s(smp) && dir == add_s(n, smp)
}

/// A metallic outgoing direction for some sphere sample, together with
/// the verdict that direction decides.
pub open spec fn metal_scatter_ok_s(
    r: SpecRay,
    n: SpecVec3,
    fuzz: int,
    dir: SpecVec3,
    b: bool,
) -> bool {
    exists|smp: SpecVec3|
        #[trigger] sample_ok_s(smp) && dir == metal_dir_s(r, n, smp, fuzz) && (b <==> dot_s(
            metal_dir_s(r, n, smp, fuzz),
            n,
        ) > 0)
}

/// A transparent outgoing direction for some admissible uniform draw.
pub open spec fn dielectric_dir_ok_s(r: SpecRay, n: SpecVec3, ref_idx: int, dir: SpecVec3) -> bool {
    exists|u: int| 0 <= u < ONE as int && dir == #[trigger] dielectric_dir_s(r, n, ref_idx, u)
}

/// What scattering promises, by material: the attenuation handed back,
/// the scattered ray's origin at the struck point, and a direction of
/// the material's form for some admissible random outcome.  Whether a
/// metal scatters at all is decided by its perturbed direction; diffuse
/// and transparent surfaces always scatter.
pub open spec fn scatter_post_s(
    m: Material,
    r: SpecRay,
    rec: SpecHitRecord,
    att: SpecVec3,
    sc: SpecRay,
    b: bool,
) -> bool {
    match m {
        Material::Lambertian(l) => {
            &&& b
            &&& att == l.albedo@
            &&& sc.origin == rec.p
            &&& lambertian_dir_ok_s(rec.normal, sc.direction)
        },
        Material::Metal(me) => {
            &&& att == me.albedo@
            &&& sc.origin == rec.p
            &&& metal_scatter_ok_s(r, rec.normal, me.fuzziness as int, sc.direction, b)
        },
        Material::Dieletric(d) => {
            &&& b
            &&& att == (SpecVec3 { x: ONE as int, y: ONE as int, z: ONE as int })
            &&& sc.origin == rec.p
            &&& dielectric_dir_ok_s(r, rec.normal, d.ref_idx as int, sc.direction)
        },
    }
}

impl Lambertian {
    /// Diffuse scattering: aim at a point one normal above the struck
    /// point, displaced by a random point in the unit sphere.  Always
    /// scatters.
    pub fn scatter(
        &self,
        _r_in: &Ray,
        rec: &HitRecord,
        attenuation: &mut Vec3,
        scattered: &mut Ray,
        rng: &mut rand::rngs::StdRng,
    ) -> (b: bool)
        requires
            rec_bounds_ok_s(rec@),
        ensures
            b,
            scatter_post_s(
                Material::Lambertian(*self),
                _r_in@,
                rec@,
                final(attenuation)@,
                final(scattered)@,
                b,
            ),
    {
        let rec_p = rec.get_p();
        let rec_normal = rec.get_normal();
        let smp = Vec3::random_in_unit_sphere(rng);
        let target = rec_p.add(rec_normal).add(smp);
        let direction = target.sub(rec_p);
        proof {
            assert(sample_ok_s(smp@));
            assert(direction@ == add_s(rec@.normal, smp@));
            assert(lambertian_dir_ok_s(rec@.normal, direction@));
        }
        *scattered = Ray::new(rec_p, direction);
        *attenuation = self.albedo;
        true
    }
}

impl Metal {
    /// Metallic scattering: mirror reflection of the unit incoming
    /// direction, perturbed by the capped fuzziness; absorbed when the
    /// perturbed direction points into the surface.
    pub fn scatter(
        &self,
        r_in: &Ray,
        rec: &HitRecord,
        attenuation: &mut Vec3,
        scattered: &mut Ray,
        rng: &mut rand::rngs::StdRng,
    ) -> (b: bool)
        requires
            ray_ok_s(r_in@),
            rec_bounds_ok_s(rec@),
            0 <= self.fuzziness,
        ensures
            scatter_post_s(
                Material::Metal(*self),
                r_in@,
                rec@,
                final(attenuation)@,
                final(scattered)@,
                b,
            ),
    {
        proof {
            lemma_dot_range(r_in@.direction, r_in@.direction, COORD_LIMIT as int,
                COORD_LIMIT as int);
        }
        let unit = r_in.get_direction().unit_vector();
        let rec_normal = rec.get_normal();
        let reflected = reflect(&unit, &rec_normal);
        let smp = Vec3::random_in_unit_sphere(rng);
        let f: i64 = if self.fuzziness > ONE {
            ONE
        } else {
            self.fuzziness
        };
        proof {
            lemma_reflect_bounds(unit_s(r_in@.direction), rec@.normal);
            lemma_scale_range(smp@, f as int, ONE as int, ONE as int);
        }
        let dir = reflected.add(smp.scale(f));
        proof {
            lemma_dot_range(dir@, rec@.normal, 700_001_001_001, NORMAL_LIMIT as int);
            assert(sample_ok_s(smp@));
            assert(dir@ == metal_dir_s(r_in@, rec@.normal, smp@, self.fuzziness as int));
        }
        *scattered = Ray::new(rec.get_p(), dir);
        *attenuation = self.albedo;
        let b: bool = dir.dot(rec_normal) > 0;
        proof {
            assert(metal_scatter_ok_s(r_in@, rec@.normal, self.fuzziness as int, dir@, b));
        }
        b
    }
}

impl Dieletric {
    /// Transparent scattering: refract by Snell's law when possible,
    /// otherwise reflect; when both are possible, choose by one uniform
    /// draw against Schlick's reflectance.  Always scatters, and never
    /// attenuates.
    pub fn scatter(
        &self,
        r_in: &Ray,
        rec: &HitRecord,
        attenuation: &mut Vec3,
        scattered: &mut Ray,
        rng: &mut rand::rngs::StdRng,
    ) -> (b: bool)
        requires
            ray_ok_s(r_in@),
            rec_bounds_ok_s(rec@),
            1 <= self.ref_idx <= REF_LIMIT,
        ensures
            b,
            scatter_post_s(
                Material::Dieletric(*self),
                r_in@,
                rec@,
                final(attenuation)@,
                final(scattered)@,
                b,
            ),
    {
        proof {
            lemma_dot_range(r_in@.direction, rec@.normal, COORD_LIMIT as int,
                NORMAL_LIMIT as int);
            lemma_dot_range(r_in@.direction, r_in@.direction, COORD_LIMIT as int,
                COORD_LIMIT as int);
            lemma_unit_bounds(r_in@.direction);
        }
        let dirv = r_in.get_direction();
        let n = rec.get_normal();
        let reflected = reflect(&dirv, &n);
        *attenuation = Vec3::new(ONE, ONE, ONE);
        let dn: i64 = dirv.dot(n);
        let len: i64 = dirv.length();
        let outward: Vec3;
        let ni_over_nt: i64;
        let cosine: i64;
        if dn > 0 {
            proof {
                lemma_scale_neg_one(rec@.normal);
                crate::fixed::lemma_fmul_range(dn as int, self.ref_idx as int, 31_000_000_000,
                    REF_LIMIT as int);
                crate::fixed::lemma_fdiv_range(fmul_s(dn as int, self.ref_idx as int), len as int,
                    3_100_000_000_001, 1_000);
            }
            outward = n.scale(-ONE);
            ni_over_nt = self.ref_idx;
            cosine = fdiv(fmul(dn, self.ref_idx), len);
        } else {
            proof {
                crate::fixed::lemma_fdiv_range(ONE as int, self.ref_idx as int, ONE as int, 1);
                lemma_div_is_ordered_by_denominator(
                    (ONE as int) * (SCALE as int),
                    self.ref_idx as int,
                    REF_LIMIT as int,
                );
                vstd::arithmetic::div_mod::lemma_div_nonincreasing(
                    (ONE as int) * (SCALE as int),
                    self.ref_idx as int,
                );
                crate::fixed::lemma_fdiv_range(-(dn as int), len as int, 31_000_000_000, 1_000);
            }
            outward = n;
            ni_over_nt = fdiv(ONE, self.ref_idx);
            cosine = fdiv(0 - dn, len);
        }
        let mut refracted = Vec3::new(0, 0, 0);
        let did_refract = refract(&dirv, &outward, ni_over_nt, &mut refracted);
        let u: i64 = rand_unit(rng);
        proof {
            assert(outward@ == dielectric_outward_s(r_in@, rec@.normal));
            assert(ni_over_nt as int == dielectric_ratio_s(r_in@, rec@.normal,
                self.ref_idx as int));
            assert(cosine as int == dielectric_cosine_s(r_in@, rec@.normal, self.ref_idx as int));
            lemma_dielectric_cosine_bound(r_in@, rec@.normal, self.ref_idx as int);
        }
        let reflect: bool;
        if did_refract {
            let sv: i128 = schlick(cosine, self.ref_idx);
            reflect = (u as i128) < sv;
        } else {
            reflect = true;
        }
        proof {
            assert(reflect == ((u as int) < dielectric_prob_s(r_in@, rec@.normal,
                self.ref_idx as int)));
        }
        let chosen: Vec3 = if reflect {
            reflected
        } else {
            refracted
        };
        proof {
            assert(chosen@ == dielectric_dir_s(r_in@, rec@.normal, self.ref_idx as int, u as int));
        }
        *scattered = Ray::new(rec.get_p(), chosen);
        proof {
            assert(dielectric_dir_ok_s(r_in@, rec@.normal, self.ref_idx as int, chosen@));
        }
        true
    }
}

impl Material {
    /// Dispatch scattering to the concrete material.
    pub fn scatter(
        &self,
        r_in: &Ray,
        rec: &HitRecord,
        attenuation: &mut Vec3,
        scattered: &mut Ray,
        rng: &mut rand::rngs::StdRng,
    ) -> (b: bool)
        requires
            ray_ok_s(r_in@),
            rec_bounds_ok_s(rec@),
            material_ok_s(*self),
        ensures
            scatter_post_s(*self, r_in@, rec@, final(attenuation)@, final(scattered)@, b),
    {
        match self {
            Material::Lambertian(l) => l.scatter(r_in, rec, attenuation, scattered, rng),
            Material::Metal(m) => m.scatter(r_in, rec, attenuation, scattered, rng),
            Material::Dieletric(d) => d.scatter(r_in, rec, attenuation, scattered, rng),
        }
    }
}

/// The mirror law of metals: with zero fuzziness the outgoing direction
/// is exactly the mirror reflection of the unit incoming direction
/// about the normal, whatever the sphere sample was.
pub proof fn lemma_metal_mirror(r: SpecRay, n: SpecVec3, smp: SpecVec3)
    ensures
        metal_dir_s(r, n, smp, 0) == reflect_s(unit_s(r.direction), n),
{
    lemma_fmul_zero(smp.x);
    lemma_fmul_zero(smp.y);
    lemma_fmul_zero(smp.z);
}

/// Multiplying by zero yields zero.
proof fn lemma_fmul_zero(x: int)
    ensures
        fmul_s(x, 0) == 0,
{
    assert(x * 0 == 0) by (nonlinear_arith);
    lemma_div_pos_is_pos(0, SCALE as int);
    vstd::arithmetic::div_mod::lemma_div_nonincreasing(0, SCALE as int);
}

/// An exact quotient and its negation, when the divisor divides.
proof fn lemma_exact_div(m: int, q: int)
    requires
        m == q * (SCALE as int),
    ensures
        m / (SCALE as int) == q,
        (-m) / (SCALE as int) == -q,
{
    vstd::arithmetic::div_mod::lemma_fundamental_div_mod_converse(m, SCALE as int, q, 0);
    assert(-m == (-q) * (SCALE as int) + 0) by (nonlinear_arith)
        requires
            m == q * (SCALE as int),
    ;
    vstd::arithmetic::div_mod::lemma_fundamental_div_mod_converse(-m, SCALE as int, -q, 0);
}

/// The pass-through law of transparent surfaces: with refractive index
/// one and a non-critical entering incidence, the refracted direction
/// equals the unit incoming direction, so the ray passes straight
/// through.  The divisibility hypotheses name the inputs on which the
/// flooring products are exact; elsewhere the direction can differ in
/// the last representation unit.
pub proof fn lemma_dielectric_passthrough(r: SpecRay, n: SpecVec3)
    requires
        dot_s(r.direction, n) <= 0,
        dot_s(unit_s(r.direction), n) < 0,
        (dot_s(unit_s(r.direction), n) * dot_s(unit_s(r.direction), n)) % (SCALE as int) == 0,
        (n.x * dot_s(unit_s(r.direction), n)) % (SCALE as int) == 0,
        (n.y * dot_s(unit_s(r.direction), n)) % (SCALE as int) == 0,
        (n.z * dot_s(unit_s(r.direction), n)) % (SCALE as int) == 0,
    ensures
        dielectric_ratio_s(r, n, ONE as int) == ONE as int,
        refract_disc_s(r.direction, n, ONE as int) > 0,
        refract_dir_s(r.direction, n, ONE as int) == unit_s(r.direction),
        forall|u: int|
            u >= dielectric_prob_s(r, n, ONE as int) ==> #[trigger] dielectric_dir_s(
                r,
                n,
                ONE as int,
                u,
            ) == unit_s(r.direction),
{
    let s = SCALE as int;
    let uv = unit_s(r.direction);
    let dt = dot_s(uv, n);
    // the index ratio of the entering branch is exactly one
    assert((ONE as int) * s == s * (ONE as int)) by (nonlinear_arith);
    vstd::arithmetic::div_mod::lemma_div_multiples_vanish(ONE as int, s);
    assert(dielectric_ratio_s(r, n, ONE as int) == ONE as int);
    // the discriminant reduces to dt^2 / s, a positive exact multiple
    crate::fixed::lemma_fmul_one(ONE as int);
    crate::fixed::lemma_fmul_one(ONE as int - fmul_s(dt, dt));
    vstd::arithmetic::div_mod::lemma_fundamental_div_mod(dt * dt, s);
    let k = (dt * dt) / s;
    assert(dt * dt == k * s) by (nonlinear_arith)
        requires
            dt * dt == s * k + (dt * dt) % s,
            (dt * dt) % s == 0,
    ;
    assert(dt * dt >= 1) by (nonlinear_arith)
        requires
            dt < 0,
    ;
    assert(k >= 1) by (nonlinear_arith)
        requires
            dt * dt == k * s,
            dt * dt >= 1,
            s == 1_000_000,
    ;
    let disc = refract_disc_s(r.direction, n, ONE as int);
    assert(disc == k);
    // the square root of the discriminant is exactly -dt
    assert(is_sqrt(disc * s, -dt)) by (nonlinear_arith)
        requires
            disc * s == dt * dt,
            dt < 0,
    ;
    crate::fixed::lemma_sqrt_is(disc * s, -dt);
    // the normal components cancel exactly
    vstd::arithmetic::div_mod::lemma_fundamental_div_mod(n.x * dt, s);
    vstd::arithmetic::div_mod::lemma_fundamental_div_mod(n.y * dt, s);
    vstd::arithmetic::div_mod::lemma_fundamental_div_mod(n.z * dt, s);
    lemma_cancel_component(n.x, dt);
    lemma_cancel_component(n.y, dt);
    lemma_cancel_component(n.z, dt);
    let inner = sub_s(uv, scale_s(n, dt));
    crate::fixed::lemma_fmul_one(inner.x);
    crate::fixed::lemma_fmul_one(inner.y);
    crate::fixed::lemma_fmul_one(inner.z);
}

/// When the scale divides `n_i * dt`, scaling the normal by `dt` and by
/// `-dt` yields exact opposites.
proof fn lemma_cancel_component(ni: int, dt: int)
    requires
        (ni * dt) % (SCALE as int) == 0,
    ensures
        fmul_s(ni, -dt) == -fmul_s(ni, dt),
{
    let s = SCALE as int;
    vstd::arithmetic::div_mod::lemma_fundamental_div_mod(ni * dt, s);
    let q = (ni * dt) / s;
    assert(ni * dt == q * s) by (nonlinear_arith)
        requires
            ni * dt == s * q + (ni * dt) % s,
            (ni * dt) % s == 0,
    ;
    lemma_exact_div(ni * dt, q);
    assert(ni * (-dt) == -(ni * dt)) by (nonlinear_arith);
}

} // verus!
