//! The path-colour integrator: geometry query and material scattering
//! combined across a bounded bounce depth.
//!
//! The recursion of the estimator is written as a pair of loops: a
//! forward pass follows the ray, collecting one attenuation per bounce
//! until the path escapes, is absorbed or runs out of depth, and a
//! backward pass multiplies the attenuations onto the terminal colour
//! in the same order the recursion would, so no tail-call elimination
//! is relied on and the products associate exactly as the recursive
//! definition states.

use crate::fixed::{
    add64, fmul, fmul_s, in64, lemma_div_mul_lower, lemma_fmul_le, lemma_fmul_half,
    lemma_fmul_one, lemma_fmul_range, sub64, HALF, ONE,
};
use crate::hitables::{
    rec_bounds_check, rec_bounds_ok_s, world_hit_s, world_ok_s, HitRecord, HitableList,
    SpecHitRecord, SpecSphere,
};
use crate::materials::{
    material_check, material_ok_s, metal_dir_s, scatter_post_s, Lambertian, Material,
};
use crate::sampling::sample_ok_s;
use crate::ray::{ray_check, ray_ok_s, Ray, SpecRay, T_LIMIT};
use crate::vecmath::{
    add_s, dot_s, lemma_unit_bounds, mul_s, scale_s, sq_len_s, unit_s, SpecVec3, Vec3,
};
use vstd::prelude::*;

verus! {

/// The hard recursion-depth cutoff of the estimator.
pub const MAX_DEPTH: i32 = 50;

/// Lower window bound of every colour query: suppresses shadow acne,
/// the self-intersection artifact at a bounced ray's origin.
pub const T_ACNE: i64 = 1_000;

/// The interpolation weight of the background gradient:
/// `(unit(dir).y + 1) / 2`.
pub open spec fn bg_t_s(dir: SpecVec3) -> int {
    fmul_s(unit_s(dir).y + ONE as int, HALF as int)
}

/// The background gradient: white blended toward sky blue as the ray
/// points up.
pub open spec fn bg_s(dir: SpecVec3) -> SpecVec3 {
    let t = bg_t_s(dir);
    add_s(
        scale_s(SpecVec3 { x: ONE as int, y: ONE as int, z: ONE as int }, ONE as int - t),
        scale_s(SpecVec3 { x: HALF as int, y: 700_000, z: ONE as int }, t),
    )
}

/// The background colour is a colour: every channel within `[0, 2]`
/// units, and the blue channel exactly one.
pub proof fn lemma_bg_bounds(dir: SpecVec3)
    requires
        1 <= sq_len_s(dir),
        in64(sq_len_s(dir)),
    ensures
        -(ONE as int) <= bg_t_s(dir) <= 2 * ONE as int,
        0 <= bg_s(dir).x <= 2 * ONE as int,
        0 <= bg_s(dir).y <= 2 * ONE as int,
        bg_s(dir).z == ONE as int,
        bg_s(dir).x == ONE as int - bg_t_s(dir) + bg_t_s(dir) / 2,
{
    lemma_unit_bounds(dir);
    let u = unit_s(dir);
    let ty = u.y + ONE as int;
    lemma_fmul_half(ty);
    let t = bg_t_s(dir);
    assert(t == ty / 2);
    lemma_fmul_one(ONE as int - t);
    lemma_fmul_one(t);
    lemma_fmul_half(t);
    assert(t * (HALF as int) == (HALF as int) * t) by (nonlinear_arith);
    lemma_div_mul_lower(700_000 * t, crate::fixed::SCALE as int);
}

/// Colour returned for rays that the tracer cannot follow, for absorbed
/// paths and for exhausted depth: black.
pub open spec fn black_s() -> SpecVec3 {
    SpecVec3 { x: 0, y: 0, z: 0 }
}

/// One successful bounce from `r` at depth `d`: the ray strikes the
/// world, the record and material are admissible, and scattering with
/// attenuation `att` produced the ray `sc`.
pub open spec fn color_step_s(
    ss: Seq<SpecSphere>,
    r: SpecRay,
    d: int,
    att: SpecVec3,
    sc: SpecRay,
) -> bool {
    &&& ray_ok_s(r)
    &&& world_hit_s(ss, r, T_ACNE as int, T_LIMIT as int).is_some()
    &&& d < MAX_DEPTH as int
    &&& {
        let rec = world_hit_s(ss, r, T_ACNE as int, T_LIMIT as int).unwrap();
        rec_bounds_ok_s(rec) && material_ok_s(rec.material) && scatter_post_s(
            rec.material,
            r,
            rec,
            att,
            sc,
            true,
        )
    }
}

/// The colours the estimator can return for a ray at a given depth: a
/// ray it cannot follow yields black; a miss yields exactly the
/// background gradient; exhausted depth or an inadmissible record
/// yields black; and a struck admissible material yields, for some
/// outcome the material can produce, either black (absorbed) or the
/// attenuation times a colour reachable from the scattered ray.
pub open spec fn color_post_s(ss: Seq<SpecSphere>, r: SpecRay, d: int, c: SpecVec3) -> bool
    decreases MAX_DEPTH as int - d,
{
    if !ray_ok_s(r) {
        c == black_s()
    } else if world_hit_s(ss, r, T_ACNE as int, T_LIMIT as int).is_none() {
        c == bg_s(r.direction)
    } else if d >= MAX_DEPTH as int {
        c == black_s()
    } else {
        let rec = world_hit_s(ss, r, T_ACNE as int, T_LIMIT as int).unwrap();
        if rec_bounds_ok_s(rec) && material_ok_s(rec.material) {
            exists|att: SpecVec3, sc: SpecRay, b: bool|
                #[trigger] scatter_post_s(rec.material, r, rec, att, sc, b) && if b {
                    exists|c2: SpecVec3| color_post_s(ss, sc, d + 1, c2) && c == #[trigger] mul_s(
                        att,
                        c2,
                    )
                } else {
                    c == black_s()
                }
        } else {
            c == black_s()
        }
    }
}

/// A material that refuses every admissible outcome.  Only a metal
/// can: when every perturbed mirror direction points into the surface,
/// whatever the sphere sample was.
pub open spec fn material_absorbs_s(m: Material, r: SpecRay, rec: SpecHitRecord) -> bool {
    match m {
        Material::Metal(me) => forall|smp: SpecVec3|
            #[trigger] sample_ok_s(smp) ==> dot_s(
                metal_dir_s(r, rec.normal, smp, me.fuzziness as int),
                rec.normal,
            ) <= 0,
        Material::Lambertian(_) => false,
        Material::Dieletric(_) => false,
    }
}

/// A struck material that refuses every admissible outcome forces
/// black, whatever the draws were.
pub proof fn lemma_color_post_absorbing(ss: Seq<SpecSphere>, r: SpecRay, d: int, c: SpecVec3)
    requires
        color_post_s(ss, r, d, c),
        ray_ok_s(r),
        world_hit_s(ss, r, T_ACNE as int, T_LIMIT as int).is_some(),
        d < MAX_DEPTH as int,
        rec_bounds_ok_s(world_hit_s(ss, r, T_ACNE as int, T_LIMIT as int).unwrap()),
        material_ok_s(world_hit_s(ss, r, T_ACNE as int, T_LIMIT as int).unwrap().material),
        material_absorbs_s(
            world_hit_s(ss, r, T_ACNE as int, T_LIMIT as int).unwrap().material,
            r,
            world_hit_s(ss, r, T_ACNE as int, T_LIMIT as int).unwrap(),
        ),
    ensures
        c == black_s(),
{
    let rec = world_hit_s(ss, r, T_ACNE as int, T_LIMIT as int).unwrap();
    let (att, sc, b) = choose|att: SpecVec3, sc: SpecRay, b: bool|
        #[trigger] scatter_post_s(rec.material, r, rec, att, sc, b) && if b {
            exists|c2: SpecVec3| color_post_s(ss, sc, d + 1, c2) && c == #[trigger] mul_s(att, c2)
        } else {
            c == black_s()
        };
    match rec.material {
        Material::Metal(me) => {
            if b {
                let smp = choose|smp: SpecVec3|
                    #[trigger] sample_ok_s(smp) && sc.direction == metal_dir_s(
                        r,
                        rec.normal,
                        smp,
                        me.fuzziness as int,
                    ) && (b <==> dot_s(
                        metal_dir_s(r, rec.normal, smp, me.fuzziness as int),
                        rec.normal,
                    ) > 0);
                assert(sample_ok_s(smp));
                assert(false);
            }
        },
        Material::Lambertian(_) => {},
        Material::Dieletric(_) => {},
    }
}

impl Vec3 {
    /// Estimate the colour carried by a ray: query the world, scatter
    /// off the struck material and collect one attenuation per bounce
    /// until the ray escapes to the background, is absorbed, or the
    /// depth runs out; then multiply the attenuations onto the terminal
    /// colour, innermost first, as the recursive definition states.
    ///
    /// The contract returns a colour of `color_post_s`'s form: the
    /// branches randomness does not touch are pinned exactly (a miss
    /// yields the background gradient, exhausted depth or an
    /// inadmissible ray yields black, a surely-absorbing first hit
    /// yields black), and every successful bounce ties the result to
    /// the attenuation times the continuation's colour.
    pub fn color_material(
        r: &Ray,
        world: &HitableList,
        depth: i32,
        rng: &mut rand::rngs::StdRng,
    ) -> (c: Vec3)
        requires
            world_ok_s(world@),
            0 <= depth,
        ensures
            0 <= c@.x <= 2 * ONE as int,
            0 <= c@.y <= 2 * ONE as int,
            0 <= c@.z <= 2 * ONE as int,
            color_post_s(world@, r@, depth as int, c@),
            !ray_ok_s(r@) ==> c@ == black_s(),
            ray_ok_s(r@) && world_hit_s(world@, r@, T_ACNE as int, T_LIMIT as int).is_none()
                ==> c@ == bg_s(r@.direction),
            ray_ok_s(r@) && world_hit_s(world@, r@, T_ACNE as int, T_LIMIT as int).is_some()
                && depth >= MAX_DEPTH ==> c@ == black_s(),
            ray_ok_s(r@) && world_hit_s(world@, r@, T_ACNE as int, T_LIMIT as int).is_some()
                && depth < MAX_DEPTH && rec_bounds_ok_s(
                world_hit_s(world@, r@, T_ACNE as int, T_LIMIT as int).unwrap(),
            ) && material_ok_s(
                world_hit_s(world@, r@, T_ACNE as int, T_LIMIT as int).unwrap().material,
            ) && material_absorbs_s(
                world_hit_s(world@, r@, T_ACNE as int, T_LIMIT as int).unwrap().material,
                r@,
                world_hit_s(world@, r@, T_ACNE as int, T_LIMIT as int).unwrap(),
            ) ==> c@ == black_s(),
    {
        let ghost ss = world@;
        let mut factors: Vec<Vec3> = Vec::new();
        let mut cur: Ray = *r;
        let mut d: i32 = depth;
        let mut rec = HitRecord::new(
            0,
            Vec3::new(0, 0, 0),
            Vec3::new(0, 0, 0),
            Material::Lambertian(Lambertian::new(Vec3::new(0, 0, 0))),
        );
        let ghost mut rays: Seq<SpecRay> = seq![r@];
        let mut terminal = Vec3::new(0, 0, 0);
        loop
            invariant
                ss == world@,
                world_ok_s(ss),
                0 <= depth,
                depth <= d,
                d - depth == factors@.len(),
                rays.len() == factors@.len() + 1,
                rays[0] == r@,
                rays[rays.len() - 1] == cur@,
                d <= MAX_DEPTH || d == depth,
                forall|k: int|
                    0 <= k < factors@.len() ==> #[trigger] color_step_s(
                        ss,
                        rays[k],
                        depth + k,
                        factors@[k]@,
                        rays[k + 1],
                    ),
                forall|k: int|
                    0 <= k < factors@.len() ==> crate::materials::albedo_ok_s(
                        (#[trigger] factors@[k])@,
                    ),
            ensures
                ss == world@,
                world_ok_s(ss),
                0 <= depth,
                depth <= d,
                d - depth == factors@.len(),
                rays.len() == factors@.len() + 1,
                rays[0] == r@,
                forall|k: int|
                    0 <= k < factors@.len() ==> #[trigger] color_step_s(
                        ss,
                        rays[k],
                        depth + k,
                        factors@[k]@,
                        rays[k + 1],
                    ),
                forall|k: int|
                    0 <= k < factors@.len() ==> crate::materials::albedo_ok_s(
                        (#[trigger] factors@[k])@,
                    ),
                color_post_s(ss, rays[rays.len() - 1], d as int, terminal@),
                0 <= terminal@.x <= 2 * ONE as int,
                0 <= terminal@.y <= 2 * ONE as int,
                0 <= terminal@.z <= 2 * ONE as int,
            decreases MAX_DEPTH - d,
        {
            if !ray_check(&cur) {
                terminal = Vec3::new(0, 0, 0);
                break ;
            }
            if world.hit_list(&cur, T_ACNE, T_LIMIT, &mut rec) {
                let m = rec.get_material();
                if d < MAX_DEPTH && rec_bounds_check(&rec) && material_check(&m) {
                    let mut attenuation = Vec3::new(0, 0, 0);
                    let mut scattered = Ray::new(Vec3::new(0, 0, 0), Vec3::new(0, 0, 0));
                    if rec.scatter(&cur, &mut attenuation, &mut scattered, rng) {
                        proof {
                            match rec@.material {
                                Material::Lambertian(_) => {},
                                Material::Metal(_) => {},
                                Material::Dieletric(_) => {},
                            }
                            assert(crate::materials::albedo_ok_s(attenuation@));
                            assert(color_step_s(ss, cur@, d as int, attenuation@, scattered@));
                            rays = rays.push(scattered@);
                        }
                        factors.push(attenuation);
                        cur = scattered;
                        d = d + 1;
                        proof {
                            assert forall|k: int| 0 <= k < factors@.len() implies
                                #[trigger] color_step_s(
                                    ss,
                                    rays[k],
                                    depth + k,
                                    factors@[k]@,
                                    rays[k + 1],
                                ) by {
                                if k < factors@.len() - 1 {
                                    assert(color_step_s(
                                        ss,
                                        rays[k],
                                        depth + k,
                                        factors@[k]@,
                                        rays[k + 1],
                                    ));
                                }
                            }
                        }
                    } else {
                        proof {
                            assert(scatter_post_s(
                                rec@.material,
                                cur@,
                                rec@,
                                attenuation@,
                                scattered@,
                                false,
                            ));
                            assert(color_post_s(ss, cur@, d as int, black_s()));
                        }
                        terminal = Vec3::new(0, 0, 0);
                        break ;
                    }
                } else {
                    terminal = Vec3::new(0, 0, 0);
                    break ;
                }
            } else {
                proof {
                    crate::vecmath::lemma_dot_range(
                        cur@.direction,
                        cur@.direction,
                        crate::ray::COORD_LIMIT as int,
                        crate::ray::COORD_LIMIT as int,
                    );
                    lemma_bg_bounds(cur@.direction);
                    lemma_fmul_one(ONE as int - bg_t_s(cur@.direction));
                    lemma_fmul_one(bg_t_s(cur@.direction));
                    lemma_fmul_half(bg_t_s(cur@.direction));
                    assert(bg_t_s(cur@.direction) * (HALF as int) == (HALF as int) * bg_t_s(
                        cur@.direction,
                    )) by (nonlinear_arith);
                    lemma_fmul_range(700_000, bg_t_s(cur@.direction), 700_000, 2 * ONE as int);
                }
                let unit = cur.get_direction().unit_vector();
                let t: i64 = fmul(add64(unit.y, ONE), HALF);
                let white = Vec3::new(ONE, ONE, ONE);
                let blue = Vec3::new(HALF, 700_000, ONE);
                let bg = white.scale(sub64(ONE, t)).add(blue.scale(t));
                proof {
                    assert(bg@ == bg_s(cur@.direction));
                }
                terminal = bg;
                break ;
            }
        }
        let mut c = terminal;
        let mut k: usize = factors.len();
        while k > 0
            invariant
                ss == world@,
                0 <= depth,
                k <= factors@.len(),
                rays.len() == factors@.len() + 1,
                rays[0] == r@,
                forall|kk: int|
                    0 <= kk < factors@.len() ==> #[trigger] color_step_s(
                        ss,
                        rays[kk],
                        depth + kk,
                        factors@[kk]@,
                        rays[kk + 1],
                    ),
                forall|kk: int|
                    0 <= kk < factors@.len() ==> crate::materials::albedo_ok_s(
                        (#[trigger] factors@[kk])@,
                    ),
                0 <= c@.x <= 2 * ONE as int,
                0 <= c@.y <= 2 * ONE as int,
                0 <= c@.z <= 2 * ONE as int,
                color_post_s(ss, rays[k as int], depth + k as int, c@),
            decreases k,
        {
            k = k - 1;
            let f = factors[k];
            proof {
                assert(crate::materials::albedo_ok_s((factors@[k as int])@));
                lemma_fmul_le(f@.x, c@.x);
                lemma_fmul_le(f@.y, c@.y);
                lemma_fmul_le(f@.z, c@.z);
            }
            let cnew = f.mul(c);
            proof {
                let rk = rays[k as int];
                let rn = rays[k as int + 1];
                let fk = factors@[k as int]@;
                let dk = depth + k as int;
                assert(color_step_s(ss, rk, dk, fk, rn));
                let stepped = world_hit_s(ss, rk, T_ACNE as int, T_LIMIT as int).unwrap();
                assert(scatter_post_s(stepped.material, rk, stepped, fk, rn, true));
                assert(color_post_s(ss, rn, dk + 1, c@));
                assert(cnew@ == mul_s(fk, c@));
                assert(exists|c2: SpecVec3|
                    color_post_s(ss, rn, dk + 1, c2) && cnew@ == #[trigger] mul_s(fk, c2));
                assert(exists|att: SpecVec3, sc: SpecRay, b: bool|
                    #[trigger] scatter_post_s(stepped.material, rk, stepped, att, sc, b) && if b {
                        exists|c2: SpecVec3|
                            color_post_s(ss, sc, dk + 1, c2) && cnew@ == #[trigger] mul_s(att, c2)
                    } else {
                        cnew@ == black_s()
                    });
                assert(color_post_s(ss, rk, dk, cnew@));
            }
            c = cnew;
        }
        proof {
            assert(color_post_s(ss, r@, depth as int, c@));
            if ray_ok_s(r@) && world_hit_s(ss, r@, T_ACNE as int, T_LIMIT as int).is_some()
                && depth < MAX_DEPTH && rec_bounds_ok_s(
                world_hit_s(ss, r@, T_ACNE as int, T_LIMIT as int).unwrap(),
            ) && material_ok_s(
                world_hit_s(ss, r@, T_ACNE as int, T_LIMIT as int).unwrap().material,
            ) && material_absorbs_s(
                world_hit_s(ss, r@, T_ACNE as int, T_LIMIT as int).unwrap().material,
                r@,
                world_hit_s(ss, r@, T_ACNE as int, T_LIMIT as int).unwrap(),
            ) {
                lemma_color_post_absorbing(ss, r@, depth as int, c@);
            }
        }
        c
    }
}

} // verus!
