//! The render driver: per-pixel sampling, averaging, gamma correction
//! and packing into a 24-bit RGB word.
//!
//! Pixels are mutually independent; a caller may compute them in any
//! order or in parallel, each worker owning its generator.

use crate::camera::{cam_ray_ok_s, camera_ok_s, Camera, SpecCamera};
use crate::color::color_post_s;
use crate::fixed::{
    fdiv_s, floor_div_i128, fmul, fmul_s, fsqrt, fsqrt_s, is_sqrt, lemma_fdiv_unit_interval,
    lemma_fmul_nonneg, lemma_fmul_range, lemma_sqrt_s_props, ONE, SCALE,
};
use crate::hitables::{world_ok_s, HitableList, SpecSphere};
use crate::ray::SpecRay;
use crate::vecmath::{add_s, SpecVec3, Vec3};
use vstd::arithmetic::div_mod::{
    lemma_div_is_ordered, lemma_div_multiples_vanish, lemma_div_pos_is_pos,
};
use vstd::prelude::*;

verus! {

/// The 8-bit scaling factor, a little below 256 so that a channel at
/// full intensity still packs into a byte.
pub const RGB_SCALE: i64 = 255_990_000;

/// Largest admitted image dimension and sample count.
pub const DIM_LIMIT: usize = 1_000_000;

/// One colour channel of the packed word: the integer part of the
/// channel scaled by `255.99`, clamped to a byte.
pub open spec fn rgb_channel_s(x: int) -> int {
    let v = fmul_s(x, RGB_SCALE as int) / (SCALE as int);
    if v > 255 {
        255
    } else if v < 0 {
        0
    } else {
        v
    }
}

/// The packed 24-bit word `R << 16 | G << 8 | B`.
pub open spec fn packed_rgb_s(c: SpecVec3) -> int {
    rgb_channel_s(c.x) * 65536 + rgb_channel_s(c.y) * 256 + rgb_channel_s(c.z)
}

impl Vec3 {
    /// Pack a colour into a 24-bit RGB word, each channel scaled to the
    /// byte range and clamped.
    pub fn to_rgb(&self) -> (r: u32)
        requires
            0 <= self@.x <= 2 * ONE as int,
            0 <= self@.y <= 2 * ONE as int,
            0 <= self@.z <= 2 * ONE as int,
        ensures
            r as int == packed_rgb_s(self@),
    {
        let cr: u32 = rgb_channel(self.x);
        let cg: u32 = rgb_channel(self.y);
        let cb: u32 = rgb_channel(self.z);
        cr * 65536 + cg * 256 + cb
    }
}

/// One channel: scale, take the integer part, clamp to a byte.
fn rgb_channel(x: i64) -> (r: u32)
    requires
        0 <= x <= 2 * ONE as int,
    ensures
        r as int == rgb_channel_s(x as int),
        r <= 255,
{
    proof {
        lemma_fmul_range(x as int, RGB_SCALE as int, 2 * ONE as int, RGB_SCALE as int);
        lemma_fmul_nonneg(x as int, RGB_SCALE as int);
    }
    let scaled: i64 = fmul(x, RGB_SCALE);
    let v: i128 = floor_div_i128(scaled as i128, SCALE as i128);
    proof {
        lemma_div_pos_is_pos(scaled as int, SCALE as int);
        lemma_div_is_ordered(scaled as int, 0x8000_0000_0000_0000, SCALE as int);
    }
    if v > 255 {
        255
    } else {
        v as u32
    }
}

/// The sum of a sequence of colours; vector addition is exact, so the
/// fold order is immaterial.
pub open spec fn sum_colors_s(cs: Seq<SpecVec3>) -> SpecVec3
    decreases cs.len(),
{
    if cs.len() == 0 {
        SpecVec3 { x: 0, y: 0, z: 0 }
    } else {
        add_s(sum_colors_s(cs.drop_last()), cs.last())
    }
}

/// One admissible sample of pixel `(i, j)`: a colour the integrator
/// can return, at depth zero, for some ray the camera can emit through
/// the jittered viewport point.
pub open spec fn pixel_sample_s(
    ss: Seq<SpecSphere>,
    cam: SpecCamera,
    i: int,
    j: int,
    width: int,
    height: int,
    jx: int,
    jy: int,
    c: SpecVec3,
) -> bool {
    let u = fdiv_s(i * (ONE as int) + jx, width * (ONE as int));
    let v = fdiv_s((height - 1 - j) * (ONE as int) + jy, height * (ONE as int));
    exists|ray: SpecRay| #[trigger] cam_ray_ok_s(cam, u, v, ray) && color_post_s(ss, ray, 0, c)
}

/// One admissible entry: the jitter pair lies in the unit square, the
/// sample is a colour, and it is admissible for that jitter.
pub open spec fn pixel_entry_ok_s(
    ss: Seq<SpecSphere>,
    cam: SpecCamera,
    i: int,
    j: int,
    width: int,
    height: int,
    jx: int,
    jy: int,
    c: SpecVec3,
) -> bool {
    &&& 0 <= jx < ONE as int
    &&& 0 <= jy < ONE as int
    &&& 0 <= c.x <= 2 * ONE as int
    &&& 0 <= c.y <= 2 * ONE as int
    &&& 0 <= c.z <= 2 * ONE as int
    &&& pixel_sample_s(ss, cam, i, j, width, height, jx, jy, c)
}

/// Every one of the samples is admissible for its jitter pair, and all
/// stay within the colour range.
pub open spec fn pixel_samples_ok_s(
    ss: Seq<SpecSphere>,
    cam: SpecCamera,
    i: int,
    j: int,
    width: int,
    height: int,
    jxs: Seq<int>,
    jys: Seq<int>,
    cs: Seq<SpecVec3>,
) -> bool {
    &&& jxs.len() == cs.len()
    &&& jys.len() == cs.len()
    &&& forall|k: int|
        0 <= k < cs.len() ==> #[trigger] pixel_entry_ok_s(
            ss,
            cam,
            i,
            j,
            width,
            height,
            jxs[k],
            jys[k],
            cs[k],
        )
}

/// What the pixel routine returns: for some `ns` jitter pairs in
/// `[0, 1)^2` and admissible integrator samples, the per-channel
/// square root of the per-channel average of the samples.
pub open spec fn calc_col_post_s(
    ss: Seq<SpecSphere>,
    cam: SpecCamera,
    i: int,
    j: int,
    width: int,
    height: int,
    ns: int,
    c: SpecVec3,
) -> bool {
    exists|jxs: Seq<int>, jys: Seq<int>, cs: Seq<SpecVec3>|
        #[trigger] pixel_samples_ok_s(ss, cam, i, j, width, height, jxs, jys, cs) && cs.len() == ns
            && c == (SpecVec3 {
            x: fsqrt_s(fdiv_s(sum_colors_s(cs).x, ns * (ONE as int))),
            y: fsqrt_s(fdiv_s(sum_colors_s(cs).y, ns * (ONE as int))),
            z: fsqrt_s(fdiv_s(sum_colors_s(cs).z, ns * (ONE as int))),
        })
}

/// Colour of the pixel `(i, j)`: average the integrator over `ns`
/// jittered camera rays through the pixel, then apply the square-root
/// gamma correction.  The row index runs top to bottom.
pub fn calc_col(
    i: usize,
    j: usize,
    world: &HitableList,
    cam: &Camera,
    width: usize,
    height: usize,
    ns: usize,
    rng: &mut rand::rngs::StdRng,
) -> (c: Vec3)
    requires
        world_ok_s(world@),
        camera_ok_s(cam@),
        1 <= width <= DIM_LIMIT,
        1 <= height <= DIM_LIMIT,
        1 <= ns <= DIM_LIMIT,
        i < width,
        j < height,
    ensures
        0 <= c@.x <= 2 * ONE as int,
        0 <= c@.y <= 2 * ONE as int,
        0 <= c@.z <= 2 * ONE as int,
        calc_col_post_s(
            world@,
            cam@,
            i as int,
            j as int,
            width as int,
            height as int,
            ns as int,
            c@,
        ),
{
    let mut col = Vec3::new(0, 0, 0);
    let mut s: usize = 0;
    let row: usize = height - 1 - j;
    let ghost mut jxs: Seq<int> = Seq::empty();
    let ghost mut jys: Seq<int> = Seq::empty();
    let ghost mut cs: Seq<SpecVec3> = Seq::empty();
    while s < ns
        invariant
            world_ok_s(world@),
            camera_ok_s(cam@),
            1 <= width <= DIM_LIMIT,
            1 <= height <= DIM_LIMIT,
            1 <= ns <= DIM_LIMIT,
            i < width,
            row < height,
            row as int == height as int - 1 - j as int,
            s <= ns,
            0 <= col@.x <= 2 * (ONE as int) * s,
            0 <= col@.y <= 2 * (ONE as int) * s,
            0 <= col@.z <= 2 * (ONE as int) * s,
            cs.len() == s,
            col@ == sum_colors_s(cs),
            pixel_samples_ok_s(
                world@,
                cam@,
                i as int,
                j as int,
                width as int,
                height as int,
                jxs,
                jys,
                cs,
            ),
        decreases ns - s,
    {
        let jx: i64 = crate::rng::rand_unit(rng);
        let jy: i64 = crate::rng::rand_unit(rng);
        proof {
            lemma_fdiv_unit_interval(
                i as int * (ONE as int) + jx as int,
                width as int * (ONE as int),
            );
            lemma_fdiv_unit_interval(
                row as int * (ONE as int) + jy as int,
                height as int * (ONE as int),
            );
            assert((i as int) * (ONE as int) + (jx as int) < (width as int) * (ONE as int))
                by (nonlinear_arith)
                requires
                    i < width,
                    0 <= jx < ONE,
            ;
            assert((row as int) * (ONE as int) + (jy as int) < (height as int) * (ONE as int))
                by (nonlinear_arith)
                requires
                    row < height,
                    0 <= jy < ONE,
            ;
            assert(0 <= i as int * (ONE as int) && 0 <= row as int * (ONE as int))
                by (nonlinear_arith);
        }
        let un: i64 = (i as i64) * ONE + jx;
        let ud: i64 = (width as i64) * ONE;
        let vn: i64 = (row as i64) * ONE + jy;
        let vd: i64 = (height as i64) * ONE;
        let u: i64 = crate::fixed::fdiv(un, ud);
        let v: i64 = crate::fixed::fdiv(vn, vd);
        let r = cam.get_ray(u, v, rng);
        let sample = Vec3::color_material(&r, world, 0, rng);
        proof {
            assert(2 * (ONE as int) * (s + 1) == 2 * (ONE as int) * s + 2 * (ONE as int))
                by (nonlinear_arith);
            assert(2 * (ONE as int) * s <= 2_000_000_000_000) by (nonlinear_arith)
                requires
                    s <= ns,
                    ns <= 1_000_000,
            ;
        }
        proof {
            let uu = fdiv_s((i as int) * (ONE as int) + jx as int, (width as int) * (ONE as int));
            let vv = fdiv_s(
                (height as int - 1 - j as int) * (ONE as int) + jy as int,
                (height as int) * (ONE as int),
            );
            assert(un as int == (i as int) * (ONE as int) + jx as int);
            assert(ud as int == (width as int) * (ONE as int));
            assert(vn as int == (height as int - 1 - j as int) * (ONE as int) + jy as int);
            assert(vd as int == (height as int) * (ONE as int));
            assert(u as int == uu && v as int == vv);
            assert(cam_ray_ok_s(cam@, uu, vv, r@));
            assert(color_post_s(world@, r@, 0, sample@));
            assert(pixel_sample_s(
                world@,
                cam@,
                i as int,
                j as int,
                width as int,
                height as int,
                jx as int,
                jy as int,
                sample@,
            ));
            let jxs0 = jxs;
            let jys0 = jys;
            let cs0 = cs;
            jxs = jxs.push(jx as int);
            jys = jys.push(jy as int);
            cs = cs.push(sample@);
            assert(cs.drop_last() =~= cs0);
            assert(cs.last() == sample@);
            assert(sum_colors_s(cs) == add_s(sum_colors_s(cs0), sample@));
            assert forall|k2: int| 0 <= k2 < cs.len() implies #[trigger] pixel_entry_ok_s(
                world@,
                cam@,
                i as int,
                j as int,
                width as int,
                height as int,
                jxs[k2],
                jys[k2],
                cs[k2],
            ) by {
                if k2 < cs.len() - 1 {
                    assert(cs[k2] == cs0[k2] && jxs[k2] == jxs0[k2] && jys[k2] == jys0[k2]);
                    assert(pixel_entry_ok_s(
                        world@,
                        cam@,
                        i as int,
                        j as int,
                        width as int,
                        height as int,
                        jxs0[k2],
                        jys0[k2],
                        cs0[k2],
                    ));
                } else {
                    assert(cs[k2] == sample@ && jxs[k2] == jx as int && jys[k2] == jy as int);
                }
            }
        }
        col = col.add(sample);
        s = s + 1;
    }
    proof {
        assert(2 * (ONE as int) * ns <= 2_000_000_000_000) by (nonlinear_arith)
            requires
                ns <= 1_000_000,
        ;
        crate::vecmath::lemma_div_range(col@, ns as int * (ONE as int), 2_000_000_000_000, 1);
        lemma_avg_in_unit(col@.x, ns as int);
        lemma_avg_in_unit(col@.y, ns as int);
        lemma_avg_in_unit(col@.z, ns as int);
    }
    let avg = col.div((ns as i64) * ONE);
    proof {
        lemma_gamma_bound(avg@.x);
        lemma_gamma_bound(avg@.y);
        lemma_gamma_bound(avg@.z);
    }
    let result = Vec3::new(fsqrt(avg.x), fsqrt(avg.y), fsqrt(avg.z));
    proof {
        assert(pixel_samples_ok_s(
            world@,
            cam@,
            i as int,
            j as int,
            width as int,
            height as int,
            jxs,
            jys,
            cs,
        ));
        assert(((ns as i64) * ONE) as int == (ns as int) * (ONE as int));
        assert(result@ == (SpecVec3 {
            x: fsqrt_s(fdiv_s(sum_colors_s(cs).x, (ns as int) * (ONE as int))),
            y: fsqrt_s(fdiv_s(sum_colors_s(cs).y, (ns as int) * (ONE as int))),
            z: fsqrt_s(fdiv_s(sum_colors_s(cs).z, (ns as int) * (ONE as int))),
        }));
    }
    result
}

/// An average of colour channels stays a colour channel.
proof fn lemma_avg_in_unit(x: int, ns: int)
    requires
        0 <= x <= 2 * (ONE as int) * ns,
        1 <= ns,
    ensures
        0 <= fdiv_s(x, ns * (ONE as int)) <= 2 * ONE as int,
{
    let s = SCALE as int;
    let b = ns * s;
    lemma_div_pos_is_pos(x * s, b);
    assert(x * s <= b * (2 * s) && 0 < b) by (nonlinear_arith)
        requires
            0 <= x <= 2 * s * ns,
            1 <= ns,
            s == 1_000_000,
            b == ns * s,
    ;
    lemma_div_is_ordered(x * s, b * (2 * s), b);
    lemma_div_multiples_vanish(2 * s, b);
}

/// The square root of a channel within two units stays within two
/// units.
proof fn lemma_gamma_bound(x: int)
    requires
        0 <= x <= 2 * ONE as int,
    ensures
        0 <= crate::fixed::fsqrt_s(x) <= 2 * ONE as int,
{
    lemma_sqrt_s_props(x * (SCALE as int));
    assert(crate::fixed::fsqrt_s(x) <= 2 * ONE as int) by (nonlinear_arith)
        requires
            is_sqrt(x * (SCALE as int), crate::fixed::fsqrt_s(x)),
            0 <= x <= 2_000_000,
    ;
}

} // verus!
