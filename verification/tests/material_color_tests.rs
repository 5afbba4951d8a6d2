use rand::SeedableRng;
use raytrace::camera::{camera_check, Camera};
use raytrace::color::MAX_DEPTH;
use raytrace::fixed::{HALF, ONE};
use raytrace::hitables::{HitRecord, HitableList, Sphere};
use raytrace::materials::{Dieletric, Lambertian, Material, Metal};
use raytrace::ray::Ray;
use raytrace::render::calc_col;
use raytrace::vecmath::Vec3;

fn rng(seed: u64) -> rand::rngs::StdRng {
    rand::rngs::StdRng::seed_from_u64(seed)
}

#[test]
fn lambertian_always_scatters() {
    let mut g = rng(1);
    let albedo = Vec3::new(800_000, 300_000, 300_000);
    let rec = HitRecord::new(
        HALF,
        Vec3::new(0, 0, 0),
        Vec3::new(0, ONE, 0),
        Material::Lambertian(Lambertian::new(albedo)),
    );
    let r_in = Ray::new(Vec3::new(0, ONE, 0), Vec3::new(0, -ONE, 0));
    for _ in 0..50 {
        let mut att = Vec3::new(0, 0, 0);
        let mut sc = Ray::new(Vec3::new(0, 0, 0), Vec3::new(0, 0, 0));
        assert!(rec.scatter(&r_in, &mut att, &mut sc, &mut g));
        assert_eq!(att, albedo);
        assert_eq!(sc.get_origin(), Vec3::new(0, 0, 0));
    }
}

#[test]
fn metal_with_zero_fuzz_mirrors_head_on() {
    let mut g = rng(2);
    let albedo = Vec3::new(800_000, 800_000, 0);
    let rec = HitRecord::new(
        HALF,
        Vec3::new(0, 0, 0),
        Vec3::new(0, ONE, 0),
        Material::Metal(Metal::new(albedo, 0)),
    );
    let r_in = Ray::new(Vec3::new(0, ONE, 0), Vec3::new(0, -ONE, 0));
    let mut att = Vec3::new(0, 0, 0);
    let mut sc = Ray::new(Vec3::new(0, 0, 0), Vec3::new(0, 0, 0));
    assert!(rec.scatter(&r_in, &mut att, &mut sc, &mut g));
    assert_eq!(att, albedo);
    assert_eq!(sc.get_direction(), Vec3::new(0, ONE, 0));
}

#[test]
fn metal_with_zero_fuzz_mirrors_diagonal() {
    let mut g = rng(3);
    let rec = HitRecord::new(
        HALF,
        Vec3::new(0, 0, 0),
        Vec3::new(0, ONE, 0),
        Material::Metal(Metal::new(Vec3::new(HALF, HALF, HALF), 0)),
    );
    let r_in = Ray::new(Vec3::new(-ONE, ONE, 0), Vec3::new(ONE, -ONE, 0));
    let mut att = Vec3::new(0, 0, 0);
    let mut sc = Ray::new(Vec3::new(0, 0, 0), Vec3::new(0, 0, 0));
    assert!(rec.scatter(&r_in, &mut att, &mut sc, &mut g));
    // unit(1, -1, 0) floors to (707107, -707108, 0); its mirror about
    // the y axis flips the y component exactly.
    assert_eq!(sc.get_direction(), Vec3::new(707_107, 707_108, 0));
}

#[test]
fn metal_absorbs_when_reflection_reenters() {
    // A ray leaving the centre of a metal sphere strikes it from
    // inside; the reflection points against the outward normal and the
    // ray is absorbed, deterministically.
    let mut g = rng(4);
    let rec = HitRecord::new(
        ONE,
        Vec3::new(0, 0, -ONE),
        Vec3::new(0, 0, -ONE),
        Material::Metal(Metal::new(Vec3::new(HALF, HALF, HALF), 0)),
    );
    let r_in = Ray::new(Vec3::new(0, 0, 0), Vec3::new(0, 0, -ONE));
    let mut att = Vec3::new(0, 0, 0);
    let mut sc = Ray::new(Vec3::new(0, 0, 0), Vec3::new(0, 0, 0));
    assert!(!rec.scatter(&r_in, &mut att, &mut sc, &mut g));
}

#[test]
fn dielectric_with_unit_index_passes_straight_through() {
    let mut g = rng(5);
    let rec = HitRecord::new(
        HALF,
        Vec3::new(0, 0, -HALF),
        Vec3::new(0, 0, ONE),
        Material::Dieletric(Dieletric::new(ONE)),
    );
    let r_in = Ray::new(Vec3::new(0, 0, 0), Vec3::new(0, 0, -ONE));
    let mut att = Vec3::new(0, 0, 0);
    let mut sc = Ray::new(Vec3::new(0, 0, 0), Vec3::new(0, 0, 0));
    assert!(rec.scatter(&r_in, &mut att, &mut sc, &mut g));
    assert_eq!(att, Vec3::new(ONE, ONE, ONE));
    assert_eq!(sc.get_origin(), Vec3::new(0, 0, -HALF));
    assert_eq!(sc.get_direction(), Vec3::new(0, 0, -ONE));
}

#[test]
fn dielectric_exit_follows_schlick_reflectance() {
    // Leaving the medium along the normal with index 1.5: refraction is
    // geometrically possible and Schlick's reflectance is about one
    // percent, so almost every draw refracts straight on and the rest
    // mirror back, exactly the two closed-form directions.
    let rec = HitRecord::new(
        HALF,
        Vec3::new(0, 0, 0),
        Vec3::new(0, 0, ONE),
        Material::Dieletric(Dieletric::new(ONE + HALF)),
    );
    let r_in = Ray::new(Vec3::new(0, 0, -ONE), Vec3::new(0, 0, ONE));
    let refracted = Vec3::new(0, 0, ONE);
    let reflected = Vec3::new(0, 0, -ONE);
    let mut refractions: usize = 0;
    for seed in 0..50u64 {
        let mut g = rng(600 + seed);
        let mut att = Vec3::new(0, 0, 0);
        let mut sc = Ray::new(Vec3::new(0, 0, 0), Vec3::new(0, 0, 0));
        assert!(rec.scatter(&r_in, &mut att, &mut sc, &mut g));
        assert_eq!(att, Vec3::new(ONE, ONE, ONE));
        let dir = sc.get_direction();
        assert!(dir == refracted || dir == reflected);
        if dir == refracted {
            refractions += 1;
        }
    }
    assert!(refractions >= 45);
}

#[test]
fn dielectric_with_tiny_index_scatters() {
    // An index below one is representable and admitted: scattering
    // still always succeeds and never attenuates.
    let mut g = rng(14);
    let rec = HitRecord::new(
        HALF,
        Vec3::new(0, 0, -HALF),
        Vec3::new(0, 0, ONE),
        Material::Dieletric(Dieletric::new(HALF)),
    );
    let r_in = Ray::new(Vec3::new(0, 0, 0), Vec3::new(0, 0, -ONE));
    let mut att = Vec3::new(0, 0, 0);
    let mut sc = Ray::new(Vec3::new(0, 0, 0), Vec3::new(0, 0, 0));
    assert!(rec.scatter(&r_in, &mut att, &mut sc, &mut g));
    assert_eq!(att, Vec3::new(ONE, ONE, ONE));
}

#[test]
fn background_straight_up_is_sky_blue() {
    let mut g = rng(7);
    let w = HitableList { list: vec![] };
    let r = Ray::new(Vec3::new(0, 0, 0), Vec3::new(0, ONE, 0));
    let c = Vec3::color_material(&r, &w, 0, &mut g);
    assert_eq!(c, Vec3::new(HALF, 700_000, ONE));
}

#[test]
fn background_sideways_is_the_even_blend() {
    let mut g = rng(8);
    let w = HitableList { list: vec![] };
    let r = Ray::new(Vec3::new(0, 0, 0), Vec3::new(ONE, 0, 0));
    let c = Vec3::color_material(&r, &w, 0, &mut g);
    assert_eq!(c, Vec3::new(750_000, 850_000, ONE));
}

#[test]
fn background_is_independent_of_the_generator() {
    let mut g1 = rng(9);
    let mut g2 = rng(999);
    let w = HitableList { list: vec![] };
    let r = Ray::new(Vec3::new(3 * ONE, -2 * ONE, ONE), Vec3::new(-ONE, HALF, 250_000));
    let c1 = Vec3::color_material(&r, &w, 0, &mut g1);
    let c2 = Vec3::color_material(&r, &w, 0, &mut g2);
    assert_eq!(c1, c2);
}

#[test]
fn absorbing_configuration_is_black_near_the_depth_limit() {
    // A metal sphere struck from inside absorbs the ray: black, even
    // one bounce before the cutoff.
    let mut g = rng(10);
    let w = HitableList {
        list: vec![
            Sphere::new(
                Vec3::new(0, 0, 0),
                ONE,
                Material::Metal(Metal::new(Vec3::new(HALF, HALF, HALF), 0)),
            ),
        ],
    };
    let r = Ray::new(Vec3::new(0, 0, 0), Vec3::new(0, 0, -ONE));
    let c = Vec3::color_material(&r, &w, MAX_DEPTH - 1, &mut g);
    assert_eq!(c, Vec3::new(0, 0, 0));
}

#[test]
fn exhausted_depth_is_black() {
    let mut g = rng(11);
    let w = HitableList {
        list: vec![
            Sphere::new(
                Vec3::new(0, 0, -ONE),
                HALF,
                Material::Lambertian(Lambertian::new(Vec3::new(HALF, HALF, HALF))),
            ),
        ],
    };
    let r = Ray::new(Vec3::new(0, 0, 0), Vec3::new(0, 0, -ONE));
    let c = Vec3::color_material(&r, &w, MAX_DEPTH, &mut g);
    assert_eq!(c, Vec3::new(0, 0, 0));
}

fn test_camera() -> Camera {
    Camera::new(
        Vec3::new(0, 0, 0),
        Vec3::new(0, 0, -ONE),
        Vec3::new(0, ONE, 0),
        ONE,
        ONE,
        0,
        ONE,
    )
}

#[test]
fn camera_with_closed_aperture_is_deterministic() {
    let cam = test_camera();
    assert!(camera_check(&cam));
    let mut g = rng(12);
    let r = cam.get_ray(HALF, HALF, &mut g);
    assert_eq!(r.get_origin(), Vec3::new(0, 0, 0));
    assert_eq!(r.get_direction(), Vec3::new(0, 0, -ONE));
    let corner = cam.get_ray(0, 0, &mut g);
    assert_eq!(corner.get_direction(), Vec3::new(-ONE, -ONE, -ONE));
}

#[test]
fn pixel_colours_stay_in_range() {
    let cam = test_camera();
    let w = HitableList {
        list: vec![
            Sphere::new(
                Vec3::new(0, 0, -2 * ONE),
                HALF,
                Material::Lambertian(Lambertian::new(Vec3::new(800_000, 300_000, 300_000))),
            ),
        ],
    };
    let mut g = rng(13);
    for i in 0..4usize {
        for j in 0..4usize {
            let c = calc_col(i, j, &w, &cam, 4, 4, 5, &mut g);
            assert!(0 <= c.x && c.x <= 2 * ONE);
            assert!(0 <= c.y && c.y <= 2 * ONE);
            assert!(0 <= c.z && c.z <= 2 * ONE);
            let _packed = c.to_rgb();
        }
    }
}
