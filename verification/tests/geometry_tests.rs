use raytrace::fixed::{HALF, ONE};
use raytrace::hitables::{Hitable, HitRecord, HitableList, Sphere};
use raytrace::materials::{Lambertian, Material};
use raytrace::ray::{Ray, T_LIMIT};
use raytrace::vecmath::Vec3;

fn grey() -> Material {
    Material::Lambertian(Lambertian::new(Vec3::new(HALF, HALF, HALF)))
}

fn empty_rec() -> HitRecord {
    HitRecord::new(0, Vec3::new(0, 0, 0), Vec3::new(0, 0, 0), grey())
}

#[test]
fn head_on_hit_takes_the_near_root() {
    // Sphere of radius one half at (0, 0, -1), ray from the origin
    // straight down the axis: hit at t = 1/2.
    let s = Sphere::new(Vec3::new(0, 0, -ONE), HALF, grey());
    let r = Ray::new(Vec3::new(0, 0, 0), Vec3::new(0, 0, -ONE));
    let mut rec = empty_rec();
    assert!(s.hit(&r, 1_000, T_LIMIT, &mut rec));
    assert_eq!(rec.get_t(), HALF);
    assert_eq!(rec.get_p(), Vec3::new(0, 0, -HALF));
    assert_eq!(rec.get_normal(), Vec3::new(0, 0, ONE));
    assert_eq!(rec.get_material(), grey());
}

#[test]
fn window_excludes_and_far_root_qualifies() {
    let s = Sphere::new(Vec3::new(0, 0, -ONE), HALF, grey());
    let r = Ray::new(Vec3::new(0, 0, 0), Vec3::new(0, 0, -ONE));
    // Upper bound below the near root: no hit at all.
    let mut rec = empty_rec();
    assert!(!s.hit(&r, 1_000, 400_000, &mut rec));
    // Lower bound above the near root: the far root is taken.
    let mut rec2 = empty_rec();
    assert!(s.hit(&r, 600_000, T_LIMIT, &mut rec2));
    assert_eq!(rec2.get_t(), ONE + HALF);
    assert_eq!(rec2.get_p(), Vec3::new(0, 0, -(ONE + HALF)));
    assert_eq!(rec2.get_normal(), Vec3::new(0, 0, -ONE));
}

#[test]
fn negative_discriminant_misses() {
    // Ray pointing up, sphere far down the axis: no intersection.
    let s = Sphere::new(Vec3::new(0, 0, -2 * ONE), HALF, grey());
    let r = Ray::new(Vec3::new(0, 0, 0), Vec3::new(0, ONE, 0));
    let mut rec = empty_rec();
    assert!(!s.hit(&r, 1_000, T_LIMIT, &mut rec));
    // The record is untouched on a miss.
    assert_eq!(rec, empty_rec());
}

#[test]
fn hit_is_idempotent() {
    let s = Sphere::new(Vec3::new(3 * ONE, -ONE, -4 * ONE), 2 * ONE, grey());
    let r = Ray::new(Vec3::new(ONE, 0, ONE), Vec3::new(HALF, -250_000, -ONE));
    let mut rec1 = empty_rec();
    let mut rec2 = empty_rec();
    let b1 = s.hit(&r, 1_000, T_LIMIT, &mut rec1);
    let b2 = s.hit(&r, 1_000, T_LIMIT, &mut rec2);
    assert_eq!(b1, b2);
    assert_eq!(rec1, rec2);
}

#[test]
fn world_returns_nearest_in_any_order() {
    let near = Sphere::new(Vec3::new(0, 0, -ONE), HALF, grey());
    let far = Sphere::new(
        Vec3::new(0, 0, -3 * ONE),
        HALF,
        Material::Lambertian(Lambertian::new(Vec3::new(ONE, 0, 0))),
    );
    let r = Ray::new(Vec3::new(0, 0, 0), Vec3::new(0, 0, -ONE));
    let w1 = HitableList { list: vec![near, far] };
    let w2 = HitableList { list: vec![far, near] };
    let mut rec1 = empty_rec();
    let mut rec2 = empty_rec();
    assert!(w1.hit_list(&r, 1_000, T_LIMIT, &mut rec1));
    assert!(w2.hit_list(&r, 1_000, T_LIMIT, &mut rec2));
    assert_eq!(rec1, rec2);
    assert_eq!(rec1.get_t(), HALF);
    assert_eq!(rec1.get_material(), grey());
}

#[test]
fn empty_world_never_hits() {
    let w = HitableList { list: vec![] };
    let r = Ray::new(Vec3::new(0, 0, 0), Vec3::new(0, 0, -ONE));
    let mut rec = empty_rec();
    assert!(!w.hit_list(&r, 1_000, T_LIMIT, &mut rec));
}

#[test]
fn world_check_accepts_scene_spheres() {
    let w = HitableList {
        list: vec![
            Sphere::new(Vec3::new(0, -1000 * ONE, 0), 1000 * ONE, grey()),
            Sphere::new(Vec3::new(4 * ONE, ONE, 0), ONE, grey()),
        ],
    };
    assert!(w.world_check());
    let bad = HitableList { list: vec![Sphere::new(Vec3::new(0, 0, 0), 0, grey())] };
    assert!(!bad.world_check());
}

#[test]
fn hit_normal_points_away_from_the_center() {
    // An oblique hit: the normal's components carry the signs of
    // p - center, so their dot product is nonnegative.
    let center = Vec3::new(3 * ONE, -ONE, -4 * ONE);
    let s = Sphere::new(center, 2 * ONE, grey());
    let r = Ray::new(Vec3::new(ONE, 0, ONE), Vec3::new(HALF, -250_000, -ONE));
    let mut rec = empty_rec();
    assert!(s.hit(&r, 1_000, T_LIMIT, &mut rec));
    let d = rec.get_p().sub(center);
    let n = rec.get_normal();
    assert!(n.dot(d) >= 0);
    assert!(d.x.signum() == n.x.signum() || n.x == 0);
    assert!(d.y.signum() == n.y.signum() || n.y == 0);
    assert!(d.z.signum() == n.z.signum() || n.z == 0);
}

#[test]
fn ray_accessors_return_what_was_given() {
    let o = Vec3::new(ONE, 2 * ONE, 3 * ONE);
    let d = Vec3::new(0, -ONE, 0);
    let r = Ray::new(o, d);
    assert_eq!(r.get_origin(), o);
    assert_eq!(r.get_direction(), d);
    assert_eq!(r.point_at_parameter(2 * ONE), Vec3::new(ONE, 0, 3 * ONE));
}
