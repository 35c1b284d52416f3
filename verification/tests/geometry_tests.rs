//! Intersection on concrete scenes: spheres, lists, intervals.

use raytrace::fx::{Fx, FX_ONE};
use raytrace::hittable::HittableList;
use raytrace::interval::Interval;
use raytrace::material::{Lambertian, Material};
use raytrace::ray::Ray;
use raytrace::sphere::Sphere;
use raytrace::vec3::Vec3;

fn v(x: i64, y: i64, z: i64) -> Vec3 {
    Vec3::new(Fx::from_int(x), Fx::from_int(y), Fx::from_int(z))
}

fn grey() -> Material {
    Material::Lambertian(Lambertian::new(Vec3::new(
        Fx::from_raw(32768),
        Fx::from_raw(32768),
        Fx::from_raw(32768),
    )))
}

fn shooting_window() -> Interval {
    Interval::new(Fx::from_raw(64), Fx::from_raw(i64::MAX))
}

#[test]
fn interval_contains_surrounds_clamp() {
    let i = Interval::new(Fx::from_int(1), Fx::from_int(3));
    assert!(i.contains(Fx::from_int(1)));
    assert!(i.contains(Fx::from_int(3)));
    assert!(!i.contains(Fx::from_int(4)));
    assert!(!i.surrounds(Fx::from_int(1)));
    assert!(i.surrounds(Fx::from_int(2)));
    assert_eq!(i.size().raw, 2 * FX_ONE);
    assert_eq!(i.clamp(Fx::from_int(0)).raw, FX_ONE);
    assert_eq!(i.clamp(Fx::from_int(5)).raw, 3 * FX_ONE);
    assert_eq!(i.clamp(Fx::from_int(2)).raw, 2 * FX_ONE);
    let u = Interval::infinity();
    assert!(u.contains(Fx::from_raw(i64::MIN)));
    assert!(u.contains(Fx::from_raw(i64::MAX)));
}

#[test]
fn sphere_new_clamps_negative_radius() {
    let s = Sphere::new(v(0, 0, 0), Fx::from_int(-2), grey());
    assert_eq!(s.radius.raw, 0);
}

#[test]
fn sphere_hit_point_lies_on_ray_and_surface() {
    let s = Sphere::new(v(0, 0, -2), Fx::one(), grey());
    let r = Ray::new(v(0, 0, 0), v(0, 0, -1));
    let rec = s.hit(&r, shooting_window()).expect("the ray points at the sphere");

    // The nearer root of the quadratic, exactly one unit out.
    assert_eq!(rec.t.raw, FX_ONE);
    // The returned point is exactly the ray evaluated at the returned t.
    assert_eq!(rec.p, r.at(rec.t));
    // The point lies on the sphere: |p - centre|^2 == radius^2, exactly here.
    let d = rec.p.sub(s.center);
    assert_eq!(d.len_squared().raw, s.radius.mul(s.radius).raw);
    // Struck from outside, the normal faces the ray.
    assert!(rec.front_face);
    assert_eq!(rec.normal, v(0, 0, 1));
}

#[test]
fn sphere_hit_point_stays_on_surface_within_rounding() {
    // An off-axis strike: the root is rounded, the point stays on the
    // surface within a hundredth of a unit.
    let s = Sphere::new(
        Vec3::new(Fx::from_raw(16384), Fx::from_raw(-8192), Fx::from_int(-3)),
        Fx::one(),
        grey(),
    );
    let r = Ray::new(v(0, 0, 0), v(0, 0, -1));
    let rec = s.hit(&r, shooting_window()).expect("the ray still meets the sphere");
    assert_eq!(rec.p, r.at(rec.t));
    let d = rec.p.sub(s.center);
    let gap = d.len_squared().sub(s.radius.mul(s.radius)).abs();
    assert!(gap.raw <= 656, "off the surface by {} raw steps", gap.raw);
}

#[test]
fn sphere_misses_when_aimed_away() {
    let s = Sphere::new(v(10, 0, -2), Fx::one(), grey());
    let r = Ray::new(v(0, 0, 0), v(0, 0, -1));
    assert!(s.hit(&r, shooting_window()).is_none());

    // Roots behind the origin fall outside the window.
    let behind = Sphere::new(v(0, 0, 2), Fx::one(), grey());
    assert!(behind.hit(&r, shooting_window()).is_none());
}

#[test]
fn zero_radius_sphere_reflects_nothing() {
    let s = Sphere::new(v(0, 0, -2), Fx::zero(), grey());
    let r = Ray::new(v(0, 0, 0), v(0, 0, -1));
    assert!(s.hit(&r, shooting_window()).is_none());
}

#[test]
fn list_returns_nearest_hit_for_every_order() {
    let near = Sphere::new(v(0, 0, -2), Fx::from_raw(32768), grey());
    let far = Sphere::new(v(0, 0, -5), Fx::from_raw(32768), grey());
    let mid = Sphere::new(v(0, 0, -3), Fx::from_raw(32768), grey());
    let r = Ray::new(v(0, 0, 0), v(0, 0, -1));

    let mut a = HittableList::default();
    a.add(near);
    a.add(far);
    a.add(mid);

    let mut b = HittableList::new(mid);
    b.add(far);
    b.add(near);

    let ta = a.hit(&r, shooting_window()).expect("scene a hits").t;
    let tb = b.hit(&r, shooting_window()).expect("scene b hits").t;
    // The nearest sphere sits 1.5 units out, whatever the insertion order.
    assert_eq!(ta.raw, 98304);
    assert_eq!(tb.raw, 98304);
}

#[test]
fn empty_list_never_hits_and_clear_empties() {
    let r = Ray::new(v(0, 0, 0), v(0, 0, -1));
    let empty = HittableList::default();
    assert!(empty.hit(&r, shooting_window()).is_none());

    let mut one = HittableList::new(Sphere::new(v(0, 0, -2), Fx::one(), grey()));
    assert!(one.hit(&r, shooting_window()).is_some());
    one.clear();
    assert!(one.hit(&r, shooting_window()).is_none());
}

#[test]
fn equal_distance_spheres_report_the_same_t() {
    // Two spheres tangent to the same plane of closest approach: the
    // reported t is the shared minimum whichever is inserted first.
    let a = Sphere::new(v(0, 0, -2), Fx::from_raw(32768), grey());
    let b = Sphere::new(Vec3::new(Fx::zero(), Fx::zero(), Fx::from_int(-2)), Fx::from_raw(32768), grey());
    let r = Ray::new(v(0, 0, 0), v(0, 0, -1));

    let mut ab = HittableList::default();
    ab.add(a);
    ab.add(b);
    let mut ba = HittableList::default();
    ba.add(b);
    ba.add(a);

    let t1 = ab.hit(&r, shooting_window()).expect("hits").t;
    let t2 = ba.hit(&r, shooting_window()).expect("hits").t;
    assert_eq!(t1.raw, 98304);
    assert_eq!(t2.raw, 98304);
}
