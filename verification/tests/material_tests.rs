//! Scattering models and the reflectance formula on concrete values.

use raytrace::fx::{Fx, FX_ONE};
use raytrace::hittable::HitRecord;
use raytrace::material::{reflectance, Dielectric, Lambertian, Material, Metal};
use raytrace::ray::Ray;
use raytrace::vec3::Vec3;

fn v(x: i64, y: i64, z: i64) -> Vec3 {
    Vec3::new(Fx::from_int(x), Fx::from_int(y), Fx::from_int(z))
}

#[test]
fn test_reflectance() {
    assert_eq!(reflectance(Fx::zero(), Fx::from_raw(98304)), Fx::one())
}

#[test]
fn reflectance_is_full_at_grazing_for_other_indices() {
    assert_eq!(reflectance(Fx::zero(), Fx::one()).raw, FX_ONE);
    assert_eq!(reflectance(Fx::zero(), Fx::from_raw(157286)).raw, FX_ONE);
    // At normal incidence with equal indices nothing reflects.
    assert_eq!(reflectance(Fx::one(), Fx::one()).raw, 0);
}

#[test]
fn metal_fuzz_clamps_into_the_unit_range() {
    let albedo = v(1, 1, 1);
    assert_eq!(Metal::new(albedo, Fx::from_int(5)).fuzz.raw, FX_ONE);
    assert_eq!(Metal::new(albedo, Fx::from_int(-3)).fuzz.raw, 0);
    assert_eq!(Metal::new(albedo, Fx::from_raw(12345)).fuzz.raw, 12345);
}

fn record_at_origin(normal: Vec3, front_face: bool, mat: Material) -> HitRecord {
    HitRecord { p: v(0, 0, 0), normal, t: Fx::one(), front_face, mat }
}

#[test]
fn lambertian_always_scatters_with_its_albedo() {
    let albedo = Vec3::new(Fx::from_raw(6554), Fx::from_raw(13107), Fx::from_raw(19661));
    let m = Lambertian::new(albedo);
    let rec = record_at_origin(v(0, 1, 0), true, Material::Lambertian(m));
    let r_in = Ray::new(v(0, 2, 0), v(0, -1, 0));
    for _ in 0..16 {
        let out = m.scatter(&r_in, &rec);
        assert!(out.is_scattered);
        assert_eq!(out.attenuation, albedo);
        assert_eq!(out.scattered.origin, rec.p);
        // The direction is the normal plus a unit sample: never degenerate.
        assert!(!out.scattered.direction.near_zero());
    }
}

#[test]
fn metal_scatter_starts_at_the_hit_point() {
    let m = Metal::new(v(1, 1, 1), Fx::zero());
    let rec = record_at_origin(v(0, 1, 0), true, Material::Metal(m));
    let r_in = Ray::new(v(0, 2, 0), Vec3::new(Fx::one(), Fx::from_int(-1), Fx::zero()));
    let out = m.scatter(&r_in, &rec);
    assert!(out.is_scattered);
    assert_eq!(out.scattered.origin, rec.p);
    // With zero fuzz the direction is exactly the normalised reflection.
    let expected = r_in.direction.reflect(rec.normal).unit_vector();
    assert_eq!(out.scattered.direction, expected);
}

#[test]
fn dielectric_reflects_totally_past_the_critical_angle() {
    // Leaving glass (relative index 1.5) at a grazing angle: the sine term
    // exceeds the critical ratio, so the ray must reflect, whatever the
    // Schlick draw says.
    let m = Dielectric::new(Fx::from_raw(98304));
    let rec = record_at_origin(v(0, 0, 1), false, Material::Dielectric(m));
    let dir = Vec3::new(Fx::one(), Fx::zero(), Fx::from_raw(-6554));
    let r_in = Ray::new(v(0, 0, 0), dir);
    let expected = dir.unit_vector().reflect(rec.normal);
    for _ in 0..16 {
        let out = m.scatter(&r_in, &rec);
        assert!(out.is_scattered);
        assert_eq!(out.attenuation, v(1, 1, 1));
        assert_eq!(out.scattered.direction, expected);
    }
}

#[test]
fn material_dispatch_matches_the_variant() {
    let lam = Lambertian::new(v(1, 0, 0));
    let mat = Material::Lambertian(lam);
    let rec = record_at_origin(v(0, 1, 0), true, mat);
    let r_in = Ray::new(v(0, 2, 0), v(0, -1, 0));
    let out = mat.scatter(&r_in, &rec);
    assert!(out.is_scattered);
    assert_eq!(out.attenuation, v(1, 0, 0));
}

#[test]
fn dielectric_refracts_straight_through_at_equal_indices() {
    // Equal indices at normal incidence: the Schlick reflectance is zero,
    // no draw can beat it, and the direction passes through unchanged.
    let m = Dielectric::new(Fx::one());
    let rec = record_at_origin(v(0, 0, 1), true, Material::Dielectric(m));
    let dir = v(0, 0, -1);
    let r_in = Ray::new(v(0, 0, 2), dir);
    for _ in 0..16 {
        let out = m.scatter(&r_in, &rec);
        assert_eq!(out.scattered.direction, dir);
    }
}
