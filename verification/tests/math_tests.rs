//! The vector and scalar kernel on concrete values.

use raytrace::fx::{Fx, FX_ONE};
use raytrace::ray::Ray;
use raytrace::vec3::Vec3;

fn v(x: i64, y: i64, z: i64) -> Vec3 {
    Vec3::new(Fx::from_int(x), Fx::from_int(y), Fx::from_int(z))
}

#[test]
fn test_ray_at() {
    let l = v(1, -1, 0);
    let r = Vec3::new(Fx::from_int(5), Fx::from_raw(163840), Fx::from_int(-4));

    let r = Ray::new(l, r);
    let result = r.at(Fx::from_int(2));

    assert_eq!(result, v(11, 4, -8));
}

#[test]
fn fx_arithmetic_rounds_and_saturates() {
    let half = Fx::from_raw(32768);
    assert_eq!(half.mul(half).raw, 16384);
    assert_eq!(Fx::from_int(3).div(Fx::from_int(2)).raw, 98304);
    assert_eq!(Fx::from_int(4).sqrt().raw, 2 * FX_ONE);
    assert_eq!(Fx::from_raw(i64::MAX).add(Fx::one()).raw, i64::MAX);
    assert_eq!(Fx::from_raw(i64::MIN).sub(Fx::one()).raw, i64::MIN);
    assert_eq!(Fx::from_int(-3).abs().raw, 3 * FX_ONE);
    assert_eq!(Fx::from_int(-7).div(Fx::from_int(2)).raw, -229376);
}

#[test]
fn dot_and_cross_follow_the_formulas() {
    let a = v(1, 2, 3);
    let b = v(4, -5, 6);
    assert_eq!(a.dot(&b).raw, 12 * FX_ONE);
    assert_eq!(a.cross(&b), v(27, 6, -13));
    assert_eq!(a.len_squared().raw, 14 * FX_ONE);
}

#[test]
fn unit_vector_normalises_axes_exactly() {
    let a = v(0, -9, 0);
    assert_eq!(a.unit_vector(), v(0, -1, 0));
    assert_eq!(v(3, 0, 4).len().raw, 5 * FX_ONE);
}

#[test]
fn reflect_twice_about_axis_normal_is_identity() {
    let vv = v(1, -2, 3);
    let n = v(0, 0, 1);
    let once = vv.reflect(n);
    assert_eq!(once, v(1, -2, -3));
    let twice = once.reflect(n);
    assert_eq!(twice, vv);
}

#[test]
fn refract_straight_through_is_unchanged() {
    // Normal incidence at equal indices: the direction passes through.
    let uv = v(0, 0, -1);
    let n = v(0, 0, 1);
    let out = uv.refract(n, Fx::one());
    assert_eq!(out, uv);
}

#[test]
fn near_zero_spots_the_degenerate_vector() {
    assert!(v(0, 0, 0).near_zero());
    assert!(!Vec3::new(Fx::from_raw(1), Fx::zero(), Fx::zero()).near_zero());
}

#[test]
fn random_vectors_stay_in_their_ranges() {
    for _ in 0..32 {
        let p = Vec3::random();
        assert!(0 <= p.x().raw && p.x().raw < FX_ONE);
        assert!(0 <= p.y().raw && p.y().raw < FX_ONE);
        assert!(0 <= p.z().raw && p.z().raw < FX_ONE);

        let q = Vec3::random_from_range(Fx::from_int(-1), Fx::one());
        assert!(-FX_ONE <= q.x().raw && q.x().raw < FX_ONE);

        let s = Vec3::random_in_unit_sphere();
        let sq = s.len_squared().raw;
        assert!(16384 <= sq && sq < FX_ONE);

        let u = Vec3::random_unit_vector();
        let usq = u.len_squared().raw;
        // Normalisation is rounded; the squared length stays within 64
        // steps of one unit.
        assert!(FX_ONE - 64 <= usq && usq <= FX_ONE + 64);

        let nrm = v(0, 1, 0);
        let h = nrm.random_on_hemisphere();
        // The flipped sample can dip below the surface only by the rounding
        // of the three negated products.
        assert!(h.dot(&nrm).raw >= -3);
    }
}
