//! Colour emission and the end-to-end image.

use raytrace::camera::Camera;
use raytrace::color::{color_byte, linear_to_gamma, push_dec, write_color};
use raytrace::fx::{Fx, FX_ONE};
use raytrace::hittable::HittableList;
use raytrace::material::{Lambertian, Material};
use raytrace::sphere::Sphere;
use raytrace::vec3::Vec3;

fn v(x: i64, y: i64, z: i64) -> Vec3 {
    Vec3::new(Fx::from_int(x), Fx::from_int(y), Fx::from_int(z))
}

#[test]
fn gamma_is_the_square_root_of_positive_intensity() {
    assert_eq!(linear_to_gamma(Fx::from_raw(16384)).raw, 32768);
    assert_eq!(linear_to_gamma(Fx::zero()).raw, 0);
    assert_eq!(linear_to_gamma(Fx::from_int(-2)).raw, 0);
}

#[test]
fn overfull_channels_clamp_to_255_and_empty_to_0() {
    assert_eq!(color_byte(Fx::one()), 255);
    assert_eq!(color_byte(Fx::from_int(7)), 255);
    assert_eq!(color_byte(Fx::from_raw(i64::MAX)), 255);
    assert_eq!(color_byte(Fx::zero()), 0);
    assert_eq!(color_byte(Fx::from_int(-1)), 0);
    // A quarter intensity gamma-corrects to one half: byte 128.
    assert_eq!(color_byte(Fx::from_raw(16384)), 128);
}

#[test]
fn decimal_formatting_matches() {
    let mut out: Vec<u8> = Vec::new();
    push_dec(&mut out, 0);
    out.push(32);
    push_dec(&mut out, 7);
    out.push(32);
    push_dec(&mut out, 255);
    out.push(32);
    push_dec(&mut out, 1000);
    assert_eq!(out, b"0 7 255 1000");
}

#[test]
fn write_color_emits_one_line() {
    let mut out: Vec<u8> = Vec::new();
    write_color(&mut out, Vec3::new(Fx::one(), Fx::zero(), Fx::from_raw(16384)));
    assert_eq!(out, b"255 0 128\n");
}

fn looking_down_camera(width: u64, samples: u64, depth: u32) -> Camera {
    Camera::new(
        Fx::one(),
        width,
        samples,
        depth,
        Fx::one(),
        v(0, 1, 0),
        v(0, 0, 0),
        v(0, 0, 1),
    )
}

#[test]
fn camera_floors_the_image_height_at_one() {
    let cam = looking_down_camera(4, 1, 1);
    assert_eq!(cam.image_height, 4);

    let wide = Camera::new(
        Fx::from_int(8),
        4,
        1,
        1,
        Fx::one(),
        v(0, 1, 0),
        v(0, 0, 0),
        v(0, 0, 1),
    );
    assert_eq!(wide.image_height, 1);
    assert_eq!(wide.pixel_samples_scale.raw, FX_ONE);
    assert_eq!(cam.center, v(0, 1, 0));
}

#[test]
fn render_emits_a_well_formed_image() {
    // A single ground sphere under a camera pointed straight down.
    let ground = Sphere::new(
        v(0, -100, 0),
        Fx::from_int(100),
        Material::Lambertian(Lambertian::new(Vec3::new(
            Fx::from_raw(32768),
            Fx::from_raw(45875),
            Fx::from_raw(21299),
        ))),
    );
    let world = HittableList::new(ground);
    let cam = looking_down_camera(4, 1, 1);

    let bytes = cam.render(&world);
    let text = std::str::from_utf8(&bytes).expect("the image is ASCII");
    let mut lines = text.lines();

    assert_eq!(lines.next(), Some("P3"));
    assert_eq!(lines.next(), Some("4 4"));
    assert_eq!(lines.next(), Some("255"));

    let rows: Vec<&str> = lines.collect();
    assert_eq!(rows.len(), 16, "exactly height * width pixel lines");
    for row in rows {
        let fields: Vec<&str> = row.split(' ').collect();
        assert_eq!(fields.len(), 3, "three channels per pixel line");
        for f in fields {
            let value: i64 = f.parse().expect("a decimal integer");
            assert!((0..=255).contains(&value));
        }
    }
    assert!(text.ends_with('\n'));
}
