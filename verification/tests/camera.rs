use rasterizer::camera::{limit_pitch, Camera, PITCH_MAX_BITS, PITCH_MIN_BITS};
use rasterizer::scalar::Scalar;
use rasterizer::vector::Vec3;
use std::f32::consts::PI;

fn vec3(x: f32, y: f32, z: f32) -> Vec3 {
    Vec3::from_bits(x.to_bits(), y.to_bits(), z.to_bits())
}

fn camera() -> Camera {
    Camera::new(vec3(0.0, 0.0, 5.0), vec3(0.0, 0.0, 0.0), vec3(0.0, 1.0, 0.0))
}

#[test]
fn new_camera_counts_as_changed() {
    let mut cam = camera();
    assert!(cam.has_changed);
    assert!(cam.check_if_changed());
    assert!(!cam.check_if_changed());
}

#[test]
fn zoom_is_reported_once() {
    let mut cam = camera();
    cam.check_if_changed();
    cam.zoom(vec3(0.0, 0.0, 4.0));
    assert!(cam.check_if_changed());
    assert!(!cam.check_if_changed());
    assert!(!cam.check_if_changed());
    assert_eq!(cam.eye, vec3(0.0, 0.0, 4.0));
    assert_eq!(cam.center, vec3(0.0, 0.0, 0.0));
}

#[test]
fn orbit_is_reported_once() {
    let mut cam = camera();
    cam.check_if_changed();
    cam.orbit(vec3(5.0, 0.0, 0.0));
    assert_eq!(cam.eye, vec3(5.0, 0.0, 0.0));
    assert_eq!(cam.up, vec3(0.0, 1.0, 0.0));
    assert!(cam.check_if_changed());
    assert!(!cam.check_if_changed());
}

#[test]
fn move_center_is_reported_once() {
    let mut cam = camera();
    cam.check_if_changed();
    cam.move_center(vec3(1.0, 2.0, 3.0));
    assert_eq!(cam.center, vec3(1.0, 2.0, 3.0));
    assert_eq!(cam.eye, vec3(0.0, 0.0, 5.0));
    assert!(cam.check_if_changed());
    assert!(!cam.check_if_changed());
}

#[test]
fn two_moves_are_one_report() {
    let mut cam = camera();
    cam.check_if_changed();
    cam.zoom(vec3(0.0, 0.0, 4.0));
    cam.orbit(vec3(4.0, 0.0, 0.0));
    assert!(cam.check_if_changed());
    assert!(!cam.check_if_changed());
}

#[test]
fn check_leaves_the_view_alone() {
    let mut cam = camera();
    cam.check_if_changed();
    let seen = cam;
    cam.check_if_changed();
    assert_eq!(cam, seen);
}

#[test]
fn pitch_limits_are_a_tenth_from_the_poles() {
    assert_eq!(PITCH_MIN_BITS, (-PI / 2.0 + 0.1).to_bits());
    assert_eq!(PITCH_MAX_BITS, (PI / 2.0 - 0.1).to_bits());
}

#[test]
fn pitch_is_held_within_its_limits() {
    let (lo, hi) = (-PI / 2.0 + 0.1, PI / 2.0 - 0.1);
    for p in [0.0f32, -0.0, 1.0, -1.0, 1.47, 1.48, -1.47, -1.48, 2.0, -2.0, 100.0, -100.0, lo, hi,
        f32::INFINITY, f32::NEG_INFINITY]
    {
        let got = limit_pitch(Scalar::from_bits(p.to_bits()));
        assert_eq!(got.to_bits(), p.clamp(lo, hi).to_bits(), "{p}");
    }
    let nan = limit_pitch(Scalar::from_bits(f32::NAN.to_bits()));
    assert!(f32::from_bits(nan.to_bits()).is_nan());
}
