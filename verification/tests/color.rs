use rasterizer::color::Color;
use rasterizer::scalar::Scalar;

fn factor(v: f32) -> Scalar {
    Scalar::from_bits(v.to_bits())
}

/// Scaling as binary32 arithmetic does it.
fn scaled_in_floats(c: (u8, u8, u8), s: f32) -> Color {
    Color::new(
        (c.0 as f32 * s).clamp(0.0, 255.0) as u8,
        (c.1 as f32 * s).clamp(0.0, 255.0) as u8,
        (c.2 as f32 * s).clamp(0.0, 255.0) as u8,
    )
}

/// Interpolation as binary32 arithmetic does it.
fn lerped_in_floats(a: (u8, u8, u8), b: (u8, u8, u8), t: f32) -> Color {
    let t = t.clamp(0.0, 1.0);
    Color::new(
        (a.0 as f32 + (b.0 as f32 - a.0 as f32) * t).round() as u8,
        (a.1 as f32 + (b.1 as f32 - a.1 as f32) * t).round() as u8,
        (a.2 as f32 + (b.2 as f32 - a.2 as f32) * t).round() as u8,
    )
}

#[test]
fn saturating_sum_holds_at_white() {
    let sum = Color::new(250, 0, 0) + Color::new(10, 0, 0);
    assert_eq!(sum, Color::new(255, 0, 0));
}

#[test]
fn sum_of_any_two_channels_never_wraps() {
    for a in 0..=255u8 {
        for b in 0..=255u8 {
            let sum = Color::new(a, 0, b) + Color::new(b, 0, a);
            let want = (a as u16 + b as u16).min(255) as u8;
            assert_eq!(sum, Color::new(want, 0, want));
        }
    }
}

#[test]
fn new_keeps_the_channels() {
    assert_eq!(Color::new(1, 2, 3).to_hex(), 0x010203);
    assert_eq!(Color::black(), Color::new(0, 0, 0));
    assert!(Color::black().is_black());
    assert!(!Color::new(0, 0, 1).is_black());
    assert!(!Color::new(0, 1, 0).is_black());
    assert!(!Color::new(1, 0, 0).is_black());
}

#[test]
fn hex_packs_red_high_and_blue_low() {
    assert_eq!(Color::from_hex(0xFF5733), Color::new(0xFF, 0x57, 0x33));
    assert_eq!(Color::new(0xFF, 0x57, 0x33).to_hex(), 0xFF5733);
    assert_eq!(Color::from_hex(0), Color::black());
    assert_eq!(Color::from_hex(0xFFFFFF), Color::new(255, 255, 255));
}

#[test]
fn hex_ignores_the_high_byte() {
    assert_eq!(Color::from_hex(0xAB12_3456), Color::new(0x12, 0x34, 0x56));
    assert_eq!(Color::from_hex(0xAB12_3456).to_hex(), 0x12_3456);
}

#[test]
fn hex_round_trip() {
    for hex in [0u32, 1, 0xFF, 0x100, 0xFFFF, 0x1_0000, 0x80_8080, 0xFF_FFFF, 0x12_3456] {
        assert_eq!(Color::from_hex(hex).to_hex(), hex);
    }
}

#[test]
fn lerp_ends_are_exact() {
    let samples = [(0u8, 0u8, 0u8), (255, 255, 255), (12, 200, 99), (250, 3, 128)];
    for a in samples {
        for b in samples {
            let (ca, cb) = (Color::new(a.0, a.1, a.2), Color::new(b.0, b.1, b.2));
            assert_eq!(ca.lerp(&cb, factor(0.0)), ca);
            assert_eq!(ca.lerp(&cb, factor(1.0)), cb);
        }
    }
}

#[test]
fn lerp_holds_the_factor_within_zero_and_one() {
    let (a, b) = (Color::new(10, 20, 30), Color::new(200, 100, 0));
    assert_eq!(a.lerp(&b, factor(-0.0)), a);
    assert_eq!(a.lerp(&b, factor(-3.5)), a);
    assert_eq!(a.lerp(&b, factor(f32::NEG_INFINITY)), a);
    assert_eq!(a.lerp(&b, factor(1.000_000_1)), b);
    assert_eq!(a.lerp(&b, factor(7.0)), b);
    assert_eq!(a.lerp(&b, factor(f32::INFINITY)), b);
}

#[test]
fn lerp_rounds_to_nearest() {
    let (a, b) = (Color::new(0, 0, 10), Color::new(255, 1, 0));
    // 127.5 rounds up, 0.5 rounds up, 5.0 stays.
    assert_eq!(a.lerp(&b, factor(0.5)), Color::new(128, 1, 5));
    // 63.75, 0.25, 7.5
    assert_eq!(a.lerp(&b, factor(0.25)), Color::new(64, 0, 8));
    // 0.000..., tiny factors leave the start
    assert_eq!(a.lerp(&b, factor(1.0e-6)), a);
    assert_eq!(a.lerp(&b, factor(1.0e-30)), a);
    assert_eq!(a.lerp(&b, factor(1.0e-45)), a);
}

#[test]
fn lerp_with_nan_is_black() {
    let (a, b) = (Color::new(10, 20, 30), Color::new(200, 100, 0));
    assert_eq!(a.lerp(&b, factor(f32::NAN)), lerped_in_floats((10, 20, 30), (200, 100, 0), f32::NAN));
    assert_eq!(a.lerp(&b, factor(f32::NAN)), Color::black());
}

#[test]
fn lerp_agrees_with_floats_on_a_grid_of_factors() {
    let samples = [(0u8, 255u8, 7u8), (255, 0, 200), (13, 14, 15), (90, 180, 1)];
    for a in samples {
        for b in samples {
            for k in 0..=256 {
                let t = k as f32 / 256.0;
                let got = Color::new(a.0, a.1, a.2).lerp(&Color::new(b.0, b.1, b.2), factor(t));
                assert_eq!(got, lerped_in_floats(a, b, t), "{a:?} {b:?} {t}");
            }
        }
    }
}

#[test]
fn scaling_clamps_after_the_product() {
    let c = Color::new(100, 200, 0);
    assert_eq!(c * factor(0.5), Color::new(50, 100, 0));
    assert_eq!(c * factor(2.0), Color::new(200, 255, 0));
    assert_eq!(c * factor(1000.0), Color::new(255, 255, 0));
    assert_eq!(c * factor(-1.0), Color::black());
    assert_eq!(c * factor(-0.0), Color::black());
    assert_eq!(c * factor(0.0), Color::black());
    assert_eq!(c * factor(1.0), c);
}

#[test]
fn scaling_rounds_down() {
    assert_eq!(Color::new(255, 255, 255) * factor(0.5), Color::new(127, 127, 127));
    assert_eq!(Color::new(255, 99, 3) * factor(0.7), Color::new(178, 69, 2));
    assert_eq!(Color::new(255, 100, 3) * factor(0.1), Color::new(25, 10, 0));
    assert_eq!(Color::new(1, 2, 3) * factor(0.999), Color::new(0, 1, 2));
}

#[test]
fn scaling_by_what_is_not_finite() {
    let c = Color::new(100, 200, 0);
    assert_eq!(c * factor(f32::INFINITY), Color::new(255, 255, 0));
    assert_eq!(c * factor(f32::NEG_INFINITY), Color::black());
    assert_eq!(c * factor(f32::NAN), Color::black());
    for s in [f32::INFINITY, f32::NEG_INFINITY, f32::NAN, f32::MAX, f32::MIN, 1.0e-45, -1.0e-45] {
        assert_eq!(c * factor(s), scaled_in_floats((100, 200, 0), s), "{s}");
    }
}

#[test]
fn scaling_agrees_with_floats_on_a_grid_of_factors() {
    let samples = [(0u8, 255u8, 7u8), (255, 1, 200), (13, 100, 15)];
    for c in samples {
        for k in -20..=700 {
            let s = k as f32 / 256.0;
            assert_eq!(Color::new(c.0, c.1, c.2) * factor(s), scaled_in_floats(c, s), "{c:?} {s}");
        }
        for s in [0.1f32, 0.2, 0.3, 0.7, 0.9, 1.1, 1.5, 2.5, 0.05, 0.001, 3.3e-5, 12.75, 254.9] {
            assert_eq!(Color::new(c.0, c.1, c.2) * factor(s), scaled_in_floats(c, s), "{c:?} {s}");
        }
    }
}

/// A spread of bit patterns across all exponents and both signs.
fn spread(count: usize) -> Vec<f32> {
    let mut bits: u32 = 0x9E37_79B9;
    let mut all = Vec::new();
    for _ in 0..count {
        bits = bits.wrapping_mul(1_664_525).wrapping_add(1_013_904_223);
        all.push(f32::from_bits(bits));
    }
    all
}

/// Numbers across the range in which scaling and interpolation are not
/// clamped at once.
fn small_factors(count: usize) -> Vec<f32> {
    let mut state: u32 = 12_345;
    let mut all = Vec::new();
    for i in 0..count {
        state = state.wrapping_mul(1_664_525).wrapping_add(1_013_904_223);
        let unit = (state >> 8) as f32 / 16_777_216.0;
        all.push(match i % 4 {
            0 => unit,
            1 => unit * 3.0,
            2 => unit * 260.0,
            _ => unit * unit * unit,
        });
    }
    all
}

#[test]
fn scaling_is_that_of_binary32_arithmetic() {
    let channels = [(0u8, 255u8, 7u8), (255, 1, 200), (13, 100, 15), (128, 64, 3), (99, 50, 251)];
    let mut factors = spread(3000);
    factors.extend(small_factors(6000));
    factors.extend([0.1f32, 0.2, 0.3, 0.5, 0.7, 0.9, 1.1, 0.05, 1.0 / 3.0, 2.0 / 3.0, 0.999_999_94]);
    for c in channels {
        for &s in &factors {
            assert_eq!(Color::new(c.0, c.1, c.2) * factor(s), scaled_in_floats(c, s), "{c:?} {s}");
        }
    }
}

#[test]
fn scaling_every_channel_by_common_factors() {
    for c in 0..=255u8 {
        for s in [0.1f32, 0.3, 0.5, 0.7, 1.0 / 3.0, 0.9, 1.7, 0.01, 0.33, 0.66] {
            assert_eq!(Color::new(c, c, c) * factor(s), scaled_in_floats((c, c, c), s), "{c} {s}");
        }
    }
}

#[test]
fn lerp_is_that_of_binary32_arithmetic() {
    let ends = [(0u8, 255u8, 7u8), (255, 0, 200), (13, 14, 15), (90, 180, 1), (5, 0, 128)];
    let mut factors = spread(1500);
    factors.extend(small_factors(3000));
    factors.extend([0.1f32, 0.2, 0.3, 0.5, 0.7, 0.9, 1.0 / 3.0, 2.0 / 3.0, 0.999_999_94, 1.0e-10,
        1.0e-20, 6.0e-8, 1.2e-7, 1.0e-38, 1.0e-45]);
    for a in ends {
        for b in ends {
            for &t in &factors {
                let got = Color::new(a.0, a.1, a.2).lerp(&Color::new(b.0, b.1, b.2), factor(t));
                assert_eq!(got, lerped_in_floats(a, b, t), "{a:?} {b:?} {t}");
            }
        }
    }
}

#[test]
fn lerp_between_every_pair_of_channels_at_common_factors() {
    for a in (0..=255u8).step_by(3) {
        for b in (0..=255u8).step_by(5) {
            for t in [0.1f32, 0.3, 0.5, 0.7, 1.0 / 3.0, 0.9] {
                let got = Color::new(a, b, a).lerp(&Color::new(b, a, b), factor(t));
                assert_eq!(got, lerped_in_floats((a, b, a), (b, a, b), t), "{a} {b} {t}");
            }
        }
    }
}

#[test]
fn lerp_where_exact_arithmetic_would_round_the_other_way() {
    // 5 * 0.7 is just below 3.5 as a real number and 3.5 in binary32.
    assert_eq!(Color::new(0, 0, 0).lerp(&Color::new(5, 0, 0), factor(0.7)), Color::new(4, 0, 0));
    // 200 * 0.7 is just below 140 as a real number and 140 in binary32.
    assert_eq!(Color::new(200, 100, 0) * factor(0.7), Color::new(140, 70, 0));
}

#[test]
fn normal_blend_keeps_the_base_under_black() {
    let base = Color::new(10, 20, 30);
    assert_eq!(base.blend_normal(&Color::black()), base);
    assert_eq!(base.blend_normal(&Color::new(0, 0, 1)), Color::new(0, 0, 1));
    assert_eq!(base.blend_normal(&Color::new(200, 100, 50)), Color::new(200, 100, 50));
    assert_eq!(Color::black().blend_normal(&Color::black()), Color::black());
}

#[test]
fn multiply_blend_divides_by_255_and_truncates() {
    assert_eq!(
        Color::new(255, 128, 100).blend_multiply(&Color::new(255, 128, 200)),
        Color::new(255, 64, 78)
    );
    assert_eq!(
        Color::new(254, 1, 0).blend_multiply(&Color::new(255, 254, 255)),
        Color::new(254, 0, 0)
    );
}

#[test]
fn multiply_blend_agrees_with_floats_everywhere() {
    for a in 0..=255u8 {
        for b in 0..=255u8 {
            let got = Color::new(a, 0, 0).blend_multiply(&Color::new(b, 0, 0));
            let want = ((a as f32 * b as f32) / 255.0) as u8;
            assert_eq!(got, Color::new(want, 0, 0));
        }
    }
}

#[test]
fn add_blend_saturates() {
    assert_eq!(
        Color::new(200, 100, 0).blend_add(&Color::new(100, 100, 255)),
        Color::new(255, 200, 255)
    );
}

#[test]
fn subtract_blend_stops_at_zero() {
    assert_eq!(
        Color::new(200, 100, 0).blend_subtract(&Color::new(100, 150, 255)),
        Color::new(100, 0, 0)
    );
    assert_eq!(Color::new(5, 5, 5).blend_subtract(&Color::black()), Color::new(5, 5, 5));
}
