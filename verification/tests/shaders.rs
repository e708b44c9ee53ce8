use rand::rngs::StdRng;
use rand::{Rng, SeedableRng};
use rasterizer::color::Color;
use rasterizer::fragment::Fragment;
use rasterizer::scalar::Scalar;
use rasterizer::shaders::{
    earth_color, fantasy_planet_color, fragment_shader, gas_planet_blend, gas_planet_color,
    moon_color, rocky_planet_color, star_planet_blend, star_planet_color, sun_gradient, Shading,
    FIFTH_BITS, FOUR_FIFTHS_BITS, HALF_BITS, MINUS_TENTH_BITS, SEVEN_TENTHS_BITS, TENTH_BITS,
    THREE_TENTHS_BITS,
};
use rasterizer::vector::Vec3;

fn num(v: f32) -> Scalar {
    Scalar::from_bits(v.to_bits())
}

fn fragment(intensity: f32, y: f32) -> Fragment {
    Fragment::new(
        num(10.0),
        num(20.0),
        Color::black(),
        num(0.5),
        Vec3::new(num(0.0), num(0.0), num(1.0)),
        num(intensity),
        Vec3::new(num(0.25), num(y), num(-0.75)),
    )
}

/// A colour scaled as binary32 arithmetic scales it.
fn times(c: Color, s: f32) -> Color {
    let hex = c.to_hex();
    let (r, g, b) = ((hex >> 16) as u8, (hex >> 8) as u8, hex as u8);
    Color::new(
        (r as f32 * s).clamp(0.0, 255.0) as u8,
        (g as f32 * s).clamp(0.0, 255.0) as u8,
        (b as f32 * s).clamp(0.0, 255.0) as u8,
    )
}

fn noises() -> Vec<f32> {
    let mut all = vec![f32::NAN, f32::INFINITY, f32::NEG_INFINITY, -0.0, 0.0, 1.0, -1.0];
    for edge in [-0.1f32, 0.0, 0.1, 0.2, 0.3, 0.5, 0.8] {
        all.push(edge);
        all.push(f32::from_bits(edge.to_bits().wrapping_add(1)));
        all.push(f32::from_bits(edge.to_bits().wrapping_sub(1)));
    }
    for k in -12..=12 {
        all.push(k as f32 / 10.0);
    }
    all
}

fn weights() -> Vec<f32> {
    vec![0.0, 0.04, 0.1, 0.25, 1.0 / 3.0, 0.5, 0.7, 0.81, 0.99, 1.0, 1.21, 2.5, -0.3, f32::NAN]
}

fn draw(seed: f32) -> i32 {
    let mut rng = StdRng::seed_from_u64(seed.abs() as u64);
    rng.gen_range(0..=100)
}

#[test]
fn thresholds_are_the_numbers_they_are_named_for() {
    assert_eq!(TENTH_BITS, 0.1f32.to_bits());
    assert_eq!(MINUS_TENTH_BITS, (-0.1f32).to_bits());
    assert_eq!(FIFTH_BITS, 0.2f32.to_bits());
    assert_eq!(THREE_TENTHS_BITS, 0.3f32.to_bits());
    assert_eq!(HALF_BITS, 0.5f32.to_bits());
    assert_eq!(SEVEN_TENTHS_BITS, 0.7f32.to_bits());
    assert_eq!(FOUR_FIFTHS_BITS, (0.5f32 + 0.3f32).to_bits());
}

fn earth_in_floats(noise: f32, intensity: f32) -> Color {
    let mountain = Color::new(139, 69, 19);
    let color = if noise <= 0.0 {
        Color::new(0, 105, 148)
    } else if noise > 0.0 && noise <= 0.2 {
        Color::new(0, 191, 255)
    } else if noise > 0.2 && noise <= 0.5 {
        Color::new(34, 139, 34)
    } else if noise > 0.5 + 0.3 {
        mountain + times(Color::new(255, 255, 255), 0.5)
    } else {
        mountain
    };
    times(color, intensity)
}

#[test]
fn earth_bands() {
    let lit = fragment(1.0, 0.0);
    assert_eq!(earth_color(&lit, num(-0.5)), Color::new(0, 105, 148));
    assert_eq!(earth_color(&lit, num(0.0)), Color::new(0, 105, 148));
    assert_eq!(earth_color(&lit, num(0.1)), Color::new(0, 191, 255));
    assert_eq!(earth_color(&lit, num(0.2)), Color::new(0, 191, 255));
    assert_eq!(earth_color(&lit, num(0.35)), Color::new(34, 139, 34));
    assert_eq!(earth_color(&lit, num(0.5)), Color::new(34, 139, 34));
    assert_eq!(earth_color(&lit, num(0.6)), Color::new(139, 69, 19));
    assert_eq!(earth_color(&lit, num(0.8)), Color::new(139, 69, 19));
    assert_eq!(earth_color(&lit, num(0.9)), Color::new(255, 196, 146));
    assert_eq!(earth_color(&lit, num(f32::NAN)), Color::new(139, 69, 19));
}

#[test]
fn earth_is_lit_by_the_fragment() {
    assert_eq!(earth_color(&fragment(0.5, 0.0), num(0.35)), Color::new(17, 69, 17));
    assert_eq!(earth_color(&fragment(0.0, 0.0), num(0.35)), Color::black());
    for noise in noises() {
        for intensity in weights() {
            assert_eq!(
                earth_color(&fragment(intensity, 0.0), num(noise)),
                earth_in_floats(noise, intensity),
                "{noise} {intensity}"
            );
        }
    }
}

fn moon_in_floats(noise: f32, intensity: f32) -> Color {
    let color = if noise < -0.1 {
        Color::new(169, 169, 169)
    } else if noise < 0.1 {
        Color::new(211, 211, 211)
    } else if noise < 0.3 {
        Color::new(255, 255, 255)
    } else {
        Color::new(240, 240, 240)
    };
    times(color, intensity)
}

#[test]
fn moon_bands() {
    let lit = fragment(1.0, 0.0);
    assert_eq!(moon_color(&lit, num(-0.5)), Color::new(169, 169, 169));
    assert_eq!(moon_color(&lit, num(-0.1)), Color::new(211, 211, 211));
    assert_eq!(moon_color(&lit, num(0.0)), Color::new(211, 211, 211));
    assert_eq!(moon_color(&lit, num(0.1)), Color::new(255, 255, 255));
    assert_eq!(moon_color(&lit, num(0.3)), Color::new(240, 240, 240));
    assert_eq!(moon_color(&lit, num(f32::NAN)), Color::new(240, 240, 240));
    for noise in noises() {
        for intensity in weights() {
            assert_eq!(
                moon_color(&fragment(intensity, 0.0), num(noise)),
                moon_in_floats(noise, intensity),
                "{noise} {intensity}"
            );
        }
    }
}

fn sun_in_floats(noise: f32, gradient: f32, halo: f32) -> Color {
    let deep = Color::new(255, 140, 0);
    let light = Color::new(255, 165, 80);
    let white = Color::new(255, 255, 255);
    let warm = Color::new(255, 200, 100);
    let sun = times(times(deep, gradient), 0.5)
        + times(times(light, 1.0 - gradient), 0.5)
        + times(times(warm, gradient), 0.3);
    let glow = times(times(white, 0.3), gradient);
    let lit = sun + glow;
    if noise > 0.2 {
        return lit + times(Color::new(255, 160, 50), halo);
    }
    lit
}

#[test]
fn sun_glow_on_named_values() {
    // At the centre: half of deep orange, 0.3 of warm orange, 0.3 of white.
    assert_eq!(
        sun_gradient(num(0.0), num(1.0), num(0.0), num(0.0)),
        Color::new(255, 70 + 60 + 76, 30 + 76)
    );
    // At the rim: half of light orange.
    assert_eq!(sun_gradient(num(0.0), num(0.0), num(1.0), num(0.0)), Color::new(127, 82, 40));
    // The halo needs noise above 0.2.
    assert_eq!(sun_gradient(num(0.2), num(0.0), num(1.0), num(0.5)), Color::new(127, 82, 40));
    assert_eq!(
        sun_gradient(num(0.7), num(0.0), num(1.0), num(0.5)),
        Color::new(127 + 127, 82 + 80, 40 + 25)
    );
}

#[test]
fn sun_agrees_with_floats() {
    for noise in noises() {
        for gradient in [0.0f32, 0.13, 0.5, 0.77, 1.0] {
            let halo = (noise - 0.2).min(0.5);
            assert_eq!(
                sun_gradient(num(noise), num(gradient), num(1.0 - gradient), num(halo)),
                sun_in_floats(noise, gradient, halo),
                "{noise} {gradient}"
            );
        }
    }
}

fn gas_in_floats(seed: f32, cloud: f32, shadow: f32, glow: f32) -> Color {
    let random_number = draw(seed);
    let base = Color::new(70, 130, 180);
    let clouds = Color::new(255, 255, 255);
    let planet = if random_number < 50 {
        times(base, 1.0 - cloud) + times(clouds, cloud)
    } else {
        times(clouds, cloud)
    };
    let shadow_effect = times(times(Color::new(50, 50, 100), shadow), 0.3);
    let lit = planet + shadow_effect;
    lit + times(times(Color::new(200, 200, 255), glow), 0.1)
}

#[test]
fn gas_planet_by_draw() {
    // Below 50 the planet shows through the clouds.
    assert_eq!(
        gas_planet_blend(49, num(0.25), num(0.75), num(0.0), num(0.0)),
        Color::new(52 + 63, 97 + 63, 135 + 63)
    );
    // From 50 on there are clouds only.
    assert_eq!(
        gas_planet_blend(50, num(0.25), num(0.75), num(0.0), num(0.0)),
        Color::new(63, 63, 63)
    );
    // Shadow and glow come on top.
    assert_eq!(
        gas_planet_blend(100, num(0.0), num(1.0), num(1.0), num(1.0)),
        Color::new(15 + 20, 15 + 20, 30 + 25)
    );
}

#[test]
fn gas_planet_agrees_with_floats_and_the_generator() {
    for seed in [0.0f32, 1.0, -1.0, 2.5, 17.0, -123.75, 1.0e6, 3.0e19, 1.0e30, f32::NAN] {
        for cloud in [0.0f32, 0.09, 0.36, 0.81, 1.0] {
            for shadow in [0.0f32, 0.4, 1.7] {
                for glow in [0.0f32, 0.5, 1.0] {
                    assert_eq!(
                        gas_planet_color(
                            num(seed),
                            num(cloud),
                            num(1.0 - cloud),
                            num(shadow),
                            num(glow)
                        ),
                        gas_in_floats(seed, cloud, shadow, glow),
                        "{seed} {cloud} {shadow} {glow}"
                    );
                }
            }
        }
    }
}

#[test]
fn gas_planet_sees_both_sides_of_the_draw() {
    let mut below = 0;
    let mut above = 0;
    for seed in 0..200 {
        let seed = seed as f32;
        let got = gas_planet_color(num(seed), num(0.0), num(1.0), num(0.0), num(0.0));
        if draw(seed) < 50 {
            assert_eq!(got, Color::new(70, 130, 180));
            below += 1;
        } else {
            assert_eq!(got, Color::black());
            above += 1;
        }
    }
    assert!(below > 50);
    assert!(above > 50);
}

fn rocky_in_floats(texture: f32, stripe: f32, shadow: f32) -> Color {
    let base = Color::new(139, 69, 19);
    let dark = Color::new(80, 50, 0);
    let line = if stripe > 0.0 { Color::new(255, 255, 255) } else { dark };
    let planet = times(base, 1.0 - texture) + times(line, texture);
    planet + times(times(dark, shadow), 0.3)
}

#[test]
fn rocky_planet_stripes() {
    assert_eq!(
        rocky_planet_color(num(0.5), num(0.5), num(0.3), num(0.0)),
        Color::new(69 + 127, 34 + 127, 9 + 127)
    );
    assert_eq!(
        rocky_planet_color(num(0.5), num(0.5), num(-0.3), num(0.0)),
        Color::new(69 + 40, 34 + 25, 9)
    );
    assert_eq!(
        rocky_planet_color(num(0.5), num(0.5), num(0.0), num(1.0)),
        Color::new(69 + 40 + 24, 34 + 25 + 15, 9)
    );
    for texture in [0.0f32, 0.09, 0.36, 0.81, 1.0] {
        for stripe in [-1.0f32, -0.0, 0.0, 1.0e-30, 0.5, f32::NAN] {
            for shadow in weights() {
                assert_eq!(
                    rocky_planet_color(num(texture), num(1.0 - texture), num(stripe), num(shadow)),
                    rocky_in_floats(texture, stripe, shadow),
                    "{texture} {stripe} {shadow}"
                );
            }
        }
    }
}

fn star_in_floats(seed: f32, density: f32) -> Color {
    let star = Color::new(255, 255, 255);
    let random_number: u32 = draw(seed) as u32;
    let is_star = random_number < density as u32;
    let planet = if is_star { star } else { Color::new(30, 30, 60) };
    let brightness = if is_star { 0.7 } else { 0.0 };
    planet + times(star, brightness)
}

#[test]
fn star_planet_by_draw() {
    assert_eq!(star_planet_blend(10, num(11.0)), Color::new(255, 255, 255));
    assert_eq!(star_planet_blend(10, num(10.999)), Color::new(30, 30, 60));
    assert_eq!(star_planet_blend(0, num(0.0)), Color::new(30, 30, 60));
    assert_eq!(star_planet_blend(0, num(-5.0)), Color::new(30, 30, 60));
    assert_eq!(star_planet_blend(0, num(f32::NAN)), Color::new(30, 30, 60));
    assert_eq!(star_planet_blend(100, num(f32::INFINITY)), Color::new(255, 255, 255));
}

#[test]
fn star_planet_draws_within_the_range() {
    // A draw is at most 100, so a density of 101 makes every fragment a
    // star, whatever the seed; the seed itself is far above 101.
    for seed in [1000.0f32, 12_345.0, 1.0e9, 3.0e19] {
        assert_eq!(star_planet_color(num(seed), num(101.0)), Color::new(255, 255, 255));
    }
}

#[test]
fn star_planet_agrees_with_floats_and_the_generator() {
    let mut stars = 0;
    let mut dark = 0;
    for seed in 0..300 {
        let seed = seed as f32 * 1.5 - 20.0;
        for density in [0.0f32, 9.0, 36.5, 50.0, 81.0, 100.0, 121.0] {
            let got = star_planet_color(num(seed), num(density));
            assert_eq!(got, star_in_floats(seed, density), "{seed} {density}");
            if got == Color::new(255, 255, 255) {
                stars += 1;
            } else {
                dark += 1;
            }
        }
    }
    assert!(stars > 300);
    assert!(dark > 300);
}

fn fantasy_in_floats(y: f32, cloud: f32, layers: f32) -> Color {
    let planet = if y > 0.0 {
        times(Color::new(50, 50, 200), 1.0 - cloud) + times(Color::new(255, 255, 255), cloud)
    } else {
        times(Color::new(180, 80, 200), layers)
    };
    let brightness = 0.1f32;
    let light = Color::new(
        (brightness * 255.0) as u8,
        (brightness * 255.0) as u8,
        (brightness * 255.0) as u8,
    );
    planet + light
}

#[test]
fn fantasy_planet_halves() {
    assert_eq!(
        fantasy_planet_color(&fragment(1.0, 2.0), num(0.5), num(0.5), num(1.0)),
        Color::new(25 + 127 + 25, 25 + 127 + 25, 100 + 127 + 25)
    );
    assert_eq!(
        fantasy_planet_color(&fragment(1.0, -2.0), num(0.5), num(0.5), num(1.25)),
        Color::new(225 + 25, 100 + 25, 250 + 5)
    );
    assert_eq!(
        fantasy_planet_color(&fragment(1.0, 0.0), num(0.5), num(0.5), num(1.0)),
        Color::new(205, 105, 225)
    );
    for y in [-3.0f32, -0.0, 0.0, 1.0e-40, 0.5, 7.0, f32::NAN] {
        for cloud in [0.0f32, 0.027, 0.216, 0.729, 1.0] {
            for layers in [0.5f32, 0.75, 1.0, 1.3, 1.5] {
                assert_eq!(
                    fantasy_planet_color(&fragment(1.0, y), num(cloud), num(1.0 - cloud), num(layers)),
                    fantasy_in_floats(y, cloud, layers),
                    "{y} {cloud} {layers}"
                );
            }
        }
    }
}

#[test]
fn fragment_stage_follows_the_strategy() {
    let f = fragment(0.5, 1.0);
    let n = num(0.35);
    assert_eq!(fragment_shader(&f, &Shading::Earth { noise: n }), earth_color(&f, n));
    assert_eq!(fragment_shader(&f, &Shading::Earth { noise: n }), Color::new(17, 69, 17));
    assert_eq!(fragment_shader(&f, &Shading::Moon { noise: n }), moon_color(&f, n));
    assert_eq!(fragment_shader(&f, &Shading::Moon { noise: n }), Color::new(120, 120, 120));
    assert_eq!(
        fragment_shader(
            &f,
            &Shading::Sun { noise: n, gradient: num(0.0), rim: num(1.0), halo: num(0.15) }
        ),
        sun_gradient(n, num(0.0), num(1.0), num(0.15))
    );
    assert_eq!(
        fragment_shader(
            &f,
            &Shading::Gas {
                seed: num(7.0),
                cloud: num(0.2),
                clear: num(0.8),
                shadow: num(0.3),
                glow: num(0.4)
            }
        ),
        gas_planet_color(num(7.0), num(0.2), num(0.8), num(0.3), num(0.4))
    );
    assert_eq!(
        fragment_shader(
            &f,
            &Shading::Rocky {
                texture: num(0.2),
                plain: num(0.8),
                stripe: num(0.3),
                shadow: num(0.4)
            }
        ),
        rocky_planet_color(num(0.2), num(0.8), num(0.3), num(0.4))
    );
    assert_eq!(
        fragment_shader(&f, &Shading::Star { seed: num(7.0), density: num(101.0) }),
        Color::new(255, 255, 255)
    );
    assert_eq!(
        fragment_shader(
            &f,
            &Shading::Fantasy { cloud: num(0.5), clear: num(0.5), layers: num(1.0) }
        ),
        fantasy_planet_color(&f, num(0.5), num(0.5), num(1.0))
    );
}
