//! The two shading stages.
//!
//! The vertex stage settles what a vertex looks like on screen. The fragment
//! stage gives a covered pixel its colour, by one of several strategies.
//! Whatever a strategy needs beyond the fragment itself (a noise sample, the
//! weights of its layers) comes with the strategy, as plain scalars; what
//! this module fixes is the rule that turns them into a colour.

use vstd::prelude::*;
use rand::{Rng, SeedableRng};
use crate::color::Color;
use crate::fragment::Fragment;
use crate::scalar::{Scalar, ZERO_BITS};
use crate::vector::Vec3;
use crate::vertex::{elevation_color, Vertex};

verus! {

/// The bit pattern of 0.1.
pub const TENTH_BITS: u32 = 0x3dcc_cccd;

/// The bit pattern of -0.1.
pub const MINUS_TENTH_BITS: u32 = 0xbdcc_cccd;

/// The bit pattern of 0.2.
pub const FIFTH_BITS: u32 = 0x3e4c_cccd;

/// The bit pattern of 0.3.
pub const THREE_TENTHS_BITS: u32 = 0x3e99_999a;

/// The bit pattern of 0.5.
pub const HALF_BITS: u32 = 0x3f00_0000;

/// The bit pattern of 0.7.
pub const SEVEN_TENTHS_BITS: u32 = 0x3f33_3333;

/// The bit pattern of 0.8.
pub const FOUR_FIFTHS_BITS: u32 = 0x3f4c_cccd;

/// The number with the given bit pattern.
pub open spec fn number(bits: u32) -> Scalar {
    Scalar { bits }
}

pub open spec fn white() -> Color {
    Color { r: 255, g: 255, b: 255 }
}

/// The vertex as the vertex stage leaves it: placed on the screen, with its
/// normal turned, and coloured by its elevation whatever colour it had.
pub open spec fn shaded_vertex(vertex: Vertex, screen_position: Vec3, normal: Vec3) -> Vertex {
    Vertex {
        transformed_position: screen_position,
        transformed_normal: normal,
        color: elevation_color(vertex.elevation),
        ..vertex
    }
}

/// The vertex stage, after the transforms: takes the position on the screen
/// and the turned normal that the transforms gave for the vertex, and builds
/// the vertex of this frame. The vertex handed in is left as it is.
pub fn vertex_shader(vertex: &Vertex, screen_position: Vec3, transformed_normal: Vec3) -> (shaded:
    Vertex)
    ensures
        shaded == shaded_vertex(*vertex, screen_position, transformed_normal),
{
    let mut shaded = Vertex {
        position: vertex.position,
        normal: vertex.normal,
        tex_coords: vertex.tex_coords,
        color: vertex.color,
        transformed_position: screen_position,
        transformed_normal,
        elevation: vertex.elevation,
    };
    shaded.update_color_based_on_elevation();
    shaded
}

/// The colour of a planet's surface at the elevation `noise`, before light:
/// ocean up to 0, shallow water up to 0.2, land up to 0.5, mountain above,
/// and mountain under snow above 0.8.
pub open spec fn earth_surface(noise: Scalar) -> Color {
    let mountain = Color { r: 139, g: 69, b: 19 };
    if noise.at_most(number(ZERO_BITS)) {
        Color { r: 0, g: 105, b: 148 }
    } else if noise.at_most(number(FIFTH_BITS)) {
        Color { r: 0, g: 191, b: 255 }
    } else if noise.at_most(number(HALF_BITS)) {
        Color { r: 34, g: 139, b: 34 }
    } else if number(FOUR_FIFTHS_BITS).less_than(noise) {
        mountain.plus(white().scaled(number(HALF_BITS)))
    } else {
        mountain
    }
}

pub open spec fn earth_shade(fragment: Fragment, noise: Scalar) -> Color {
    earth_surface(noise).scaled(fragment.intensity)
}

/// A planet with oceans: the surface colour at the elevation `noise`, lit
/// with the intensity of the fragment.
pub fn earth_color(fragment: &Fragment, noise: Scalar) -> (c: Color)
    ensures
        c == earth_shade(*fragment, noise),
{
    let mountain = Color::new(139, 69, 19);
    let surface = if noise.le(&Scalar::from_bits(ZERO_BITS)) {
        Color::new(0, 105, 148)
    } else if noise.le(&Scalar::from_bits(FIFTH_BITS)) {
        Color::new(0, 191, 255)
    } else if noise.le(&Scalar::from_bits(HALF_BITS)) {
        Color::new(34, 139, 34)
    } else if noise.gt(&Scalar::from_bits(FOUR_FIFTHS_BITS)) {
        mountain + Color::new(255, 255, 255) * Scalar::from_bits(HALF_BITS)
    } else {
        mountain
    };
    surface * fragment.intensity
}

/// The colour of a moon's surface at the elevation `noise`, before light:
/// dark below -0.1, light below 0.1, crater white below 0.3, and a paler
/// grey from there on.
pub open spec fn moon_surface(noise: Scalar) -> Color {
    if noise.less_than(number(MINUS_TENTH_BITS)) {
        Color { r: 169, g: 169, b: 169 }
    } else if noise.less_than(number(TENTH_BITS)) {
        Color { r: 211, g: 211, b: 211 }
    } else if noise.less_than(number(THREE_TENTHS_BITS)) {
        Color { r: 255, g: 255, b: 255 }
    } else {
        Color { r: 240, g: 240, b: 240 }
    }
}

pub open spec fn moon_shade(fragment: Fragment, noise: Scalar) -> Color {
    moon_surface(noise).scaled(fragment.intensity)
}

/// A cratered moon: the surface colour at the elevation `noise`, lit with
/// the intensity of the fragment.
pub fn moon_color(fragment: &Fragment, noise: Scalar) -> (c: Color)
    ensures
        c == moon_shade(*fragment, noise),
{
    let surface = if noise.lt(&Scalar::from_bits(MINUS_TENTH_BITS)) {
        Color::new(169, 169, 169)
    } else if noise.lt(&Scalar::from_bits(TENTH_BITS)) {
        Color::new(211, 211, 211)
    } else if noise.lt(&Scalar::from_bits(THREE_TENTHS_BITS)) {
        Color::new(255, 255, 255)
    } else {
        Color::new(240, 240, 240)
    };
    surface * fragment.intensity
}

/// The glow of a sun. `gradient` weighs the centre against the rim, which
/// has the weight `rim`; where `noise` is above 0.2 a halo is added with the
/// weight `halo`.
pub open spec fn sun_glow(noise: Scalar, gradient: Scalar, rim: Scalar, halo: Scalar) -> Color {
    let deep = Color { r: 255, g: 140, b: 0 };
    let light = Color { r: 255, g: 165, b: 80 };
    let warm = Color { r: 255, g: 200, b: 100 };
    let disc = deep.scaled(gradient).scaled(number(HALF_BITS)).plus(
        light.scaled(rim).scaled(number(HALF_BITS)),
    ).plus(warm.scaled(gradient).scaled(number(THREE_TENTHS_BITS)));
    let lit = disc.plus(white().scaled(number(THREE_TENTHS_BITS)).scaled(gradient));
    if number(FIFTH_BITS).less_than(noise) {
        lit.plus((Color { r: 255, g: 160, b: 50 }).scaled(halo))
    } else {
        lit
    }
}

/// A star: shades of orange that run from the centre to the rim, a white
/// glow over them, and a halo where the noise is high.
pub fn sun_gradient(noise: Scalar, gradient: Scalar, rim: Scalar, halo: Scalar) -> (c: Color)
    ensures
        c == sun_glow(noise, gradient, rim, halo),
{
    let half = Scalar::from_bits(HALF_BITS);
    let three_tenths = Scalar::from_bits(THREE_TENTHS_BITS);
    let disc = Color::new(255, 140, 0) * gradient * half + Color::new(255, 165, 80) * rim * half
        + Color::new(255, 200, 100) * gradient * three_tenths;
    let glow = Color::new(255, 255, 255) * three_tenths * gradient;
    let lit = disc + glow;
    if noise.gt(&Scalar::from_bits(FIFTH_BITS)) {
        lit + Color::new(255, 160, 50) * halo
    } else {
        lit
    }
}

/// The least number that a strategy draws.
pub const DRAW_MIN: u32 = 0;

/// The greatest number that a strategy draws.
pub const DRAW_MAX: u32 = 100;

/// The first number from `low` to `high` that the generator seeded with
/// `seed` draws. Which number that is depends on the generator, and so on
/// the version of `rand` that the library is built with.
pub uninterp spec fn seeded_roll(seed: u64, low: u32, high: u32) -> u32;

/// The number that a strategy draws for a seed given as a scalar: the
/// generator is seeded with the absolute value of the scalar, cast to an
/// integer.
pub open spec fn drawn_for(seed: Scalar) -> u32 {
    seeded_roll(seed.magnitude_cast_u64() as u64, DRAW_MIN, DRAW_MAX)
}

/// Seeds the standard generator of the `rand` crate with `seed`
/// (`rand::SeedableRng::seed_from_u64` on `rand::rngs::StdRng`) and draws
/// once from `low..=high` (`rand::Rng::gen_range`), which must not be empty.
///
/// The contract is taken on trust, not proved. It says two things of the
/// two calls together: that the draw depends on the seed and the range
/// alone, which gives it its name, and that it lies in the range that was
/// asked for.
#[verifier::external_body]
fn roll(seed: u64, low: u32, high: u32) -> (drawn: u32)
    requires
        low <= high,
    ensures
        drawn == seeded_roll(seed, low, high),
        low <= drawn <= high,
{
    let mut rng = rand::rngs::StdRng::seed_from_u64(seed);
    rng.gen_range(low..=high)
}

/// The colour of a gas planet for a given draw. Below 50 the planet shows
/// through its clouds, weighed by `clear`; from 50 on there are clouds only.
/// Then come a soft shadow and a faint glow.
pub open spec fn gas_planet_mix(
    drawn: u32,
    cloud: Scalar,
    clear: Scalar,
    shadow: Scalar,
    glow: Scalar,
) -> Color {
    let clouds = white().scaled(cloud);
    let planet = if drawn < 50 {
        (Color { r: 70, g: 130, b: 180 }).scaled(clear).plus(clouds)
    } else {
        clouds
    };
    planet.plus(
        (Color { r: 50, g: 50, b: 100 }).scaled(shadow).scaled(number(THREE_TENTHS_BITS)),
    ).plus((Color { r: 200, g: 200, b: 255 }).scaled(glow).scaled(number(TENTH_BITS)))
}

/// A gas planet, once the draw is made.
pub fn gas_planet_blend(drawn: u32, cloud: Scalar, clear: Scalar, shadow: Scalar, glow: Scalar) -> (c:
    Color)
    ensures
        c == gas_planet_mix(drawn, cloud, clear, shadow, glow),
{
    let clouds = Color::new(255, 255, 255) * cloud;
    let planet = if drawn < 50 {
        Color::new(70, 130, 180) * clear + clouds
    } else {
        clouds
    };
    let shade = Color::new(50, 50, 100) * shadow * Scalar::from_bits(THREE_TENTHS_BITS);
    let halo = Color::new(200, 200, 255) * glow * Scalar::from_bits(TENTH_BITS);
    planet + shade + halo
}

/// A gas planet. The draw that decides between planet and cloud is seeded
/// with the absolute value of `seed`, cast to an integer.
pub fn gas_planet_color(
    seed: Scalar,
    cloud: Scalar,
    clear: Scalar,
    shadow: Scalar,
    glow: Scalar,
) -> (c: Color)
    ensures
        c == gas_planet_mix(
            drawn_for(seed),
            cloud,
            clear,
            shadow,
            glow,
        ),
{
    let drawn = roll(seed.magnitude_to_u64(), DRAW_MIN, DRAW_MAX);
    gas_planet_blend(drawn, cloud, clear, shadow, glow)
}

/// The colour of a rocky planet: the ground with the weight `plain`, under
/// stripes with the weight `texture` that are bright where `stripe` is above
/// zero and dark elsewhere, and a soft shadow over both.
pub open spec fn rocky_planet_mix(
    texture: Scalar,
    plain: Scalar,
    stripe: Scalar,
    shadow: Scalar,
) -> Color {
    let dark = Color { r: 80, g: 50, b: 0 };
    let line = if number(ZERO_BITS).less_than(stripe) {
        white()
    } else {
        dark
    };
    (Color { r: 139, g: 69, b: 19 }).scaled(plain).plus(line.scaled(texture)).plus(
        dark.scaled(shadow).scaled(number(THREE_TENTHS_BITS)),
    )
}

/// A rocky planet with stripes.
pub fn rocky_planet_color(texture: Scalar, plain: Scalar, stripe: Scalar, shadow: Scalar) -> (c:
    Color)
    ensures
        c == rocky_planet_mix(texture, plain, stripe, shadow),
{
    let dark = Color::new(80, 50, 0);
    let line = if stripe.gt(&Scalar::from_bits(ZERO_BITS)) {
        Color::new(255, 255, 255)
    } else {
        dark
    };
    let planet = Color::new(139, 69, 19) * plain + line * texture;
    planet + dark * shadow * Scalar::from_bits(THREE_TENTHS_BITS)
}

/// The colour of a starry planet for a given draw: a star where the draw is
/// below `density` cast to an integer, dark blue elsewhere.
pub open spec fn star_planet_mix(drawn: u32, density: Scalar) -> Color {
    if drawn < density.cast_u32() {
        white().plus(white().scaled(number(SEVEN_TENTHS_BITS)))
    } else {
        (Color { r: 30, g: 30, b: 60 }).plus(white().scaled(number(ZERO_BITS)))
    }
}

/// A starry planet, once the draw is made.
pub fn star_planet_blend(drawn: u32, density: Scalar) -> (c: Color)
    ensures
        c == star_planet_mix(drawn, density),
{
    let star = Color::new(255, 255, 255);
    let is_star = drawn < density.to_u32();
    let planet = if is_star {
        star
    } else {
        Color::new(30, 30, 60)
    };
    let brightness = if is_star {
        Scalar::from_bits(SEVEN_TENTHS_BITS)
    } else {
        Scalar::from_bits(ZERO_BITS)
    };
    planet + star * brightness
}

/// A starry planet. The draw that decides where a star is, is seeded with
/// the absolute value of `seed`, cast to an integer.
pub fn star_planet_color(seed: Scalar, density: Scalar) -> (c: Color)
    ensures
        c == star_planet_mix(drawn_for(seed), density),
{
    let drawn = roll(seed.magnitude_to_u64(), DRAW_MIN, DRAW_MAX);
    star_planet_blend(drawn, density)
}

/// The colour of a fantasy planet. Above the equator (`height` above zero)
/// it is deep blue with the weight `clear` under clouds with the weight
/// `cloud`; below, it is purple in layers of the weight `layers`. A little
/// light is added everywhere.
pub open spec fn fantasy_planet_mix(
    height: Scalar,
    cloud: Scalar,
    clear: Scalar,
    layers: Scalar,
) -> Color {
    let planet = if number(ZERO_BITS).less_than(height) {
        (Color { r: 50, g: 50, b: 200 }).scaled(clear).plus(white().scaled(cloud))
    } else {
        (Color { r: 180, g: 80, b: 200 }).scaled(layers)
    };
    planet.plus(Color { r: 25, g: 25, b: 25 })
}

/// A fantasy planet, by the height of the fragment's point on the surface.
pub fn fantasy_planet_color(fragment: &Fragment, cloud: Scalar, clear: Scalar, layers: Scalar) -> (c:
    Color)
    ensures
        c == fantasy_planet_mix(fragment.vertex_position.y, cloud, clear, layers),
{
    let planet = if fragment.vertex_position.y.gt(&Scalar::from_bits(ZERO_BITS)) {
        Color::new(50, 50, 200) * clear + Color::new(255, 255, 255) * cloud
    } else {
        Color::new(180, 80, 200) * layers
    };
    planet + Color::new(25, 25, 25)
}

/// A shading strategy, with what it needs for one fragment.
#[derive(Debug, Clone, Copy, PartialEq, Eq, Structural)]
pub enum Shading {
    Earth { noise: Scalar },
    Moon { noise: Scalar },
    Sun { noise: Scalar, gradient: Scalar, rim: Scalar, halo: Scalar },
    Gas { seed: Scalar, cloud: Scalar, clear: Scalar, shadow: Scalar, glow: Scalar },
    Rocky { texture: Scalar, plain: Scalar, stripe: Scalar, shadow: Scalar },
    Star { seed: Scalar, density: Scalar },
    Fantasy { cloud: Scalar, clear: Scalar, layers: Scalar },
}

/// The colour that a strategy gives a fragment.
pub open spec fn shade(fragment: Fragment, shading: Shading) -> Color {
    match shading {
        Shading::Earth { noise } => earth_shade(fragment, noise),
        Shading::Moon { noise } => moon_shade(fragment, noise),
        Shading::Sun { noise, gradient, rim, halo } => sun_glow(noise, gradient, rim, halo),
        Shading::Gas { seed, cloud, clear, shadow, glow } => gas_planet_mix(
            drawn_for(seed),
            cloud,
            clear,
            shadow,
            glow,
        ),
        Shading::Rocky { texture, plain, stripe, shadow } => rocky_planet_mix(
            texture,
            plain,
            stripe,
            shadow,
        ),
        Shading::Star { seed, density } => star_planet_mix(
            drawn_for(seed),
            density,
        ),
        Shading::Fantasy { cloud, clear, layers } => fantasy_planet_mix(
            fragment.vertex_position.y,
            cloud,
            clear,
            layers,
        ),
    }
}

/// The fragment stage: colours a fragment by the strategy handed in.
pub fn fragment_shader(fragment: &Fragment, shading: &Shading) -> (c: Color)
    ensures
        c == shade(*fragment, *shading),
{
    match *shading {
        Shading::Earth { noise } => earth_color(fragment, noise),
        Shading::Moon { noise } => moon_color(fragment, noise),
        Shading::Sun { noise, gradient, rim, halo } => sun_gradient(noise, gradient, rim, halo),
        Shading::Gas { seed, cloud, clear, shadow, glow } => gas_planet_color(
            seed,
            cloud,
            clear,
            shadow,
            glow,
        ),
        Shading::Rocky { texture, plain, stripe, shadow } => rocky_planet_color(
            texture,
            plain,
            stripe,
            shadow,
        ),
        Shading::Star { seed, density } => star_planet_color(seed, density),
        Shading::Fantasy { cloud, clear, layers } => fantasy_planet_color(
            fragment,
            cloud,
            clear,
            layers,
        ),
    }
}

} // verus!
