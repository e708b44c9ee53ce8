//! Mesh vertices: what the mesh gives for each of them, and what the vertex
//! stage derives from it for one frame.

use vstd::prelude::*;
use crate::color::Color;
use crate::scalar::{Scalar, ONE_BITS, ZERO_BITS};
use crate::vector::{Vec2, Vec3};

verus! {

/// The bit pattern of 0.5: the elevation at which land turns to mountain.
pub const MOUNTAIN_LINE_BITS: u32 = 0x3f00_0000;

/// The colour of an elevation: ocean below zero, land from zero up to but
/// not including one half, mountain from there on. An elevation that is NaN
/// is below nothing, so it counts as mountain.
pub open spec fn elevation_color(elevation: Scalar) -> Color {
    if elevation.less_than(Scalar { bits: ZERO_BITS }) {
        Color { r: 0, g: 105, b: 148 }
    } else if elevation.less_than(Scalar { bits: MOUNTAIN_LINE_BITS }) {
        Color { r: 34, g: 139, b: 34 }
    } else {
        Color { r: 139, g: 69, b: 19 }
    }
}

/// One vertex of a mesh.
///
/// `position`, `normal`, `tex_coords` and `elevation` are in object space
/// and come from the mesh. `transformed_position` and `transformed_normal`
/// are what the vertex stage last derived from them.
#[derive(Debug, Clone, Copy, PartialEq, Eq, Structural)]
pub struct Vertex {
    pub position: Vec3,
    pub normal: Vec3,
    pub tex_coords: Vec2,
    pub color: Color,
    pub transformed_position: Vec3,
    pub transformed_normal: Vec3,
    pub elevation: Scalar,
}

impl Vertex {
    /// A black vertex whose transformed position and normal start out as the
    /// object-space ones.
    pub fn new(position: Vec3, normal: Vec3, tex_coords: Vec2, elevation: Scalar) -> (v: Vertex)
        ensures
            v == (Vertex {
                position,
                normal,
                tex_coords,
                color: Color { r: 0, g: 0, b: 0 },
                transformed_position: position,
                transformed_normal: normal,
                elevation,
            }),
    {
        Vertex {
            position,
            normal,
            tex_coords,
            color: Color::black(),
            transformed_position: position,
            transformed_normal: normal,
            elevation,
        }
    }

    /// A vertex of the given colour at the given position; everything else,
    /// the transformed position too, is zero.
    pub fn new_with_color(position: Vec3, color: Color) -> (v: Vertex)
        ensures
            v == (Vertex {
                position,
                normal: Vec3::of_bits(ZERO_BITS, ZERO_BITS, ZERO_BITS),
                tex_coords: Vec2::of_bits(ZERO_BITS, ZERO_BITS),
                color,
                transformed_position: Vec3::of_bits(ZERO_BITS, ZERO_BITS, ZERO_BITS),
                transformed_normal: Vec3::of_bits(ZERO_BITS, ZERO_BITS, ZERO_BITS),
                elevation: Scalar { bits: ZERO_BITS },
            }),
    {
        Vertex {
            position,
            normal: Vec3::from_bits(ZERO_BITS, ZERO_BITS, ZERO_BITS),
            tex_coords: Vec2::from_bits(ZERO_BITS, ZERO_BITS),
            color,
            transformed_position: Vec3::from_bits(ZERO_BITS, ZERO_BITS, ZERO_BITS),
            transformed_normal: Vec3::from_bits(ZERO_BITS, ZERO_BITS, ZERO_BITS),
            elevation: Scalar::from_bits(ZERO_BITS),
        }
    }

    /// Records what the vertex stage derived; the object-space fields stay.
    pub fn set_transformed(&mut self, position: Vec3, normal: Vec3)
        ensures
            *final(self) == (Vertex {
                transformed_position: position,
                transformed_normal: normal,
                ..*old(self)
            }),
    {
        self.transformed_position = position;
        self.transformed_normal = normal;
    }

    /// Replaces the colour by the colour of the elevation.
    pub fn update_color_based_on_elevation(&mut self)
        ensures
            *final(self) == (Vertex { color: elevation_color(old(self).elevation), ..*old(self) }),
    {
        if self.elevation.lt(&Scalar::from_bits(ZERO_BITS)) {
            self.color = Color::new(0, 105, 148);
        } else if self.elevation.lt(&Scalar::from_bits(MOUNTAIN_LINE_BITS)) {
            self.color = Color::new(34, 139, 34);
        } else {
            self.color = Color::new(139, 69, 19);
        }
    }
}

impl Default for Vertex {
    /// A black vertex at the origin whose normal points up.
    fn default() -> (v: Vertex)
        ensures
            v == (Vertex {
                position: Vec3::of_bits(ZERO_BITS, ZERO_BITS, ZERO_BITS),
                normal: Vec3::of_bits(ZERO_BITS, ONE_BITS, ZERO_BITS),
                tex_coords: Vec2::of_bits(ZERO_BITS, ZERO_BITS),
                color: Color { r: 0, g: 0, b: 0 },
                transformed_position: Vec3::of_bits(ZERO_BITS, ZERO_BITS, ZERO_BITS),
                transformed_normal: Vec3::of_bits(ZERO_BITS, ONE_BITS, ZERO_BITS),
                elevation: Scalar { bits: ZERO_BITS },
            }),
    {
        Vertex {
            position: Vec3::from_bits(ZERO_BITS, ZERO_BITS, ZERO_BITS),
            normal: Vec3::from_bits(ZERO_BITS, ONE_BITS, ZERO_BITS),
            tex_coords: Vec2::from_bits(ZERO_BITS, ZERO_BITS),
            color: Color::black(),
            transformed_position: Vec3::from_bits(ZERO_BITS, ZERO_BITS, ZERO_BITS),
            transformed_normal: Vec3::from_bits(ZERO_BITS, ONE_BITS, ZERO_BITS),
            elevation: Scalar::from_bits(ZERO_BITS),
        }
    }
}

} // verus!
