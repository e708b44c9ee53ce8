//! Fragments: what shading gets for one covered pixel.

use vstd::prelude::*;
use crate::color::Color;
use crate::scalar::Scalar;
use crate::vector::{Vec2, Vec3};

verus! {

/// A candidate pixel write, with everything interpolated for the pixel.
#[derive(Debug, Clone, Copy, PartialEq, Eq, Structural)]
pub struct Fragment {
    /// The pixel, in screen space.
    pub position: Vec2,
    pub color: Color,
    pub depth: Scalar,
    pub normal: Vec3,
    /// The light that reaches the fragment, from 0 on.
    pub intensity: Scalar,
    /// The point of the surface, in object space.
    pub vertex_position: Vec3,
}

impl Fragment {
    pub fn new(
        x: Scalar,
        y: Scalar,
        color: Color,
        depth: Scalar,
        normal: Vec3,
        intensity: Scalar,
        vertex_position: Vec3,
    ) -> (f: Fragment)
        ensures
            f == (Fragment {
                position: Vec2 { x, y },
                color,
                depth,
                normal,
                intensity,
                vertex_position,
            }),
    {
        Fragment { position: Vec2::new(x, y), color, depth, normal, intensity, vertex_position }
    }
}

} // verus!
