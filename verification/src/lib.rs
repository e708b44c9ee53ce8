//! A software rasterizer core: colours, a depth-tested framebuffer, the scan
//! conversion of lines and triangles into pixels, and the rules by which
//! vertices and fragments get their colour.
//!
//! Scalars are held by their IEEE 754 binary32 bit pattern (see
//! [`scalar::Scalar`]). The library compares them, rounds or casts them to integers,
//! snaps them to a grid, and scales colour channels by them, all of it by
//! integer arithmetic on their significand and exponent. It leaves every
//! other computation on them (transforms, interpolation, trigonometry) to
//! its caller, and takes the results as scalars again.

pub mod camera;
pub mod color;
pub mod fragment;
pub mod framebuffer;
pub mod line;
pub mod obj;
pub mod scalar;
pub mod shaders;
pub mod triangle;
pub mod vector;
pub mod vertex;
