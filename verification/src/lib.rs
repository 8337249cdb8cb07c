//! Verified core of the `a3d` ASCII 3D renderer.
//!
//! The floating-point stages of the renderer (projection, shading and
//! rasterization) live in the application; this library holds everything that
//! decides on integers, characters and strings: the luminance ramp, the text
//! and ANSI frame writers, mesh topology checks, the glTF scene walk, and the
//! command-line and input decisions of the render loop.
pub mod cli;
pub mod gpu;
pub mod model;
pub mod render;
pub mod terminal;
pub mod text;

pub use render::framebuffer_to_string;
