//! Character-grid side of the framebuffer: the luminance ramp and the text writers.
pub mod ascii;
pub mod grid;

pub use ascii::{ramp_char, ASCII_RAMP};
pub use grid::framebuffer_to_string;
