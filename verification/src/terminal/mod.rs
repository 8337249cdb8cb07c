//! Terminal output and input decisions.
pub mod frame;
pub mod input;

pub use frame::compose_frame;
pub use input::{command_for, Command, InputEvent, Key};
