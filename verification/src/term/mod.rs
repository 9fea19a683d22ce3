//! Everything that depends on what the terminal on the other end can actually do.
use vstd::prelude::*;

pub mod caps;
pub mod clipboard;
pub mod display;
pub mod palette;
pub mod probe;
pub mod style;
pub mod tmux;

pub use self::caps::{Capabilities, ColorDepth, GraphicsProtocol, UnicodeLevel};
pub use self::style::{Color, Rgb, Style, StyleWriter};

verus! {

} // verus!
