//! Sizing and encoding images for terminals that can show them.
//!
//! Four backends, in descending order of fidelity:
//!
//! | Backend | Terminals | Notes |
//! |---|---|---|
//! | [`kitty`] | kitty, Ghostty, WezTerm, Konsole | PNG passthrough, exact placement |
//! | [`iterm2`] | iTerm2, WezTerm, mintty | inline file transfer |
//! | [`sixel`] | foot, mlterm, xterm, Windows Terminal | with its own quantiser |
//! | [`blocks`] | anything with 256 colours | half blocks, always available |
use vstd::prelude::*;

pub mod blocks;
pub mod iterm2;
pub mod kitty;
pub mod picture;
pub mod raster;
pub mod sixel;
pub mod store;
pub mod transfer;

pub use self::store::{ImageProblem, RemotePolicy, Store};

verus! {

} // verus!
