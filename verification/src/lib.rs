//! A Markdown viewer for terminals that can do more than plain text.
//!
//! The library is the part of the viewer that decides and computes: the document
//! tree, its layout into styled lines, the escape sequences that draw it, and the
//! state of the interactive pager. Everything in it is stated in contracts and
//! proved. Reading files, talking to the terminal and parsing configuration files
//! is left to the program around it.
use vstd::prelude::*;

pub mod binary64;
pub mod cli;
pub mod codec;
pub mod config;
pub mod images;
pub mod markdown;
pub mod pager;
pub mod render;
pub mod report;
pub mod source;
pub mod term;
pub mod text;
pub mod text_map;
pub mod theme;

pub use markdown::Document;
pub use theme::Theme;

verus! {

} // verus!
