//! Markdown: the document tree and how it is built.
use vstd::prelude::*;

pub mod depth;
pub mod events;
pub mod fragments;
pub mod html;
pub mod ir;
pub mod parse;
pub mod rebase;
pub mod slug;
pub mod writing;

pub use self::ir::{
    plain_text, AlertKind, Alignment, Block, Document, ImageRef, Inline, List, ListItem, Table,
};
pub use self::parse::{parse, ParseOptions};
pub use self::rebase::{rebase_urls, UrlBase};
pub use self::slug::{slugify, Slugger};

verus! {

} // verus!
