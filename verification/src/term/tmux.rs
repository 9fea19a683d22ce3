//! What tmux knows about the terminal it is drawing on.
//!
//! Inside a multiplexer the least is assumed on purpose: passthrough of graphics
//! sequences is not something to rely on, so the fallback is half blocks, which are
//! only coloured text. But tmux from 3.4 does not need passthrough for sixel -- it
//! parses the image into the pane itself and redraws it for whichever client is
//! attached -- and it has forwarded OSC 8 hyperlinks since the same release.
//!
//! What it will deliver depends on the terminal on the *outside*, and asking the
//! terminal directly cannot tell: tmux answers on its own behalf. It does, however,
//! keep a list of what it decided the client supports, and will tell:
//!
//! ```text
//! $ tmux display-message -p '#{client_termfeatures}'
//! bpaste,ccolour,clipboard,hyperlinks,cstyle,focus,RGB,sixel,title
//! ```
//!
//! An older tmux, or one built without sixel, simply does not name the feature.
use vstd::prelude::*;
use vstd::utf8::{decode_utf8, valid_utf8};

use crate::codec::{from_utf8_lossy, utf8_lossy};
use crate::text;

verus! {

/// What tmux says its client can do.
#[derive(Debug, Clone, Copy, PartialEq, Eq, Structural)]
pub struct Features {
    pub sixel: bool,
    pub hyperlinks: bool,
}

impl Default for Features {
    fn default() -> (r: Features)
        ensures
            r == (Features { sixel: false, hyperlinks: false }),
    {
        Features { sixel: false, hyperlinks: false }
    }
}

/// True of a comma-separated list that names `feature` whole.
pub open spec fn lists(list: Seq<char>, feature: Seq<char>) -> bool {
    let parts = text::split(text::trim(list), ',');
    exists|k: int| 0 <= k < parts.len() && text::trim(#[trigger] parts[k]) == feature
}

/// Picks the features out of the bytes that tmux answered with.
pub fn parse_answer(bytes: &Vec<u8>) -> (r: Features)
    ensures
        r == (Features {
            sixel: lists(utf8_lossy(bytes@), "sixel"@),
            hyperlinks: lists(utf8_lossy(bytes@), "hyperlinks"@),
        }),
        valid_utf8(bytes@) ==> utf8_lossy(bytes@) == decode_utf8(bytes@),
{
    parse(&from_utf8_lossy(bytes.as_slice()))
}

/// Picks the two features that matter out of tmux's comma-separated list.
pub fn parse(list: &str) -> (r: Features)
    ensures
        r == (Features {
            sixel: lists(list@, "sixel"@),
            hyperlinks: lists(list@, "hyperlinks"@),
        }),
{
    let parts = text::split_of(&text::trimmed(list), ',');
    let ghost v = text::views(parts@);
    let mut features = Features::default();
    for i in 0..parts.len()
        invariant
            v == text::views(parts@),
            v == text::split(text::trim(list@), ','),
            features.sixel == (exists|k: int|
                0 <= k < i && text::trim(#[trigger] v[k]) == "sixel"@),
            features.hyperlinks == (exists|k: int|
                0 <= k < i && text::trim(#[trigger] v[k]) == "hyperlinks"@),
    {
        assert(v[i as int] == parts@[i as int]@);
        let name = text::trimmed(&parts[i]);
        if text::same(&name, "sixel") {
            features.sixel = true;
        }
        if text::same(&name, "hyperlinks") {
            features.hyperlinks = true;
        }
    }
    features
}

} // verus!
