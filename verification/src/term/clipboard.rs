//! Putting text on the clipboard from inside a terminal, including over ssh.
//!
//! OSC 52 is the sequence for it: the application hands the terminal some base64 and
//! the terminal, which is the one with a clipboard, sets it. It works down an ssh
//! connection for the same reason colour does -- the bytes reach the terminal either
//! way -- which is what makes it worth having in a pager.
//!
//! Inside tmux the sequence needs help. tmux only forwards an application's OSC 52
//! when `set-clipboard` is `on`, and the default is `external`. Rather than asking
//! people to change their configuration, the text is handed to tmux, which does the
//! copying it was already willing to do.
use vstd::prelude::*;
use vstd::utf8::encode_utf8;

use crate::codec::{base64_bytes, base64_encode, base64_text};
use crate::text;

verus! {

/// Ceiling on what is copied. Terminals cap how long an escape sequence may be, and
/// quietly copying half a code block would be worse than saying no to all of it.
pub const MAX_BYTES: usize = 65536;

/// What the caller must do to finish the copy.
#[derive(Debug, PartialEq, Eq)]
pub enum Copy {
    /// Write this to the terminal.
    Sequence(String),
    /// Already done, by a route that did not involve the terminal.
    Done,
}

/// Why a text is not copied, if it is not.
pub open spec fn refusal(s: Seq<char>) -> Option<Seq<char>> {
    if s.len() == 0 {
        Some("nothing to copy"@)
    } else if encode_utf8(s).len() > MAX_BYTES {
        Some("too much to copy"@)
    } else {
        None
    }
}

/// The sequence that sets the clipboard to `s`.
pub open spec fn clipboard_text(s: Seq<char>) -> Seq<char> {
    "\x1b]52;c;"@ + base64_text(encode_utf8(s)) + "\x07"@
}

/// Whether a text can be copied at all: there is something in it and not far too much.
pub fn check(text: &str) -> (r: Result<(), &'static str>)
    ensures
        (match r {
            Ok(()) => None,
            Err(e) => Some(e@),
        }) == refusal(text@),
{
    if text.is_empty() {
        return Err("nothing to copy");
    }
    if text.as_bytes().len() > MAX_BYTES {
        return Err("too much to copy");
    }
    Ok(())
}

/// Prepares `text` for the clipboard, given whether tmux has taken it.
///
/// Fails only when there is nothing to copy or far too much of it: a terminal that
/// does not understand OSC 52 ignores it, and there is no reply to wait for, so
/// success here means "sent", not "arrived".
pub fn copy(text: &str, taken: bool) -> (r: Result<Copy, &'static str>)
    ensures
        match r {
            Err(e) => refusal(text@) == Some(e@),
            Ok(Copy::Done) => refusal(text@) is None && taken,
            Ok(Copy::Sequence(s)) => refusal(text@) is None && !taken && s@ == clipboard_text(
                text@,
            ) && base64_bytes(base64_text(encode_utf8(text@))) == Some(encode_utf8(text@)),
        },
{
    match check(text) {
        Err(e) => Err(e),
        Ok(()) => if taken {
            Ok(Copy::Done)
        } else {
            Ok(Copy::Sequence(osc52(text)))
        },
    }
}

/// The OSC 52 sequence that sets the clipboard to `text`.
///
/// `c` is the clipboard selection proper, as opposed to the primary selection;
/// terminals that only implement one implement that one.
pub fn osc52(text: &str) -> (r: String)
    requires
        encode_utf8(text@).len() <= usize::MAX / 4,
    ensures
        r@ == clipboard_text(text@),
        base64_bytes(base64_text(encode_utf8(text@))) == Some(encode_utf8(text@)),
{
    let mut out = text::owned("\x1b]52;c;");
    out.push_str(&base64_encode(text.as_bytes()));
    out.push_str("\x07");
    out
}

} // verus!
