//! iTerm2's inline images protocol, as described at
//! <https://iterm2.com/documentation-images.html>: an OSC 1337 `File=` sequence
//! carrying arguments and a base64 payload. The size is given in cells and
//! `preserveAspectRatio=1` is kept, so that a terminal that rounds differently
//! letterboxes the picture rather than stretching it.
//!
//! WezTerm and mintty implement the same sequence, which is why this is a useful
//! backend beyond iTerm2 itself.
use vstd::prelude::*;
use vstd::utf8::encode_utf8;

use super::picture::{png_of, write_png, Picture};
use crate::codec::{base64_bytes, base64_encode, base64_text};
use crate::markdown::ir::opt_text;
use crate::markdown::rebase::{find_part_end, part_end};
use crate::source::{after_dot, file_name, name_of};
use crate::text;

verus! {

/// What follows the name in the protocol's escape sequence. `size` is the number of
/// bytes in the file, not the length of its base64 form.
pub open spec fn arguments(bytes: Seq<u8>, cols: u16, rows: u16) -> Seq<char> {
    "inline=1;size="@ + text::decimal(bytes.len()) + ";width="@ + text::decimal(cols as nat)
        + ";height="@ + text::decimal(rows as nat) + ";preserveAspectRatio=1:"@ + base64_text(bytes)
        + "\x1b\\"@
}

/// An image file in the protocol's escape sequence, without a name.
pub open spec fn iterm2_text(bytes: Seq<u8>, cols: u16, rows: u16) -> Seq<char> {
    "\x1b]1337;File="@ + arguments(bytes, cols, rows)
}

/// An image file in the protocol's escape sequence.
pub open spec fn named_text(name: Seq<char>, bytes: Seq<u8>, cols: u16, rows: u16) -> Seq<char> {
    "\x1b]1337;File=name="@ + base64_text(encode_utf8(name)) + ";"@ + arguments(bytes, cols, rows)
}

/// The name that an image is sent under: that of the file its URL leads to, with the
/// extension of what is sent. Where there is no such name, a plain one serves.
pub open spec fn png_name(url: Seq<char>) -> Seq<char> {
    let name = name_of(url.subrange(0, part_end(url, 0, false)));
    let dot = after_dot(name, name.len() as int);
    let stem = if dot > 1 {
        name.subrange(0, dot - 1)
    } else {
        name
    };
    if text::starts_with(url, "data:"@) || name.len() == 0 || encode_utf8(stem + ".png"@).len()
        > usize::MAX / 4 {
        "image.png"@
    } else {
        stem + ".png"@
    }
}

fn name_for(url: &str) -> (r: String)
    ensures
        r@ == png_name(url@),
        encode_utf8(r@).len() <= usize::MAX / 4,
{
    let v = text::chars_of(url);
    let name = file_name(&text::string_of_range(&v, 0, find_part_end(&v, 0, false)));
    let n = text::chars_of(&name);
    let mut dot: usize = n.len();
    while dot > 0 && n[dot - 1] != '.'
        invariant
            dot <= n.len(),
            after_dot(n@, dot as int) == after_dot(n@, n@.len() as int),
        decreases dot,
    {
        dot = dot - 1;
    }
    let mut out = if dot > 1 {
        text::string_of_range(&n, 0, dot - 1)
    } else {
        text::owned(&name)
    };
    out.push_str(".png");
    if text::has_prefix(url, "data:") || n.len() == 0 || out.as_str().as_bytes().len()
        > usize::MAX / 4 {
        out = text::owned("image.png");
        proof {
            lemma_plain_name();
        }
    }
    out
}

proof fn lemma_plain_name()
    ensures
        encode_utf8("image.png"@).len() <= usize::MAX / 4,
{
    reveal_strlit("image.png");
    reveal_with_fuel(encode_utf8, 10);
}

fn push_arguments(out: &mut String, bytes: &[u8], cols: u16, rows: u16)
    requires
        bytes@.len() <= usize::MAX / 4,
    ensures
        final(out)@ == old(out)@ + arguments(bytes@, cols, rows),
        base64_bytes(base64_text(bytes@)) == Some(bytes@),
{
    let ghost before = out@;
    out.push_str("inline=1;size=");
    text::push_decimal(out, bytes.len() as u64);
    out.push_str(";width=");
    text::push_decimal(out, cols as u64);
    out.push_str(";height=");
    text::push_decimal(out, rows as u64);
    out.push_str(";preserveAspectRatio=1:");
    out.push_str(&base64_encode(bytes));
    out.push_str("\x1b\\");
    assert(out@ =~= before + arguments(bytes@, cols, rows));
}

/// Wraps already-encoded image bytes in the protocol's escape sequence.
///
/// ST rather than BEL ends it: both are accepted, and ST is the standard form, which
/// multiplexers are more likely to pass through intact.
pub fn encode_bytes(bytes: &[u8], cols: u16, rows: u16) -> (r: String)
    requires
        bytes@.len() <= usize::MAX / 4,
    ensures
        r@ == iterm2_text(bytes@, cols, rows),
        base64_bytes(base64_text(bytes@)) == Some(bytes@),
{
    let mut out = text::owned("\x1b]1337;File=");
    push_arguments(&mut out, bytes, cols, rows);
    out
}

fn encode_named_bytes(bytes: &[u8], url: &str, cols: u16, rows: u16) -> (r: String)
    requires
        bytes@.len() <= usize::MAX / 4,
    ensures
        r@ == named_text(png_name(url@), bytes@, cols, rows),
{
    let name = name_for(url);
    let mut out = text::owned("\x1b]1337;File=name=");
    out.push_str(&base64_encode(name.as_str().as_bytes()));
    out.push_str(";");
    push_arguments(&mut out, bytes, cols, rows);
    out
}

/// What a picture is encoded as, given its PNG file: nothing where there is no file, or
/// one too large to be sent from memory.
pub open spec fn sent(png: Option<Seq<u8>>, cols: u16, rows: u16) -> Option<Seq<char>> {
    match png {
        Some(bytes) => if bytes.len() <= usize::MAX / 4 {
            Some(iterm2_text(bytes, cols, rows))
        } else {
            None
        },
        None => None,
    }
}

/// Encodes a picture for display at `cols` x `rows` cells.
pub fn encode(image: &Picture, cols: u16, rows: u16) -> (r: Option<String>)
    requires
        image.wf(),
    ensures
        opt_text(r) == sent(png_of(image@), cols, rows),
{
    match write_png(image) {
        Some(png) => if png.len() <= usize::MAX / 4 {
            Some(encode_bytes(&png, cols, rows))
        } else {
            None
        },
        None => None,
    }
}

/// What a picture is encoded as when it is known where it came from.
pub open spec fn sent_named(png: Option<Seq<u8>>, url: Seq<char>, cols: u16, rows: u16) -> Option<
    Seq<char>,
> {
    match png {
        Some(bytes) => if bytes.len() <= usize::MAX / 4 {
            Some(named_text(png_name(url), bytes, cols, rows))
        } else {
            None
        },
        None => None,
    }
}

/// Encodes a picture under a name derived from its URL. A receiver without one has
/// nothing to tell the payload by, and may show a file in place of the image.
pub fn encode_named(image: &Picture, url: &str, cols: u16, rows: u16) -> (r: Option<String>)
    requires
        image.wf(),
    ensures
        opt_text(r) == sent_named(
            png_of(image@),
            url@,
            cols,
            rows,
        ),
{
    match write_png(image) {
        Some(png) => if png.len() <= usize::MAX / 4 {
            Some(encode_named_bytes(&png, url, cols, rows))
        } else {
            None
        },
        None => None,
    }
}

} // verus!
