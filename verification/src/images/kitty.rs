//! The kitty graphics protocol, as described at
//! <https://sw.kovidgoyal.net/kitty/graphics-protocol/>.
//!
//! PNG (`f=100`) is sent rather than raw pixels: the terminal reads the dimensions from
//! the file itself, and a compressed payload means far less data through the pty.
//! Placement is given in cells (`c`/`r`) so that the image lands exactly in the space
//! the layout reserved for it, and `C=1` stops the terminal from moving the cursor --
//! the writer positions everything itself, because where an image leaves the cursor
//! differs between terminals.
use vstd::prelude::*;

use super::picture::{png_of, write_png, Picture};
use crate::codec::{base64_bytes, base64_encode, base64_text};
use crate::markdown::ir::opt_text;
use crate::text;

verus! {

/// Escape sequences have a maximum length, so the payload is cut up. Pieces are a
/// multiple of four long so that base64 quanta are never split.
pub const CHUNK: usize = 4096;

/// Where the piece that starts at `at` ends.
pub open spec fn piece_end(len: int, at: int) -> int {
    if len - at > CHUNK {
        at + CHUNK
    } else {
        len
    }
}

/// The keys of one piece. Only the first carries the image's own: transmit and display
/// (`a=T`), and sit below the text (`z=-1`), so that whatever is drawn over a picture
/// shows. All of them ask the terminal to stay quiet (`q=2`), so that one that answers
/// each on its own cannot spray a reply into the page.
pub open spec fn piece_keys(first: bool, more: bool, cols: u16, rows: u16, id: u32) -> Seq<char> {
    (if first {
        "a=T,f=100,i="@ + text::decimal(id as nat) + ",c="@ + text::decimal(cols as nat) + ",r="@
            + text::decimal(rows as nat) + ",C=1,z=-1,"@
    } else {
        Seq::empty()
    }) + (if more {
        "q=2,m=1"@
    } else {
        "q=2,m=0"@
    })
}

/// The sequence that carries one piece.
pub open spec fn piece(keys: Seq<char>, payload: Seq<char>) -> Seq<char> {
    "\x1b_G"@ + keys + ";"@ + payload + "\x1b\\"@
}

/// The sequences that carry the payload from `at` on.
pub open spec fn pieces(payload: Seq<char>, at: int, cols: u16, rows: u16, id: u32) -> Seq<char>
    decreases payload.len() - at,
{
    if at < 0 || at >= payload.len() {
        Seq::empty()
    } else {
        let end = piece_end(payload.len() as int, at);
        piece(
            piece_keys(at == 0, end < payload.len(), cols, rows, id),
            payload.subrange(at, end),
        ) + pieces(payload, end, cols, rows, id)
    }
}

/// A PNG file in the protocol's escape sequences.
pub open spec fn kitty_text(png: Seq<u8>, cols: u16, rows: u16, id: u32) -> Seq<char> {
    pieces(base64_text(png), 0, cols, rows, id)
}

fn keys(first: bool, more: bool, cols: u16, rows: u16, id: u32) -> (r: String)
    ensures
        r@ == piece_keys(first, more, cols, rows, id),
{
    let mut out = String::new();
    if first {
        out.push_str("a=T,f=100,i=");
        text::push_decimal(&mut out, id as u64);
        out.push_str(",c=");
        text::push_decimal(&mut out, cols as u64);
        out.push_str(",r=");
        text::push_decimal(&mut out, rows as u64);
        out.push_str(",C=1,z=-1,");
        assert(Seq::<char>::empty() + "a=T,f=100,i="@ =~= "a=T,f=100,i="@);
    }
    out.push_str(
        if more {
            "q=2,m=1"
        } else {
            "q=2,m=0"
        },
    );
    out
}

fn push_piece(out: &mut String, keys: &str, payload: &str)
    ensures
        final(out)@ == old(out)@ + piece(keys@, payload@),
{
    let ghost before = out@;
    out.push_str("\x1b_G");
    out.push_str(keys);
    out.push_str(";");
    out.push_str(payload);
    out.push_str("\x1b\\");
    assert(out@ =~= before + piece(keys@, payload@));
}

/// Wraps already-encoded PNG bytes in the protocol's escape sequences.
pub fn encode_png(png: &[u8], cols: u16, rows: u16, id: u32) -> (r: String)
    requires
        png@.len() <= usize::MAX / 4,
    ensures
        r@ == kitty_text(png@, cols, rows, id),
        piece_payloads(base64_text(png@), 0).flatten() == base64_text(png@),
        base64_bytes(base64_text(png@)) == Some(png@),
{
    let payload = base64_encode(png);
    proof {
        pieces_carry_the_payload(payload@, 0);
        assert(payload@.subrange(0, payload@.len() as int) =~= payload@);
    }
    let v = text::chars_of(&payload);
    let n: usize = v.len();
    let mut out = String::new();
    let mut at: usize = 0;
    assert(out@ + pieces(v@, 0, cols, rows, id) =~= kitty_text(png@, cols, rows, id));
    while at < n
        invariant
            at <= n,
            n == v.len(),
            out@ + pieces(v@, at as int, cols, rows, id) == kitty_text(png@, cols, rows, id),
        decreases n - at,
    {
        let ghost before = out@;
        let end: usize = if n - at > CHUNK {
            at + CHUNK
        } else {
            n
        };
        let keys = keys(at == 0, end < n, cols, rows, id);
        let part = text::string_of_range(&v, at, end);
        push_piece(&mut out, &keys, &part);
        let ghost rest = pieces(v@, end as int, cols, rows, id);
        assert(before + (piece(keys@, part@) + rest) =~= out@ + rest);
        at = end;
    }
    assert(out@ + pieces(v@, at as int, cols, rows, id) =~= out@);
    out
}

/// What a picture is encoded as, given its PNG file: nothing where there is no file, or
/// one too large to be sent from memory.
pub open spec fn sent(png: Option<Seq<u8>>, cols: u16, rows: u16, id: u32) -> Option<Seq<char>> {
    match png {
        Some(bytes) => if bytes.len() <= usize::MAX / 4 {
            Some(kitty_text(bytes, cols, rows, id))
        } else {
            None
        },
        None => None,
    }
}

/// Encodes a picture for display at `cols` x `rows` cells.
pub fn encode(image: &Picture, cols: u16, rows: u16, id: u32) -> (r: Option<String>)
    requires
        image.wf(),
    ensures
        opt_text(r) == sent(
            png_of(image@),
            cols,
            rows,
            id,
        ),
{
    match write_png(image) {
        Some(png) => if png.len() <= usize::MAX / 4 {
            Some(encode_png(&png, cols, rows, id))
        } else {
            None
        },
        None => None,
    }
}

/// Deletes every image placement on screen.
///
/// The pager writes this before redrawing so that images from the previous frame do
/// not linger over the new one.
pub fn clear_all() -> (r: &'static str)
    ensures
        r@ == "\x1b_Ga=d,d=A,q=2\x1b\\"@,
{
    "\x1b_Ga=d,d=A,q=2\x1b\\"
}

// --- laws -----------------------------------------------------------------------------

/// The payloads of the pieces from `at` on.
pub open spec fn piece_payloads(payload: Seq<char>, at: int) -> Seq<Seq<char>>
    decreases payload.len() - at,
{
    if at < 0 || at >= payload.len() {
        Seq::empty()
    } else {
        let end = piece_end(payload.len() as int, at);
        seq![payload.subrange(at, end)] + piece_payloads(payload, end)
    }
}

/// The pieces of a payload, end to end, are the payload, and where its length is a
/// multiple of four so is that of every piece: no base64 quantum is split.
pub proof fn pieces_carry_the_payload(payload: Seq<char>, at: int)
    requires
        0 <= at <= payload.len(),
        payload.len() % 4 == 0,
        at % 4 == 0,
    ensures
        piece_payloads(payload, at).flatten() == payload.subrange(at, payload.len() as int),
        forall|k: int|
            0 <= k < piece_payloads(payload, at).len() ==> 0 < (#[trigger] piece_payloads(
                payload,
                at,
            )[k]).len() <= CHUNK && piece_payloads(payload, at)[k].len() % 4 == 0,
    decreases payload.len() - at,
{
    if at < payload.len() {
        let end = piece_end(payload.len() as int, at);
        pieces_carry_the_payload(payload, end);
        let first = payload.subrange(at, end);
        let rest = piece_payloads(payload, end);
        let all = piece_payloads(payload, at);
        assert(all.first() == first);
        assert(all.drop_first() =~= rest);
        assert(first + payload.subrange(end, payload.len() as int) =~= payload.subrange(
            at,
            payload.len() as int,
        ));
        assert(all.flatten() == first + rest.flatten());
    } else {
        assert(payload.subrange(at, payload.len() as int) =~= Seq::empty());
        assert(piece_payloads(payload, at).flatten() =~= Seq::<char>::empty());
    }
}

} // verus!
