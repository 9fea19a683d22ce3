//! Asks the terminal what it can do, instead of guessing from `TERM`.
//!
//! A batch of query sequences is written and the replies are read. The trick that
//! makes this reliable is the ordering: terminals answer queries in the order they
//! arrive, and every terminal answers a Primary Device Attributes request. Sending
//! `CSI c` last therefore turns it into a sentinel -- once its reply arrives, any
//! terminal that intended to answer the earlier queries already has, so reading can
//! stop at once rather than wait out a timeout.
//!
//! On a terminal that answers nothing at all the timeout is paid once, and the guesses
//! from the environment stand.
use vstd::prelude::*;

use super::caps::{Capabilities, GraphicsProtocol};
use super::style::Rgb;
use super::tmux::Features;
use crate::codec::{from_utf8_lossy, utf8_lossy};
use crate::text;

verus! {

/// What a probe managed to learn. Terminals answer the subset of queries they
/// understand and silently ignore the rest.
#[derive(Debug, Clone, Copy, PartialEq, Eq)]
pub struct ProbeResult {
    pub kitty_graphics: bool,
    pub sixel: bool,
    pub cell_px: Option<(u16, u16)>,
    pub background: Option<Rgb>,
    pub answered: bool,
}

/// What silence says.
pub open spec fn nothing_learnt() -> ProbeResult {
    ProbeResult {
        kitty_graphics: false,
        sixel: false,
        cell_px: None,
        background: None,
        answered: false,
    }
}

impl Default for ProbeResult {
    fn default() -> (r: ProbeResult)
        ensures
            r == nothing_learnt(),
    {
        ProbeResult {
            kitty_graphics: false,
            sixel: false,
            cell_px: None,
            background: None,
            answered: false,
        }
    }
}

/// The queries, ordered so that the last reply acts as a sentinel: kitty graphics by
/// way of a one-pixel image, the background colour, the size of a cell in pixels, and
/// the primary device attributes.
pub fn queries() -> (r: &'static str)
    ensures
        r@ == "\x1b_Gi=4294967295,s=1,v=1,a=q,t=d,f=24;AAAA\x1b\\\x1b]11;?\x1b\\\x1b[16t\x1b[c"@,
{
    "\x1b_Gi=4294967295,s=1,v=1,a=q,t=d,f=24;AAAA\x1b\\\x1b]11;?\x1b\\\x1b[16t\x1b[c"
}

// --- folding what was learnt into the capabilities -----------------------------------

/// What becomes of the capabilities of a multiplexed session.
pub open spec fn with_tmux(caps: Capabilities, features: Features) -> Capabilities {
    Capabilities {
        graphics: if features.sixel && caps.graphics == GraphicsProtocol::Blocks {
            GraphicsProtocol::Sixel
        } else {
            caps.graphics
        },
        hyperlinks: caps.hyperlinks || features.hyperlinks,
        ..caps
    }
}

/// Promotes a multiplexed session to what tmux says its client can manage.
///
/// tmux from 3.4 parses a sixel into the pane and redraws it itself, so this is not
/// passthrough and does not depend on the escape codes surviving; and it forwards OSC
/// 8 to a client that understands it. Neither is promoted without tmux naming the
/// feature, which keeps every older version on half blocks.
pub fn apply_tmux(caps: &mut Capabilities, features: Features)
    ensures
        *final(caps) == with_tmux(*old(caps), features),
{
    if features.sixel && caps.graphics == GraphicsProtocol::Blocks {
        caps.graphics = GraphicsProtocol::Sixel;
    }
    if features.hyperlinks {
        caps.hyperlinks = true;
    }
}

/// What becomes of the capabilities of a terminal that was asked. A positive answer
/// promotes; a silent terminal keeps the guess, because plenty of terminals support
/// graphics without answering queries.
pub open spec fn with_answers(caps: Capabilities, result: ProbeResult) -> Capabilities {
    if !result.answered {
        caps
    } else {
        Capabilities {
            cell_px: if result.cell_px is Some {
                result.cell_px
            } else {
                caps.cell_px
            },
            background: if result.background is Some {
                result.background
            } else {
                caps.background
            },
            graphics: if caps.multiplexed {
                caps.graphics
            } else if result.kitty_graphics && caps.graphics != GraphicsProtocol::Kitty {
                GraphicsProtocol::Kitty
            } else if result.sixel && (caps.graphics == GraphicsProtocol::Blocks || caps.graphics
                == GraphicsProtocol::Off) {
                GraphicsProtocol::Sixel
            } else {
                caps.graphics
            },
            ..caps
        }
    }
}

/// What becomes of the capabilities of a session, given what tmux and the terminal
/// answered, each if it could be asked.
pub open spec fn refined(
    caps: Capabilities,
    features: Option<Features>,
    result: Option<ProbeResult>,
) -> Capabilities {
    let lifted = match features {
        Some(f) => if caps.multiplexed {
            with_tmux(caps, f)
        } else {
            caps
        },
        None => caps,
    };
    match result {
        Some(answers) => with_answers(lifted, answers),
        None => lifted,
    }
}

/// Folds the results of a probe into `caps`.
///
/// Inside tmux the terminal within reach is tmux itself, and its answers are about
/// tmux. What the client on the far side can draw has to be asked of tmux separately.
pub fn refine(caps: &mut Capabilities, features: Option<Features>, result: Option<ProbeResult>)
    ensures
        *final(caps) == refined(*old(caps), features, result),
{
    if caps.multiplexed {
        match features {
            Some(f) => apply_tmux(caps, f),
            None => {},
        }
    }
    match result {
        None => {},
        Some(result) => {
            if !result.answered {
                return;
            }
            if result.cell_px.is_some() {
                caps.cell_px = result.cell_px;
            }
            if result.background.is_some() {
                caps.background = result.background;
            }
            if result.kitty_graphics && caps.graphics != GraphicsProtocol::Kitty
                && !caps.multiplexed {
                caps.graphics = GraphicsProtocol::Kitty;
            } else if result.sixel && !caps.multiplexed && (caps.graphics
                == GraphicsProtocol::Blocks || caps.graphics == GraphicsProtocol::Off) {
                caps.graphics = GraphicsProtocol::Sixel;
            }
        },
    }
}

/// A probe never takes away a protocol that was already known to draw real pixels,
/// unless it finds kitty's.
pub proof fn probing_does_not_downgrade(
    caps: Capabilities,
    features: Option<Features>,
    result: Option<ProbeResult>,
)
    requires
        caps.graphics is Kitty || caps.graphics is ITerm2 || caps.graphics is Sixel,
    ensures
        refined(caps, features, result).graphics == caps.graphics || refined(
            caps,
            features,
            result,
        ).graphics == GraphicsProtocol::Kitty,
        refined(caps, features, result).color == caps.color,
        refined(caps, features, result).hyperlinks || !caps.hyperlinks,
{
}

/// A protocol that was switched off stays off inside a multiplexer.
pub proof fn multiplexed_sessions_do_not_probe_graphics(
    caps: Capabilities,
    features: Option<Features>,
    result: Option<ProbeResult>,
)
    requires
        caps.multiplexed,
        caps.graphics != GraphicsProtocol::Blocks,
    ensures
        refined(caps, features, result).graphics == caps.graphics,
{
}

// --- reading the replies ------------------------------------------------------------------

/// The text between the first `start` and the `end` that follows it.
pub open spec fn between(s: Seq<char>, start: Seq<char>, end: Seq<char>) -> Option<Seq<char>> {
    match text::find_from(s, start, 0) {
        None => None,
        Some(i) => match text::find_from(s, end, i + start.len()) {
            None => None,
            Some(j) => Some(s.subrange(i + start.len(), j)),
        },
    }
}

/// The text between the first `start` and the `end` that follows it.
pub fn find_between(haystack: &str, start: &str, end: &str) -> (r: Option<String>)
    ensures
        (match r {
            Some(t) => Some(t@),
            None => None,
        }) == between(haystack@, start@, end@),
{
    let v = text::chars_of(haystack);
    let p = text::chars_of(start);
    proof {
        text::lemma_find_from(haystack@, start@, 0);
    }
    match text::find_chars(&v, &p, 0) {
        None => None,
        Some(i) => {
            assert(i + p@.len() <= v.len());
            let from: usize = i + p.len();
            proof {
                text::lemma_find_from(haystack@, end@, from as int);
            }
            match text::find_chars(&v, &text::chars_of(end), from) {
                None => None,
                Some(j) => Some(text::string_of_range(&v, from, j)),
            }
        },
    }
}

/// One component of an X11 colour, scaled from its own depth to eight bits.
pub open spec fn component(part: Seq<char>) -> Option<u8> {
    let p = text::trim(part);
    if p.len() == 0 || p.len() > 4 {
        None
    } else {
        match text::digits_number(p, 16, 0xffff) {
            None => None,
            Some(v) => {
                let max = if p.len() == 1 {
                    15
                } else if p.len() == 2 {
                    255
                } else if p.len() == 3 {
                    4095
                } else {
                    65535int
                };
                Some(((v * 255 + max / 2) / max) as u8)
            },
        }
    }
}

/// An X11 colour, `rgb:RRRR/GGGG/BBBB` with one to four digits in each component.
pub open spec fn xparse_color(s: Seq<char>) -> Option<Rgb> {
    let t = text::trim(s);
    if !text::starts_with(t, "rgb:"@) {
        None
    } else {
        let parts = text::split(t.subrange(4, t.len() as int), '/');
        if parts.len() < 3 {
            None
        } else {
            match (component(parts[0]), component(parts[1]), component(parts[2])) {
                (Some(r), Some(g), Some(b)) => Some(Rgb(r, g, b)),
                _ => None,
            }
        }
    }
}

fn parse_component(part: &str) -> (r: Option<u8>)
    ensures
        r == component(part@),
{
    let p = text::trimmed(part);
    let v = text::chars_of(&p);
    let n: usize = v.len();
    if n == 0 || n > 4 {
        return None;
    }
    assert(v@.subrange(0, n as int) =~= v@);
    match text::digits_at(&v, 0, n, 16, 0xffff) {
        None => None,
        Some(v) => {
            let max: u64 = if n == 1 {
                15
            } else if n == 2 {
                255
            } else if n == 3 {
                4095
            } else {
                65535
            };
            Some(((v * 255 + max / 2) / max) as u8)
        },
    }
}

/// Parses X11 `rgb:RRRR/GGGG/BBBB` with one to four hex digits per component.
pub fn parse_xparse_color(s: &str) -> (r: Option<Rgb>)
    ensures
        r == xparse_color(s@),
{
    let t = text::trimmed(s);
    if !text::has_prefix(&t, "rgb:") {
        return None;
    }
    proof {
        reveal_strlit("rgb:");
    }
    let v = text::chars_of(&t);
    let parts = text::split_of(&text::string_of_range(&v, 4, v.len()), '/');
    let ghost pv = text::views(parts@);
    if parts.len() < 3 {
        return None;
    }
    assert(pv[0] == parts@[0]@ && pv[1] == parts@[1]@ && pv[2] == parts@[2]@);
    match (parse_component(&parts[0]), parse_component(&parts[1]), parse_component(&parts[2])) {
        (Some(r), Some(g), Some(b)) => Some(Rgb(r, g, b)),
        _ => None,
    }
}

/// True of a reply from kitty's protocol. An error names the failure instead of `OK`,
/// but still proves that the protocol is understood.
pub open spec fn speaks_kitty(s: Seq<char>) -> bool {
    match between(s, "\x1b_G"@, "\x1b\\"@) {
        Some(apc) => text::contains(apc, ";OK"@) || text::contains(apc, "i=4294967295"@),
        None => false,
    }
}

/// True of device attributes that list sixel graphics.
pub open spec fn lists_sixel(attributes: Seq<char>) -> bool {
    let parts = text::split(attributes, ';');
    exists|k: int| 0 <= k < parts.len() && text::trim(#[trigger] parts[k]) == "4"@
}

/// The size of a cell in a report of height and width.
pub open spec fn reported_cell(report: Seq<char>) -> Option<(u16, u16)> {
    let parts = text::split(report, ';');
    if parts.len() < 2 {
        None
    } else {
        match (
            text::parse_number(text::trim(parts[0]), 10, 0xffff),
            text::parse_number(text::trim(parts[1]), 10, 0xffff),
        ) {
            (Some(h), Some(w)) if h > 0 && w > 0 => Some((w as u16, h as u16)),
            _ => None,
        }
    }
}

/// The colour after the first `OSC 11`, up to whatever ends it.
pub open spec fn reported_background(s: Seq<char>) -> Option<Rgb> {
    match text::find_from(s, "\x1b]11;"@, 0) {
        None => None,
        Some(i) => xparse_color(s.subrange(i + 5, control_end(s, i + 5))),
    }
}

/// The first bell or escape at `i` or after it, or the end.
pub open spec fn control_end(s: Seq<char>, i: int) -> int
    decreases s.len() - i,
{
    if i < 0 || i >= s.len() {
        s.len() as int
    } else if s[i] == '\x07' || s[i] == '\x1b' {
        i
    } else {
        control_end(s, i + 1)
    }
}

/// What a reply says.
pub open spec fn learnt(s: Seq<char>) -> ProbeResult {
    let attributes = between(s, "\x1b[?"@, "c"@);
    let cell = match between(s, "\x1b[6;"@, "t"@) {
        Some(report) => reported_cell(report),
        None => None,
    };
    let background = reported_background(s);
    ProbeResult {
        kitty_graphics: speaks_kitty(s),
        sixel: match attributes {
            Some(a) => lists_sixel(a),
            None => false,
        },
        cell_px: cell,
        background,
        answered: speaks_kitty(s) || attributes is Some || cell is Some || background is Some,
    }
}

fn has_sixel(attributes: &str) -> (r: bool)
    ensures
        r == lists_sixel(attributes@),
{
    let parts = text::split_of(attributes, ';');
    let ghost v = text::views(parts@);
    for i in 0..parts.len()
        invariant
            v == text::views(parts@),
            v == text::split(attributes@, ';'),
            forall|k: int| 0 <= k < i ==> text::trim(#[trigger] v[k]) != "4"@,
    {
        assert(v[i as int] == parts@[i as int]@);
        if text::same(&text::trimmed(&parts[i]), "4") {
            return true;
        }
    }
    false
}

fn read_cell(report: &str) -> (r: Option<(u16, u16)>)
    ensures
        r == reported_cell(report@),
{
    let parts = text::split_of(report, ';');
    let ghost v = text::views(parts@);
    if parts.len() < 2 {
        return None;
    }
    assert(v[0] == parts@[0]@ && v[1] == parts@[1]@);
    match (
        text::number_of(&text::trimmed(&parts[0]), 10, 0xffff),
        text::number_of(&text::trimmed(&parts[1]), 10, 0xffff),
    ) {
        (Some(h), Some(w)) => if h > 0 && w > 0 {
            Some((w as u16, h as u16))
        } else {
            None
        },
        _ => None,
    }
}

fn read_background(s: &str) -> (r: Option<Rgb>)
    ensures
        r == reported_background(s@),
{
    let v = text::chars_of(s);
    proof {
        reveal_strlit("\x1b]11;");
        text::lemma_find_from(s@, "\x1b]11;"@, 0);
    }
    match text::find_chars(&v, &text::chars_of("\x1b]11;"), 0) {
        None => None,
        Some(i) => {
            assert(i + 5 <= v.len());
            let from: usize = i + 5;
            let mut to: usize = from;
            while to < v.len() && !(v[to] == '\x07' || v[to] == '\x1b')
                invariant
                    from <= to <= v.len(),
                    control_end(v@, to as int) == control_end(v@, from as int),
                decreases v.len() - to,
            {
                to = to + 1;
            }
            parse_xparse_color(&text::string_of_range(&v, from, to))
        },
    }
}

/// Extracts capabilities from a reply.
pub fn parse_text(s: &str) -> (r: ProbeResult)
    ensures
        r == learnt(s@),
{
    let mut out = ProbeResult::default();
    match find_between(s, "\x1b_G", "\x1b\\") {
        Some(apc) => {
            if text::has_sub(&apc, ";OK") || text::has_sub(&apc, "i=4294967295") {
                out.kitty_graphics = true;
                out.answered = true;
            }
        },
        None => {},
    }
    match find_between(s, "\x1b[?", "c") {
        Some(attributes) => {
            out.answered = true;
            out.sixel = has_sixel(&attributes);
        },
        None => {},
    }
    match find_between(s, "\x1b[6;", "t") {
        Some(report) => {
            out.cell_px = read_cell(&report);
            if out.cell_px.is_some() {
                out.answered = true;
            }
        },
        None => {},
    }
    out.background = read_background(s);
    if out.background.is_some() {
        out.answered = true;
    }
    out
}

/// Extracts capabilities from a raw reply buffer.
pub fn parse(buf: &[u8]) -> (r: ProbeResult)
    ensures
        r == learnt(utf8_lossy(buf@)),
{
    parse_text(&from_utf8_lossy(buf))
}

/// True where the bytes at `i` start a reply to the device attributes request.
pub open spec fn reply_at(buf: Seq<u8>, i: int) -> bool {
    0 <= i && i + 2 < buf.len() && buf[i] == 0x1b && buf[i + 1] == 0x5b && buf[i + 2] == 0x3f
}

/// True once the reply to the device attributes request, `CSI ? ... c`, is there whole.
pub open spec fn sentinel_in(buf: Seq<u8>) -> bool {
    exists|i: int, j: int| #[trigger] reply_at(buf, i) && i <= j < buf.len() && #[trigger] buf[j]
        == 0x63
}

/// True once the reply that comes last is present, so that reading can stop.
pub fn sentinel_seen(buf: &[u8]) -> (r: bool)
    ensures
        r == sentinel_in(buf@),
{
    let n: usize = buf.len();
    let mut i: usize = 0;
    while i < n && !(n - i > 2 && buf[i] == 0x1b && buf[i + 1] == 0x5b && buf[i + 2] == 0x3f)
        invariant
            i <= n,
            n == buf@.len(),
            forall|k: int| 0 <= k < i ==> !reply_at(buf@, k),
        decreases n - i,
    {
        i = i + 1;
    }
    if i >= n {
        return false;
    }
    assert(reply_at(buf@, i as int));
    let mut j: usize = i;
    while j < n
        invariant
            i <= j <= n,
            n == buf@.len(),
            reply_at(buf@, i as int),
            forall|k: int| 0 <= k < i ==> !reply_at(buf@, k),
            forall|k: int| i <= k < j ==> buf@[k] != 0x63,
        decreases n - j,
    {
        if buf[j] == 0x63 {
            assert(buf@[j as int] == 0x63);
            return true;
        }
        j = j + 1;
    }
    false
}

} // verus!
