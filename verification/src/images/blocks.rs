//! The universal fallback: pictures made of half blocks.
//!
//! `U+2580 UPPER HALF BLOCK` fills the top half of a cell with the foreground colour
//! and leaves the bottom half showing the background, so one cell carries two
//! vertically stacked pixels. That doubles the vertical resolution for free and is why
//! terminal image viewers reach for this character rather than a full block.
//!
//! It is only coloured text, so it works anywhere with 256 colours -- including inside
//! tmux and over ssh, where the pixel protocols usually cannot go.
use vstd::prelude::*;

use super::picture::{Picture, PictureV};
use crate::term::caps::ColorDepth;
use crate::term::display::{
    column_at, displayed, in_style, lemma_in_style, plain_text_is_shown, resets_are_shown, row_at,
    styled, transitions_are_shown, Glyph,
};
use crate::term::style::{faded, faded_color, plain_style, Color, Rgb, Style, StyleWriter};
use crate::text;

verus! {

/// Pixels below this alpha are treated as fully transparent.
pub const ALPHA_THRESHOLD: u8 = 128;

/// The position of a pixel's first byte.
pub open spec fn offset(width: int, x: int, y: int) -> int {
    (y * width + x) * 4
}

/// A pixel's colour, or nothing where it is transparent or below the picture.
pub open spec fn pixel_at(p: PictureV, x: int, y: int) -> Option<Rgb> {
    let i = offset(p.width as int, x, y);
    if y >= p.height || p.pixels[i + 3] < ALPHA_THRESHOLD {
        None
    } else {
        Some(Rgb(p.pixels[i], p.pixels[i + 1], p.pixels[i + 2]))
    }
}

/// The style with a foreground, and a background if there is one.
pub open spec fn painted(fg: Rgb, bg: Option<Rgb>) -> Style {
    Style {
        fg: Color::Rgb(fg),
        bg: match bg {
            Some(b) => Color::Rgb(b),
            None => plain_style().bg,
        },
        ..plain_style()
    }
}

/// The character and the colours for one cell from its two pixels. Where only one half
/// is visible that half is drawn and the other left transparent, so that the
/// terminal's own background shows through.
pub open spec fn cell_of(top: Option<Rgb>, bottom: Option<Rgb>) -> (Seq<char>, Style) {
    match (top, bottom) {
        (Some(t), _) => ("\u{2580}"@, painted(t, bottom)),
        (None, Some(b)) => ("\u{2584}"@, painted(b, None)),
        (None, None) => (" "@, plain_style()),
    }
}

/// A style writer and what has been written.
pub struct BrushV {
    pub writer: StyleWriter,
    pub out: Seq<char>,
}

/// The first `x` cells of a row.
pub open spec fn row_painted(p: PictureV, row: int, x: int, b: BrushV) -> BrushV
    decreases x,
{
    if x <= 0 {
        b
    } else {
        let before = row_painted(p, row, x - 1, b);
        let (symbol, style) = cell_of(
            pixel_at(p, x - 1, row * 2),
            pixel_at(p, x - 1, row * 2 + 1),
        );
        BrushV {
            writer: before.writer.moved(style),
            out: before.out + before.writer.written(style) + symbol,
        }
    }
}

/// The first `k` rows. Rows after the first start on a line of their own, without
/// style, behind the indent. The carriage return is for terminals in raw mode, where a
/// line feed alone does not go back to the first column.
pub open spec fn rows_painted(p: PictureV, k: int, indent: nat, b: BrushV) -> BrushV
    decreases k,
{
    if k <= 0 {
        b
    } else {
        let before = rows_painted(p, k - 1, indent, b);
        let start = if k - 1 > 0 {
            BrushV {
                writer: before.writer.at_rest(),
                out: before.out + before.writer.reset_text() + "\r\n"@ + text::spaces(indent),
            }
        } else {
            before
        };
        row_painted(p, k - 1, p.width as int, start)
    }
}

/// The number of text rows that hold `height` rows of pixels.
pub open spec fn text_rows(height: int) -> int {
    (height + 1) / 2
}

/// A picture as half blocks. Style does not leak into what follows.
pub open spec fn blocks_text(p: PictureV, indent: nat, depth: ColorDepth) -> Seq<char> {
    if p.width == 0 || p.height == 0 {
        Seq::empty()
    } else {
        let b = rows_painted(
            p,
            text_rows(p.height as int),
            indent,
            BrushV {
                writer: StyleWriter {
                    depth,
                    current: plain_style(),
                    italic_as_underline: false,
                },
                out: Seq::empty(),
            },
        );
        b.out + b.writer.reset_text()
    }
}

/// Renders a picture as half blocks, in full colour.
///
/// The picture should already be sized in pixels to `cols` x `rows * 2`. Lines after
/// the first are indented by `indent` columns so that the picture stays in its column
/// when it sits inside a list or a quote.
pub fn encode(image: &Picture, indent: u16) -> (r: String)
    requires
        image.wf(),
    ensures
        r@ == blocks_text(image@, indent as nat, ColorDepth::TrueColor),
{
    encode_with_depth(image, indent, ColorDepth::TrueColor)
}

/// As [`encode`], with an explicit colour depth for the output.
pub fn encode_with_depth(image: &Picture, indent: u16, depth: ColorDepth) -> (r: String)
    requires
        image.wf(),
    ensures
        r@ == blocks_text(image@, indent as nat, depth),
{
    let w: u32 = image.width;
    let h: u32 = image.height;
    if w == 0 || h == 0 {
        return String::new();
    }
    let ghost p = image@;
    let mut out = String::new();
    let mut sw = StyleWriter::new(depth);
    let ghost start = BrushV { writer: sw, out: out@ };
    let rows: u32 = h / 2 + h % 2;
    for row in 0..rows
        invariant
            image.wf(),
            p == image@,
            w == image.width,
            h == image.height,
            w > 0,
            rows == text_rows(h as int),
            (BrushV { writer: sw, out: out@ }) == rows_painted(
                p,
                row as int,
                indent as nat,
                start,
            ),
    {
        if row > 0 {
            sw.reset(&mut out);
            out.push_str("\r\n");
            text::push_spaces(&mut out, indent as usize);
        }
        let ghost begun = BrushV { writer: sw, out: out@ };
        for x in 0..w
            invariant
                image.wf(),
                p == image@,
                w == image.width,
                h == image.height,
                row < rows,
                rows == text_rows(h as int),
                (BrushV { writer: sw, out: out@ }) == row_painted(
                    p,
                    row as int,
                    x as int,
                    begun,
                ),
        {
            let top = sample(image, x, row as u64 * 2);
            let bottom = sample(image, x, row as u64 * 2 + 1);
            let (symbol, style) = cell(top, bottom);
            sw.transition(style, &mut out);
            out.push_str(symbol);
        }
    }
    sw.reset(&mut out);
    out
}

/// Chooses the character and colours for one cell from its two pixels.
pub fn cell(top: Option<Rgb>, bottom: Option<Rgb>) -> (r: (&'static str, Style))
    ensures
        (r.0@, r.1) == cell_of(top, bottom),
{
    match (top, bottom) {
        (Some(t), Some(b)) => (
            "\u{2580}",
            Style::plain().fg(Color::Rgb(t)).bg(Color::Rgb(b)),
        ),
        (Some(t), None) => ("\u{2580}", Style::plain().fg(Color::Rgb(t))),
        (None, Some(b)) => ("\u{2584}", Style::plain().fg(Color::Rgb(b))),
        (None, None) => (" ", Style::plain()),
    }
}

/// A pixel's bytes lie in its picture.
pub proof fn lemma_offset(width: int, height: int, x: int, y: int)
    requires
        0 <= x < width,
        0 <= y < height,
    ensures
        0 <= y * width <= y * width + x,
        offset(width, x, y) + 4 <= width * height * 4,
        0 <= offset(width, x, y),
{
    assert(y * width + x + 1 <= width * height) by (nonlinear_arith)
        requires
            0 <= x < width,
            0 <= y < height,
    ;
    assert(0 <= y * width) by (nonlinear_arith)
        requires
            0 <= y,
            0 < width,
    ;
}

/// Reads a pixel: nothing for transparency and for rows below the picture.
fn sample(image: &Picture, x: u32, y: u64) -> (r: Option<Rgb>)
    requires
        image.wf(),
        x < image.width,
    ensures
        r == pixel_at(image@, x as int, y as int),
{
    if y >= image.height as u64 {
        return None;
    }
    proof {
        lemma_offset(image.width as int, image.height as int, x as int, y as int);
    }
    let i: usize = (y as usize * image.width as usize + x as usize) * 4;
    if image.pixels[i + 3] >= ALPHA_THRESHOLD {
        Some(Rgb(image.pixels[i], image.pixels[i + 1], image.pixels[i + 2]))
    } else {
        None
    }
}

// --- what is seen of it -----------------------------------------------------------------

/// The colours of the upper and the lower half of a cell, as a reader sees them. The
/// default colour is that of the terminal behind the picture.
pub open spec fn halves(g: Glyph) -> (Color, Color) {
    if g.symbol == '\u{2580}' {
        (g.style.fg, g.style.bg)
    } else if g.symbol == '\u{2584}' {
        (g.style.bg, g.style.fg)
    } else {
        (g.style.bg, g.style.bg)
    }
}

/// The colour that a reader is to see at a point: that of the picture, as far as the
/// terminal has it, and the terminal's own where the picture is transparent or ends.
pub open spec fn colour_in(p: PictureV, depth: ColorDepth, x: int, y: int) -> Color {
    let i = 4 * (y * p.width + x);
    if y < p.height && p.pixels[i + 3] >= 128 {
        faded_color(depth, Color::Rgb(Rgb(p.pixels[i], p.pixels[i + 1], p.pixels[i + 2])))
    } else {
        Color::Default
    }
}

/// True of a cell that shows two points of a picture, one above the other.
pub open spec fn shows_points(p: PictureV, depth: ColorDepth, g: Glyph, x: int, y: int) -> bool {
    &&& halves(g) == (colour_in(p, depth, x, 2 * y), colour_in(p, depth, x, 2 * y + 1))
    &&& !g.style.reverse
    &&& g.symbol != '\r' && g.symbol != '\n'
}

/// How far apart the rows of a picture are among what is shown.
pub open spec fn stride(p: PictureV, indent: nat) -> int {
    p.width + 2 + indent
}

/// True of glyphs that show the first `k` rows of a picture: each cell where it belongs,
/// and between two rows the way to the next.
spec fn rows_shown(p: PictureV, indent: nat, depth: ColorDepth, gs: Seq<Glyph>, k: int) -> bool {
    let step = stride(p, indent);
    &&& k > 0 ==> gs.len() == k * step - 2 - indent
    &&& k <= 0 ==> gs.len() == 0
    &&& forall|r: int, c: int|
        #![trigger shows_points(p, depth, gs[r * step + c], c, r)]
        0 <= r < k && 0 <= c < p.width ==> shows_points(p, depth, gs[r * step + c], c, r)
    &&& forall|r: int|
        #![trigger gs[r * step - 2 - indent]]
        1 <= r < k ==> gs[r * step - 2 - indent].symbol == '\r' && gs[r * step - 1 - indent].symbol
            == '\n'
    &&& forall|r: int, j: int|
        #![trigger gs[r * step - indent + j]]
        1 <= r < k && 0 <= j < indent ==> gs[r * step - indent + j] == styled(' ', plain_style())
}

/// True of a brush whose text shows some glyphs, and goes on in its own style.
spec fn draws(b: BrushV, depth: ColorDepth, gs: Seq<Glyph>) -> bool {
    &&& b.writer.depth == depth
    &&& !b.writer.italic_as_underline
    &&& forall|rest: Seq<char>|
        #![trigger displayed(b.out + rest, plain_style())]
        displayed(b.out + rest, plain_style()) == gs + displayed(
            rest,
            faded(depth, b.writer.current),
        )
}

proof fn lemma_draws_cell(b: BrushV, depth: ColorDepth, gs: Seq<Glyph>, symbol: char, style: Style)
    requires
        draws(b, depth, gs),
        symbol != '\x1b',
        !style.italic,
        !(style.fg is Indexed),
        !(style.bg is Indexed),
    ensures
        draws(
            BrushV {
                writer: b.writer.moved(style),
                out: b.out + b.writer.written(style) + seq![symbol],
            },
            depth,
            gs.push(styled(symbol, faded(depth, style))),
        ),
{
    let after = BrushV {
        writer: b.writer.moved(style),
        out: b.out + b.writer.written(style) + seq![symbol],
    };
    let cell = styled(symbol, faded(depth, style));
    assert(faded(depth, b.writer.normal(style)) == faded(depth, style));
    assert forall|rest: Seq<char>| #![trigger displayed(after.out + rest, plain_style())]
        displayed(after.out + rest, plain_style()) == gs.push(cell) + displayed(
        rest,
        faded(depth, after.writer.current),
    ) by {
        let tail = seq![symbol] + rest;
        let more = b.writer.written(style) + tail;
        assert(after.out + rest =~= b.out + more);
        assert(displayed(b.out + more, plain_style()) == gs + displayed(
            more,
            faded(depth, b.writer.current),
        ));
        transitions_are_shown(b.writer, style, tail);
        assert(!seq![symbol].contains('\x1b'));
        plain_text_is_shown(seq![symbol], rest, faded(depth, style));
        lemma_in_style(seq![symbol], faded(depth, style));
        assert(in_style(seq![symbol], faded(depth, style)) =~= seq![cell]);
        assert(gs + (seq![cell] + displayed(rest, faded(depth, style))) =~= gs.push(cell)
            + displayed(rest, faded(depth, style)));
    }
}

proof fn lemma_row_drawn(
    p: PictureV,
    row: int,
    x: int,
    b: BrushV,
    depth: ColorDepth,
    gs: Seq<Glyph>,
) -> (all: Seq<Glyph>)
    requires
        draws(b, depth, gs),
        0 <= x <= p.width,
        0 <= row,
    ensures
        draws(row_painted(p, row, x, b), depth, all),
        all.len() == gs.len() + x,
        forall|i: int| 0 <= i < gs.len() ==> all[i] == gs[i],
        forall|c: int|
            #![trigger all[gs.len() + c]]
            0 <= c < x ==> shows_points(p, depth, all[gs.len() + c], c, row),
    decreases x,
{
    if x <= 0 {
        gs
    } else {
        let before = lemma_row_drawn(p, row, x - 1, b, depth, gs);
        let top = pixel_at(p, x - 1, row * 2);
        let bottom = pixel_at(p, x - 1, row * 2 + 1);
        let (symbol, style) = cell_of(top, bottom);
        reveal_strlit("\u{2580}");
        reveal_strlit("\u{2584}");
        reveal_strlit(" ");
        assert(symbol =~= seq![symbol[0]]);
        lemma_draws_cell(row_painted(p, row, x - 1, b), depth, before, symbol[0], style);
        let all = before.push(styled(symbol[0], faded(depth, style)));
        assert(row * 2 == 2 * row);
        assert forall|c: int| #![trigger all[gs.len() + c]] 0 <= c < x implies shows_points(
            p,
            depth,
            all[gs.len() + c],
            c,
            row,
        ) by {
            if c < x - 1 {
                assert(all[gs.len() + c] == before[gs.len() + c]);
            }
        }
        all
    }
}

proof fn lemma_row_start(b: BrushV, indent: nat, depth: ColorDepth, gs: Seq<Glyph>)
    requires
        draws(b, depth, gs),
    ensures
        draws(
            BrushV {
                writer: b.writer.at_rest(),
                out: b.out + b.writer.reset_text() + "\r\n"@ + text::spaces(indent),
            },
            depth,
            gs + in_style("\r\n"@ + text::spaces(indent), plain_style()),
        ),
{
    let between = "\r\n"@ + text::spaces(indent);
    let after = BrushV {
        writer: b.writer.at_rest(),
        out: b.out + b.writer.reset_text() + "\r\n"@ + text::spaces(indent),
    };
    reveal_strlit("\r\n");
    assert(!between.contains('\x1b'));
    assert(faded(depth, plain_style()) == plain_style());
    let cells = in_style(between, plain_style());
    assert forall|rest: Seq<char>| #![trigger displayed(after.out + rest, plain_style())]
        displayed(after.out + rest, plain_style()) == (gs + cells) + displayed(
        rest,
        faded(depth, after.writer.current),
    ) by {
        let tail = between + rest;
        let more = b.writer.reset_text() + tail;
        assert(after.out + rest =~= b.out + more);
        assert(displayed(b.out + more, plain_style()) == gs + displayed(
            more,
            faded(depth, b.writer.current),
        ));
        resets_are_shown(b.writer, tail);
        plain_text_is_shown(between, rest, plain_style());
        assert(gs + (cells + displayed(rest, plain_style())) =~= (gs + cells) + displayed(
            rest,
            plain_style(),
        ));
    }
}

proof fn lemma_rows_drawn(
    p: PictureV,
    k: int,
    indent: nat,
    b: BrushV,
    depth: ColorDepth,
) -> (all: Seq<Glyph>)
    requires
        draws(b, depth, Seq::empty()),
        0 <= k,
    ensures
        draws(rows_painted(p, k, indent, b), depth, all),
        rows_shown(p, indent, depth, all, k),
    decreases k,
{
    let step = stride(p, indent);
    if k <= 0 {
        Seq::empty()
    } else {
        let before = lemma_rows_drawn(p, k - 1, indent, b, depth);
        let painted = rows_painted(p, k - 1, indent, b);
        if k == 1 {
            let all = lemma_row_drawn(p, 0, p.width as int, painted, depth, before);
            assert forall|r: int, c: int|
                #![trigger shows_points(p, depth, all[r * step + c], c, r)]
                0 <= r < k && 0 <= c < p.width implies shows_points(
                p,
                depth,
                all[r * step + c],
                c,
                r,
            ) by {
                assert(r * step == 0) by (nonlinear_arith)
                    requires
                        r == 0,
                ;
                assert(all[before.len() + c] == all[r * step + c]);
            }
            assert(k * step == step) by (nonlinear_arith)
                requires
                    k == 1,
            ;
            all
        } else {
            lemma_row_start(painted, indent, depth, before);
            let between = "\r\n"@ + text::spaces(indent);
            let start = BrushV {
                writer: painted.writer.at_rest(),
                out: painted.out + painted.writer.reset_text() + "\r\n"@ + text::spaces(indent),
            };
            let begun = before + in_style(between, plain_style());
            reveal_strlit("\r\n");
            lemma_in_style(between, plain_style());
            let all = lemma_row_drawn(p, k - 1, p.width as int, start, depth, begun);
            assert((k - 1) * step == k * step - step) by (nonlinear_arith);
            assert(begun.len() == (k - 1) * step);
            assert forall|r: int, c: int|
                #![trigger shows_points(p, depth, all[r * step + c], c, r)]
                0 <= r < k && 0 <= c < p.width implies shows_points(
                p,
                depth,
                all[r * step + c],
                c,
                r,
            ) by {
                if r < k - 1 {
                    assert(0 <= r * step && r * step + step <= (k - 1) * step) by (nonlinear_arith)
                        requires
                            0 <= r < k - 1,
                            0 <= step,
                    ;
                    assert(all[r * step + c] == before[r * step + c]);
                    assert(shows_points(p, depth, before[r * step + c], c, r));
                } else {
                    assert(r * step + c == begun.len() + c);
                    assert(shows_points(p, depth, all[begun.len() + c], c, k - 1));
                }
            }
            assert forall|r: int| #![trigger all[r * step - 2 - indent]] 1 <= r < k implies all[r
                * step - 2 - indent].symbol == '\r' && all[r * step - 1 - indent].symbol
                == '\n' by {
                assert(step <= r * step && r * step <= (k - 1) * step) by (nonlinear_arith)
                    requires
                        1 <= r <= k - 1,
                        0 <= step,
                ;
                if r < k - 1 {
                    assert(r * step + step <= (k - 1) * step) by (nonlinear_arith)
                        requires
                            r < k - 1,
                            0 <= step,
                    ;
                    assert(all[r * step - 2 - indent] == before[r * step - 2 - indent]);
                    assert(all[r * step - 1 - indent] == before[r * step - 1 - indent]);
                } else {
                    assert(all[r * step - 2 - indent] == begun[before.len() as int]);
                    assert(all[r * step - 1 - indent] == begun[before.len() as int + 1]);
                    assert(begun[before.len() as int] == in_style(between, plain_style())[0]);
                    assert(begun[before.len() as int + 1] == in_style(between, plain_style())[1]);
                }
            }
            assert forall|r: int, j: int| #![trigger all[r * step - indent + j]]
                1 <= r < k && 0 <= j < indent implies all[r * step - indent + j] == styled(
                ' ',
                plain_style(),
            ) by {
                assert(step <= r * step && r * step <= (k - 1) * step) by (nonlinear_arith)
                    requires
                        1 <= r <= k - 1,
                        0 <= step,
                ;
                if r < k - 1 {
                    assert(r * step + step <= (k - 1) * step) by (nonlinear_arith)
                        requires
                            r < k - 1,
                            0 <= step,
                    ;
                    assert(all[r * step - indent + j] == before[r * step - indent + j]);
                } else {
                    assert(all[r * step - indent + j] == begun[before.len() + 2 + j]);
                    assert(begun[before.len() + 2 + j] == in_style(between, plain_style())[2 + j]);
                }
            }
            all
        }
    }
}

/// Where the cells of a row land.
proof fn lemma_landing(
    p: PictureV,
    indent: nat,
    depth: ColorDepth,
    gs: Seq<Glyph>,
    k: int,
    r: int,
    c: int,
)
    requires
        rows_shown(p, indent, depth, gs, k),
        0 <= r < k,
        0 <= c <= p.width,
    ensures
        column_at(gs, r * stride(p, indent) + c, indent as int) == indent + c,
        row_at(gs, r * stride(p, indent) + c) == r,
    decreases r, c,
{
    let step = stride(p, indent);
    assert(0 <= r * step) by (nonlinear_arith)
        requires
            0 <= r,
            0 <= step,
    ;
    let i = r * step + c;
    if c > 0 {
        lemma_landing(p, indent, depth, gs, k, r, c - 1);
        assert(shows_points(p, depth, gs[r * step + (c - 1)], c - 1, r));
    } else if r > 0 {
        lemma_landing(p, indent, depth, gs, k, r - 1, p.width as int);
        assert((r - 1) * step + step == r * step) by (nonlinear_arith);
        let at = r * step - 2 - indent;
        assert(gs[at].symbol == '\r' && gs[at + 1].symbol == '\n');
        assert(column_at(gs, at + 1, indent as int) == 0);
        assert(column_at(gs, at + 2, indent as int) == 0);
        assert(row_at(gs, at + 1) == r - 1);
        assert(row_at(gs, at + 2) == r);
        lemma_landing_blanks(p, indent, depth, gs, k, r, indent as int);
    } else {
        assert(r * step == 0) by (nonlinear_arith)
            requires
                r == 0,
        ;
    }
}

proof fn lemma_landing_blanks(
    p: PictureV,
    indent: nat,
    depth: ColorDepth,
    gs: Seq<Glyph>,
    k: int,
    r: int,
    j: int,
)
    requires
        rows_shown(p, indent, depth, gs, k),
        1 <= r < k,
        0 <= j <= indent,
        r * stride(p, indent) - indent >= 0,
        column_at(gs, r * stride(p, indent) - indent, indent as int) == 0,
        row_at(gs, r * stride(p, indent) - indent) == r,
    ensures
        column_at(gs, r * stride(p, indent) - indent + j, indent as int) == j,
        row_at(gs, r * stride(p, indent) - indent + j) == r,
    decreases j,
{
    if j > 0 {
        lemma_landing_blanks(p, indent, depth, gs, k, r, j - 1);
        let step = stride(p, indent);
        assert(gs[r * step - indent + (j - 1)] == styled(' ', plain_style()));
    }
}

/// The picture is seen where it was. A terminal that starts in the column of the indent
/// puts the cell for column `c` and row `r` into that column and row of the picture's
/// place; its upper half has the colour of the point `(c, 2r)` and its lower half that
/// of the one below, and where the picture is transparent the terminal shows through.
/// Nothing else is seen, and what follows is in no style.
pub proof fn the_picture_is_seen(p: PictureV, indent: nat, depth: ColorDepth, rest: Seq<char>)
    requires
        p.wf(),
        p.width > 0,
        p.height > 0,
    ensures
        ({
            let gs = displayed(blocks_text(p, indent, depth), plain_style());
            let rows = (p.height + 1) / 2;
            let step = stride(p, indent);
            &&& gs.len() == rows * step - 2 - indent
            &&& displayed(blocks_text(p, indent, depth) + rest, plain_style()) == gs + displayed(
                rest,
                plain_style(),
            )
            &&& forall|r: int, c: int|
                #![trigger gs[r * step + c]]
                0 <= r < rows && 0 <= c < p.width ==> {
                    &&& halves(gs[r * step + c]) == (
                        colour_in(p, depth, c, 2 * r),
                        colour_in(p, depth, c, 2 * r + 1),
                    )
                    &&& !gs[r * step + c].style.reverse
                    &&& column_at(gs, r * step + c, indent as int) == indent + c
                    &&& row_at(gs, r * step + c) == r
                }
            &&& forall|r: int, j: int|
                #![trigger gs[r * step - indent + j]]
                1 <= r < rows && 0 <= j < indent ==> gs[r * step - indent + j] == styled(
                    ' ',
                    plain_style(),
                )
        }),
{
    let rows = (p.height + 1) / 2;
    let step = stride(p, indent);
    let start = BrushV {
        writer: StyleWriter { depth, current: plain_style(), italic_as_underline: false },
        out: Seq::empty(),
    };
    assert(faded(depth, plain_style()) == plain_style());
    assert forall|rest: Seq<char>| #![trigger displayed(start.out + rest, plain_style())]
        displayed(start.out + rest, plain_style()) == Seq::<Glyph>::empty() + displayed(
        rest,
        faded(depth, start.writer.current),
    ) by {
        assert(start.out + rest =~= rest);
        assert(Seq::<Glyph>::empty() + displayed(rest, plain_style()) =~= displayed(
            rest,
            plain_style(),
        ));
    }
    let gs = lemma_rows_drawn(p, rows, indent, start, depth);
    let b = rows_painted(p, rows, indent, start);
    let t = blocks_text(p, indent, depth);
    let nothing = Seq::<char>::empty();
    assert(t == b.out + b.writer.reset_text());
    assert(t + rest =~= b.out + (b.writer.reset_text() + rest));
    assert(displayed(b.out + (b.writer.reset_text() + rest), plain_style()) == gs + displayed(
        b.writer.reset_text() + rest,
        faded(depth, b.writer.current),
    ));
    resets_are_shown(b.writer, rest);
    assert(t =~= b.out + (b.writer.reset_text() + nothing));
    assert(displayed(b.out + (b.writer.reset_text() + nothing), plain_style()) == gs + displayed(
        b.writer.reset_text() + nothing,
        faded(depth, b.writer.current),
    ));
    resets_are_shown(b.writer, nothing);
    assert(displayed(nothing, plain_style()) =~= Seq::<Glyph>::empty());
    assert(displayed(t, plain_style()) =~= gs);
    assert forall|r: int, c: int| #![trigger gs[r * step + c]]
        0 <= r < rows && 0 <= c < p.width implies {
        &&& halves(gs[r * step + c]) == (
            colour_in(p, depth, c, 2 * r),
            colour_in(p, depth, c, 2 * r + 1),
        )
        &&& !gs[r * step + c].style.reverse
        &&& column_at(gs, r * step + c, indent as int) == indent + c
        &&& row_at(gs, r * step + c) == r
    } by {
        assert(shows_points(p, depth, gs[r * step + c], c, r));
        lemma_landing(p, indent, depth, gs, rows, r, c);
    }
}

} // verus!
