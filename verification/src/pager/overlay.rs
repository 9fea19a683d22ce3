//! Overlay panels: the table of contents, the link list, and help.
//!
//! One panel implementation serves all three. It is a centred, bordered box with a
//! title and a scrolling list, drawn over whatever is already on screen.
use vstd::prelude::*;

use crate::render::glyphs::Glyphs;
use crate::render::inline::{display_width, pad_to, padded, text_width, truncate, truncated};
use crate::render::sat;
use crate::term::style::{Style, StyleWriter};
use crate::text;
use crate::theme::Theme;

verus! {

/// One row in a panel.
#[derive(Debug)]
pub struct Item {
    pub text: String,
    /// Right-hand column, used by the help panel for descriptions.
    pub detail: String,
}

pub struct ItemV {
    pub text: Seq<char>,
    pub detail: Seq<char>,
}

impl View for Item {
    type V = ItemV;

    open spec fn view(&self) -> ItemV {
        ItemV { text: self.text@, detail: self.detail@ }
    }
}

pub open spec fn items_view(v: Seq<Item>) -> Seq<ItemV> {
    Seq::new(v.len(), |k: int| v[k]@)
}

/// Everything needed to draw a panel.
pub struct Panel<'a> {
    pub title: &'a str,
    pub items: &'a Vec<Item>,
    pub selection: usize,
    pub cols: u16,
    pub rows: u16,
    pub theme: &'a Theme,
    pub glyphs: Glyphs,
}

pub struct PanelV {
    pub title: Seq<char>,
    pub items: Seq<ItemV>,
    pub selection: int,
    pub cols: int,
    pub rows: int,
    pub theme: Theme,
    pub glyphs: Glyphs,
}

impl<'a> View for Panel<'a> {
    type V = PanelV;

    open spec fn view(&self) -> PanelV {
        PanelV {
            title: self.title@,
            items: items_view(self.items@),
            selection: self.selection as int,
            cols: self.cols as int,
            rows: self.rows as int,
            theme: *self.theme,
            glyphs: self.glyphs,
        }
    }
}

/// The keys the help panel lists, and what they do.
pub open spec fn help_entries() -> Seq<(Seq<char>, Seq<char>)> {
    seq![
        ("j / k / arrows"@, "scroll a line"@),
        ("space / b"@, "scroll a page"@),
        ("d / u"@, "scroll half a page"@),
        ("g / G"@, "go to the start or end"@),
        ("h / l"@, "scroll sideways"@),
        ("0"@, "back to the left edge"@),
        ("/"@, "search forwards"@),
        ("? "@, "search backwards"@),
        ("n / N"@, "next or previous match"@),
        ("t"@, "table of contents"@),
        ("L"@, "links"@),
        ("backspace"@, "back to the previous document"@),
        ("m"@, "give termmd the mouse, or give it back"@),
        ("drag"@, "select text (the terminal's own selection)"@),
        ("i"@, "toggle images"@),
        ("r"@, "reload"@),
        ("H / F1"@, "this help"@),
        ("q / esc"@, "quit"@),
    ]
}

/// The keys the help panel lists, and what they do.
pub fn help() -> (r: [(&'static str, &'static str); 18])
    ensures
        forall|k: int| 0 <= k < 18 ==> ((#[trigger] r@[k]).0@, r@[k].1@) == help_entries()[k],
{
    [
        ("j / k / arrows", "scroll a line"),
        ("space / b", "scroll a page"),
        ("d / u", "scroll half a page"),
        ("g / G", "go to the start or end"),
        ("h / l", "scroll sideways"),
        ("0", "back to the left edge"),
        ("/", "search forwards"),
        ("? ", "search backwards"),
        ("n / N", "next or previous match"),
        ("t", "table of contents"),
        ("L", "links"),
        ("backspace", "back to the previous document"),
        ("m", "give termmd the mouse, or give it back"),
        ("drag", "select text (the terminal's own selection)"),
        ("i", "toggle images"),
        ("r", "reload"),
        ("H / F1", "this help"),
        ("q / esc", "quit"),
    ]
}

// --- the shape of the box -------------------------------------------------------------

/// `a - b`, or nothing.
pub open spec fn less(a: int, b: int) -> int {
    if a > b {
        a - b
    } else {
        0
    }
}

pub open spec fn larger(a: int, b: int) -> int {
    if a > b {
        a
    } else {
        b
    }
}

pub open spec fn smaller(a: int, b: int) -> int {
    if a < b {
        a
    } else {
        b
    }
}

/// The columns a row wants.
pub open spec fn item_width(i: ItemV) -> int {
    sat(
        text_width(i.text) + (if i.detail.len() == 0 {
            0
        } else {
            sat(text_width(i.detail) + 3)
        }),
    )
}

/// The columns the widest of the first `k` rows wants.
pub open spec fn widest(items: Seq<ItemV>, k: int) -> int
    decreases k,
{
    if k <= 0 {
        0
    } else {
        larger(widest(items, k - 1), item_width(items[k - 1]))
    }
}

/// The columns inside the box: as many as the content wants, within what the screen can
/// hold.
pub open spec fn inner_width(p: PanelV) -> int {
    let want = larger(
        widest(p.items, p.items.len() as int),
        sat(text_width(p.title) + 2),
    );
    larger(16, smaller(want, larger(less(p.cols, 6), 16)))
}

/// The rows inside the box.
pub open spec fn visible_rows(p: PanelV) -> int {
    larger(1, smaller(p.items.len() as int, larger(less(p.rows, 6), 3)))
}

/// The column of the box's left edge.
pub open spec fn left_of(p: PanelV) -> int {
    less(p.cols, inner_width(p) + 4) / 2
}

/// The row of the box's top edge.
pub open spec fn top_of(p: PanelV) -> int {
    less(p.rows, visible_rows(p) + 2) / 2
}

/// The first item shown, so that the selection stays on screen.
pub open spec fn first_shown(p: PanelV) -> int {
    smaller(
        less(p.selection, visible_rows(p) - 1),
        less(p.items.len() as int, visible_rows(p)),
    )
}

/// The selection, where there is one, is among the rows that are shown.
pub proof fn the_selection_is_shown(p: PanelV)
    requires
        0 <= p.selection < p.items.len(),
    ensures
        first_shown(p) <= p.selection < first_shown(p) + visible_rows(p),
        0 <= first_shown(p),
        first_shown(p) + visible_rows(p) <= p.items.len(),
{
}

/// The box lies on a screen that is large enough for one.
pub proof fn the_box_fits(p: PanelV)
    requires
        p.cols >= 22,
        p.rows >= 9,
    ensures
        left_of(p) + inner_width(p) + 4 <= p.cols,
        top_of(p) + visible_rows(p) + 2 <= p.rows,
{
}

// --- drawing ---------------------------------------------------------------------------

/// A writer and what has been written.
pub struct PaintV {
    pub writer: StyleWriter,
    pub out: Seq<char>,
}

/// Text in a style.
pub open spec fn painted(p: PaintV, style: Style, s: Seq<char>) -> PaintV {
    PaintV { writer: p.writer.moved(style), out: p.out + p.writer.written(style) + s }
}

/// The sequence that moves the cursor; rows and columns count from 0.
pub open spec fn place_text(row: int, col: int) -> Seq<char> {
    "\x1b["@ + text::decimal((row + 1) as nat) + ";"@ + text::decimal((col + 1) as nat) + "H"@
}

/// The cursor moved.
pub open spec fn placed(p: PaintV, row: int, col: int) -> PaintV {
    PaintV { out: p.out + place_text(row, col), ..p }
}

/// The style of the border.
pub open spec fn border_style(p: PanelV) -> Style {
    p.theme.panel.merged(p.theme.table_border)
}

/// The top edge, with the title set into it.
pub open spec fn top_edge(p: PanelV) -> Seq<char> {
    let title = " "@ + p.title + " "@;
    let filled = inner_width(p) + 2;
    p.glyphs.top_left@ + title + text::repeated(
        p.glyphs.h@,
        (filled - smaller(text_width(title) as int, filled)) as nat,
    ) + p.glyphs.top_right@
}

pub open spec fn bottom_edge(p: PanelV) -> Seq<char> {
    p.glyphs.bottom_left@ + text::repeated(p.glyphs.h@, (inner_width(p) + 2) as nat)
        + p.glyphs.bottom_right@
}

/// The text of an item: in two columns where it has a detail.
pub open spec fn item_text(i: ItemV, inner: int, ellipsis: Seq<char>) -> Seq<char> {
    if i.detail.len() == 0 {
        truncated(i.text, inner, ellipsis)
    } else {
        let keys = inner / 3;
        padded(truncated(i.text, keys, ellipsis), keys) + "  "@ + truncated(
            i.detail,
            inner - keys - 2,
            ellipsis,
        )
    }
}

/// What is between the borders of one row, and its style.
pub open spec fn row_content(p: PanelV, index: int) -> (Style, Seq<char>) {
    if index < p.items.len() {
        let selected = index == p.selection;
        (
            if selected {
                p.theme.search_current
            } else {
                p.theme.panel.merged(p.theme.text)
            },
            (if selected {
                ">"@
            } else {
                " "@
            }) + padded(
                item_text(p.items[index], inner_width(p), p.glyphs.ellipsis@),
                inner_width(p),
            ) + " "@,
        )
    } else {
        (p.theme.panel, text::spaces((inner_width(p) + 2) as nat))
    }
}

/// The first `k` rows of the list. Every cell carries the panel's background, so that
/// the panel is opaque over whatever is beneath it -- an image too.
pub open spec fn rows_drawn(p: PanelV, k: int, start: PaintV) -> PaintV
    decreases k,
{
    if k <= 0 {
        start
    } else {
        let before = rows_drawn(p, k - 1, start);
        let (style, content) = row_content(p, first_shown(p) + k - 1);
        let at = placed(before, top_of(p) + k, left_of(p));
        let left = painted(at, border_style(p), p.glyphs.v@);
        painted(painted(left, style, content), border_style(p), p.glyphs.v@)
    }
}

/// The panel.
pub open spec fn drawn(p: PanelV, start: PaintV) -> PaintV {
    let top = painted(placed(start, top_of(p), left_of(p)), border_style(p), top_edge(p));
    let rows = rows_drawn(p, visible_rows(p), top);
    let bottom = painted(
        placed(rows, top_of(p) + visible_rows(p) + 1, left_of(p)),
        border_style(p),
        bottom_edge(p),
    );
    PaintV { writer: bottom.writer.at_rest(), out: bottom.out + bottom.writer.reset_text() }
}

fn paint(out: &mut String, writer: &mut StyleWriter, style: Style, s: &str)
    ensures
        (PaintV { writer: *final(writer), out: final(out)@ }) == painted(
            (PaintV { writer: *old(writer), out: old(out)@ }),
            style,
            s@,
        ),
{
    writer.transition(style, out);
    out.push_str(s);
}

/// Moves the cursor; rows and columns count from 0.
pub fn place(out: &mut String, row: usize, col: usize)
    requires
        row < 0xffff_ffff,
        col < 0xffff_ffff,
    ensures
        final(out)@ == old(out)@ + place_text(row as int, col as int),
{
    let ghost before = out@;
    out.push_str("\x1b[");
    text::push_decimal(out, row as u64 + 1);
    out.push_str(";");
    text::push_decimal(out, col as u64 + 1);
    out.push_str("H");
    assert(out@ =~= before + place_text(row as int, col as int));
}

fn width_wanted(p: &Panel) -> (r: usize)
    ensures
        r == inner_width(p@),
        16 <= r,
        r <= 65535,
{
    let ghost v = p@.items;
    let mut most: usize = 0;
    for i in 0..p.items.len()
        invariant
            v == p@.items,
            v.len() == p.items.len(),
            most == widest(v, i as int),
    {
        let item = &p.items[i];
        assert(v[i as int] == item@);
        let w = display_width(&item.text);
        let w = if item.detail.as_str().is_empty() {
            w
        } else {
            w.saturating_add(display_width(&item.detail).saturating_add(3))
        };
        if w > most {
            most = w;
        }
    }
    let title = display_width(p.title).saturating_add(2);
    let want: usize = if most > title {
        most
    } else {
        title
    };
    let cap: usize = if p.cols as usize > 22 {
        p.cols as usize - 6
    } else {
        16
    };
    let want: usize = if want < cap {
        want
    } else {
        cap
    };
    if want < 16 {
        16
    } else {
        want
    }
}

fn rows_visible(p: &Panel) -> (r: usize)
    ensures
        r == visible_rows(p@),
        1 <= r <= 65535,
{
    let cap: usize = if p.rows as usize > 9 {
        p.rows as usize - 6
    } else {
        3
    };
    let n: usize = if p.items.len() < cap {
        p.items.len()
    } else {
        cap
    };
    if n < 1 {
        1
    } else {
        n
    }
}

fn content(p: &Panel, index: usize, inner: usize) -> (r: (Style, String))
    requires
        inner == inner_width(p@),
        16 <= inner <= 65535,
    ensures
        (r.0, r.1@) == row_content(p@, index as int),
{
    if index < p.items.len() {
        let item = &p.items[index];
        assert(p@.items[index as int] == item@);
        let selected = index == p.selection;
        let line = if item.detail.as_str().is_empty() {
            truncate(&item.text, inner, p.glyphs.ellipsis)
        } else {
            // Two columns: keys on the left, description on the right.
            let keys: usize = inner / 3;
            let mut s = pad_to(&truncate(&item.text, keys, p.glyphs.ellipsis), keys);
            s.push_str("  ");
            s.push_str(&truncate(&item.detail, inner - keys - 2, p.glyphs.ellipsis));
            s
        };
        let mut s = text::owned(
            if selected {
                ">"
            } else {
                " "
            },
        );
        s.push_str(&pad_to(&line, inner));
        s.push_str(" ");
        let style = if selected {
            p.theme.search_current
        } else {
            p.theme.panel.merge(p.theme.text)
        };
        (style, s)
    } else {
        (p.theme.panel, text::spaces_string(inner + 2))
    }
}

fn edge_title(p: &Panel, inner: usize) -> (r: String)
    requires
        inner == inner_width(p@),
        inner <= 65535,
    ensures
        r@ == top_edge(p@),
{
    let mut title = text::owned(" ");
    title.push_str(p.title);
    title.push_str(" ");
    let filled: usize = inner + 2;
    let w = display_width(&title);
    let after: usize = if w < filled {
        filled - w
    } else {
        0
    };
    let mut s = text::owned(p.glyphs.top_left);
    s.push_str(&title);
    text::push_repeated(&mut s, p.glyphs.h, after);
    s.push_str(p.glyphs.top_right);
    s
}

/// Draws the panel into `out`.
pub fn draw(out: &mut String, writer: &mut StyleWriter, panel: &Panel)
    ensures
        (PaintV { writer: *final(writer), out: final(out)@ }) == drawn(
            panel@,
            (PaintV { writer: *old(writer), out: old(out)@ }),
        ),
{
    let ghost p = panel@;
    let inner = width_wanted(panel);
    let visible = rows_visible(panel);
    let cols: usize = panel.cols as usize;
    let rows: usize = panel.rows as usize;
    let left: usize = cols.saturating_sub(inner + 4) / 2;
    let top: usize = rows.saturating_sub(visible + 2) / 2;
    let last: usize = panel.items.len().saturating_sub(visible);
    let wanted: usize = panel.selection.saturating_sub(visible - 1);
    let start: usize = if wanted < last {
        wanted
    } else {
        last
    };
    let border = panel.theme.panel.merge(panel.theme.table_border);
    place(out, top, left);
    let edge = edge_title(panel, inner);
    paint(out, writer, border, &edge);
    let ghost begun = PaintV { writer: *writer, out: out@ };
    for k in 0..visible
        invariant
            p == panel@,
            inner == inner_width(p),
            16 <= inner <= 65535,
            visible == visible_rows(p),
            visible <= 65535,
            left == left_of(p),
            left <= 65535,
            top == top_of(p),
            top <= 65535,
            start == first_shown(p),
            start <= panel.items.len(),
            start + visible <= panel.items.len() || start == 0,
            border == border_style(p),
            (PaintV { writer: *writer, out: out@ }) == rows_drawn(p, k as int, begun),
    {
        place(out, top + k + 1, left);
        paint(out, writer, border, panel.glyphs.v);
        let (style, line) = content(panel, start + k, inner);
        paint(out, writer, style, &line);
        paint(out, writer, border, panel.glyphs.v);
    }
    place(out, top + visible + 1, left);
    let mut edge = text::owned(panel.glyphs.bottom_left);
    text::push_repeated(&mut edge, panel.glyphs.h, inner + 2);
    edge.push_str(panel.glyphs.bottom_right);
    paint(out, writer, border, &edge);
    writer.reset(out);
}

} // verus!
