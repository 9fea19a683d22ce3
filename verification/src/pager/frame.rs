//! Drawing a frame.
//!
//! Images are the one part that cannot be handled by slicing lines, because an escape
//! sequence draws a whole picture at once. Each frame therefore positions the cursor
//! and emits the images that intersect the viewport again, cropped to the rows that are
//! visible, so that a picture scrolls off the top edge a row at a time instead of
//! vanishing.
use vstd::prelude::*;

use super::overlay::{
    self, drawn, help, help_entries, items_view, place, place_text, Item, ItemV, PaintV, PanelV,
};
use super::search::{highlight, lit, marked, PenV, SearchV};
use super::window::{at_most, max_top_of, viewport_of, Mode, Panel, Window};
use super::Pager;
use crate::images::kitty;
use crate::render::inline::{display_width, text_width, truncate, truncated};
use crate::render::{
    link_close, rows_shown, sat, sliced, span_written, spans_view, ImagePlacement, ImageProvider,
    ImageRequest, Ink, InkV, LineV, PlacementV, RequestV, Screen, Span, SpanV,
};
use crate::report::depth_of;
use crate::term::caps::GraphicsProtocol;
use crate::term::style::{plain_style, StyleWriter};
use crate::text;

verus! {

// --- the text -------------------------------------------------------------------------

/// One span. Without hyperlinks a link is only its text.
pub open spec fn span_inked(ink: InkV, span: SpanV, links: Seq<Seq<char>>, hyperlinks: bool) -> InkV {
    span_written(
        ink,
        if hyperlinks {
            span
        } else {
            SpanV { link: None, ..span }
        },
        links,
        hyperlinks,
    )
}

/// The first `k` spans.
pub open spec fn spans_inked(
    ink: InkV,
    spans: Seq<SpanV>,
    k: int,
    links: Seq<Seq<char>>,
    hyperlinks: bool,
) -> InkV
    decreases k,
{
    if k <= 0 {
        ink
    } else {
        span_inked(
            spans_inked(ink, spans, k - 1, links, hyperlinks),
            spans[k - 1],
            links,
            hyperlinks,
        )
    }
}

/// A row of text: links do not run on, and neither does style.
pub open spec fn row_inked(
    ink: InkV,
    spans: Seq<SpanV>,
    links: Seq<Seq<char>>,
    hyperlinks: bool,
) -> InkV {
    let s = spans_inked(ink, spans, spans.len() as int, links, hyperlinks);
    InkV {
        writer: s.writer.at_rest(),
        link: None,
        out: (if s.link is Some {
            s.out + link_close()
        } else {
            s.out
        }) + s.writer.reset_text(),
    }
}

/// The part of a line that shows, with the matches of the search on it.
pub open spec fn row_spans(p: Pager, line: int) -> Seq<SpanV> {
    let left = p.window.left as int;
    let cut = sliced(p.screen@.lines[line].spans, left, sat(left + p.window.cols));
    match p@.search {
        Some(s) if s.matches.len() > 0 => lit(
            cut,
            left,
            PenV {
                ranges: marked(s, line),
                normal: p.book.settings.theme.search_match,
                focused: p.book.settings.theme.search_current,
            },
        ),
        _ => cut,
    }
}

/// What starts a row: the cursor goes there and the row is cleared.
pub open spec fn row_start(row: int) -> Seq<char> {
    "\x1b["@ + text::decimal((row + 1) as nat) + ";1H\x1b[K"@
}

/// The first `k` rows of the viewport.
pub open spec fn rows_framed(p: Pager, k: int, start: InkV) -> InkV
    decreases k,
{
    if k <= 0 {
        start
    } else {
        let before = rows_framed(p, k - 1, start);
        let at = InkV { out: before.out + row_start(k - 1), ..before };
        let line = p.window.top + k - 1;
        if line < p.screen@.lines.len() {
            row_inked(at, row_spans(p, line), p.screen@.links, p.book.settings.caps.hyperlinks)
        } else {
            at
        }
    }
}

fn push_row_start(out: &mut String, row: usize)
    requires
        row <= 65535,
    ensures
        final(out)@ == old(out)@ + row_start(row as int),
{
    let ghost before = out@;
    out.push_str("\x1b[");
    text::push_decimal(out, row as u64 + 1);
    out.push_str(";1H\x1b[K");
    assert(out@ =~= before + row_start(row as int));
}

fn ink_row(ink: &mut Ink, spans: &Vec<Span>, links: &Vec<String>, hyperlinks: bool)
    requires
        old(ink)@.link is None,
    ensures
        final(ink)@ == row_inked(old(ink)@, spans_view(spans@), text::views(links@), hyperlinks),
{
    let ghost v = spans_view(spans@);
    let ghost l = text::views(links@);
    let ghost start = ink@;
    for k in 0..spans.len()
        invariant
            v == spans_view(spans@),
            l == text::views(links@),
            start == old(ink)@,
            ink@ == spans_inked(start, v, k as int, l, hyperlinks),
    {
        assert(v[k as int] == spans@[k as int]@);
        if hyperlinks {
            ink.span(&spans[k], links, hyperlinks);
        } else {
            let plain = Span::new(text::owned(&spans[k].text), spans[k].style, None);
            ink.span(&plain, links, hyperlinks);
        }
    }
    if ink.link.is_some() {
        ink.out.push_str("\x1b]8;;\x1b\\");
        ink.link = None;
    }
    ink.writer.reset(&mut ink.out);
}

impl Pager {
    fn row_of(&self, line: usize) -> (r: Vec<Span>)
        requires
            line < self.screen.lines.len(),
        ensures
            spans_view(r@) == row_spans(*self, line as int),
    {
        let left = self.window.left;
        assert(self.screen@.lines[line as int] == self.screen.lines@[line as int]@);
        let spans = self.screen.lines[line].slice_columns(
            left,
            left.saturating_add(self.window.cols as usize),
        );
        match &self.search {
            Some(s) => if s.is_empty() {
                spans
            } else {
                let ranges = s.on_line(line);
                highlight(
                    spans,
                    left,
                    &ranges,
                    self.book.settings.theme.search_match,
                    self.book.settings.theme.search_current,
                )
            },
            None => spans,
        }
    }

    fn draw_rows(&self, ink: &mut Ink, height: usize)
        requires
            height == viewport_of(self.window),
            height <= 65535,
            old(ink)@.link is None,
        ensures
            final(ink)@ == rows_framed(*self, height as int, old(ink)@),
            final(ink)@.link is None,
    {
        let ghost start = ink@;
        let lines: usize = self.screen.lines.len();
        assert(lines == self.screen@.lines.len());
        let top = self.window.top;
        for k in 0..height
            invariant
                height <= 65535,
                start == old(ink)@,
                lines == self.screen.lines.len(),
                lines == self.screen@.lines.len(),
                top == self.window.top,
                ink@ == rows_framed(*self, k as int, start),
                ink@.link is None,
        {
            push_row_start(&mut ink.out, k);
            if top < lines && k < lines - top {
                let spans = self.row_of(top + k);
                ink_row(
                    ink,
                    &spans,
                    &self.screen.links,
                    self.book.settings.caps.hyperlinks,
                );
            }
        }
    }
}

// --- the images -----------------------------------------------------------------------

/// Where an image on a line is drawn, if it is: the row and column on screen, and the
/// request for the part that shows. Horizontal scrolling moves images with the text;
/// once the indent is off screen there is nothing sensible to draw.
pub open spec fn image_request(p: PlacementV, line: int, w: Window, height: int) -> Option<
    (int, int, RequestV),
> {
    let top = w.top as int;
    if p.rows == 0 || line + p.rows <= top || line >= top + height || p.indent < w.left {
        None
    } else {
        let skip_top = overlay::less(top, line);
        let row = overlay::less(line, top);
        let column = p.indent - w.left;
        Some(
            (
                row,
                column,
                RequestV {
                    image: p.image,
                    cols: p.cols,
                    rows: p.rows,
                    skip_top: skip_top as u16,
                    skip_bottom: overlay::less(p.rows - skip_top, height - row) as u16,
                    indent: column as u16,
                },
            ),
        )
    }
}

/// The images on the first `k` lines, and the provider after that.
pub open spec fn images_drawn<P: ImageProvider>(
    lines: Seq<LineV>,
    k: int,
    w: Window,
    height: int,
    images: P,
) -> (Seq<char>, P)
    decreases k,
{
    if k <= 0 {
        (Seq::empty(), images)
    } else {
        let (out, now) = images_drawn(lines, k - 1, w, height, images);
        match lines[k - 1].image {
            None => (out, now),
            Some(p) => match image_request(p, k - 1, w, height) {
                None => (out, now),
                Some((row, column, request)) => (
                    match now.answer(request) {
                        Some(sequence) => out + place_text(row, column) + sequence,
                        None => out,
                    },
                    now.after(request),
                ),
            },
        }
    }
}

/// A picture in the viewport is asked for with at least one row showing, and no more
/// rows than there is space for.
pub proof fn visible_images_fit(p: PlacementV, line: int, w: Window, height: int)
    requires
        0 <= line,
        0 < height <= 65535,
        image_request(p, line, w, height) is Some,
    ensures
        ({
            let (row, column, request) = image_request(p, line, w, height)->0;
            let shown = rows_shown(request.rows, request.skip_top, request.skip_bottom);
            0 < shown && row + shown <= height
        }),
{
}

fn request_of<'a>(p: &'a ImagePlacement, line: usize, w: Window, height: usize) -> (r: Option<
    (usize, usize, ImageRequest<'a>),
>)
    requires
        0 < height <= 65535,
    ensures
        (match r {
            Some((row, column, request)) => Some((row as int, column as int, request@)),
            None => None,
        }) == image_request(p@, line as int, w, height as int),
        r matches Some((row, column, _)) ==> row < height && column <= 65535,
{
    let rows: usize = p.rows as usize;
    let top = w.top;
    if rows == 0 || (p.indent as usize) < w.left {
        return None;
    }
    let column: usize = p.indent as usize - w.left;
    if line < top {
        if top - line >= rows {
            return None;
        }
        let skip_top: usize = top - line;
        Some(
            (
                0,
                column,
                ImageRequest {
                    image: &p.image,
                    cols: p.cols,
                    rows: p.rows,
                    skip_top: skip_top as u16,
                    skip_bottom: (rows - skip_top).saturating_sub(height) as u16,
                    indent: column as u16,
                },
            ),
        )
    } else {
        let row: usize = line - top;
        if row >= height {
            return None;
        }
        Some(
            (
                row,
                column,
                ImageRequest {
                    image: &p.image,
                    cols: p.cols,
                    rows: p.rows,
                    skip_top: 0,
                    skip_bottom: rows.saturating_sub(height - row) as u16,
                    indent: column as u16,
                },
            ),
        )
    }
}

impl Pager {
    /// Draws every image that intersects the viewport, cropped to fit.
    fn draw_images<P: ImageProvider>(&self, height: usize, images: &mut P) -> (r: String)
        requires
            0 < height <= 65535,
        ensures
            (r@, *final(images)) == images_drawn(
                self.screen@.lines,
                self.screen@.lines.len() as int,
                self.window,
                height as int,
                *old(images),
            ),
            final(images).pictures() == old(images).pictures(),
    {
        let ghost v = self.screen@.lines;
        let ghost first = *images;
        let mut out = String::new();
        for k in 0..self.screen.lines.len()
            invariant
                0 < height <= 65535,
                v == self.screen@.lines,
                v.len() == self.screen.lines.len(),
                first == *old(images),
                images.pictures() == first.pictures(),
                (out@, *images) == images_drawn(
                    v,
                    k as int,
                    self.window,
                    height as int,
                    first,
                ),
        {
            assert(v[k as int] == self.screen.lines@[k as int]@);
            match &self.screen.lines[k].image {
                None => {},
                Some(p) => match request_of(p, k, self.window, height) {
                    None => {},
                    Some((row, column, request)) => match images.encode(request) {
                        Some(sequence) => {
                            place(&mut out, row, column);
                            out.push_str(&sequence);
                        },
                        None => {},
                    },
                },
            }
        }
        out
    }

    /// Whether the document has any images.
    pub fn has_images(&self) -> (r: bool)
        ensures
            r == any_image(self.screen@.lines),
    {
        let ghost v = self.screen@.lines;
        for k in 0..self.screen.lines.len()
            invariant
                v == self.screen@.lines,
                v.len() == self.screen.lines.len(),
                forall|j: int| 0 <= j < k ==> (#[trigger] v[j]).image is None,
        {
            assert(v[k as int] == self.screen.lines@[k as int]@);
            if self.screen.lines[k].image.is_some() {
                return true;
            }
        }
        false
    }
}

/// True of lines with an image on one of them.
pub open spec fn any_image(lines: Seq<LineV>) -> bool {
    exists|j: int| 0 <= j < lines.len() && (#[trigger] lines[j]).image is Some
}

// --- the status bar --------------------------------------------------------------------

/// How many matches the search being typed has.
pub open spec fn count_text(search: Option<SearchV>) -> Seq<char> {
    match search {
        None => Seq::empty(),
        Some(s) => if s.matches.len() == 0 && s.query.len() > 0 {
            "  (no matches)"@
        } else if s.matches.len() == 0 {
            Seq::empty()
        } else {
            "  ("@ + text::decimal(s.matches.len()) + " matches)"@
        },
    }
}

/// What the status bar says on the left: the search being typed, else a message, else
/// what is being read.
pub open spec fn status_left(p: Pager) -> Seq<char> {
    match p.window.mode {
        Mode::Searching { backward } => (if backward {
            "?"@
        } else {
            "/"@
        }) + p.input@ + count_text(p@.search),
        _ => match p@.message {
            Some(m) => m,
            None => match p.screen@.title {
                Some(t) => t,
                None => if p.book.sources@.len() > 0 {
                    p.book.sources@[0].name@
                } else {
                    Seq::empty()
                },
            },
        },
    }
}

/// How far through the document the viewport is.
pub open spec fn percent_read(p: Pager) -> int {
    let max = max_top_of(p.window, p.screen);
    if max == 0 {
        100
    } else {
        at_most(p.window.top * 100 / max, 100)
    }
}

/// What the status bar says on the right.
pub open spec fn status_right(p: Pager) -> Seq<char> {
    let lines = p.screen@.lines.len() as int;
    text::decimal(
        at_most(
            p.window.top + 1,
            if lines > 0 {
                lines
            } else {
                1
            },
        ) as nat,
    ) + "/"@ + text::decimal(lines as nat) + "  "@ + text::decimal(percent_read(p) as nat) + "%  "@
        + "H help  q quit"@
}

/// The text of the status bar, cut to the width.
pub open spec fn status_line(p: Pager) -> Seq<char> {
    let left = status_left(p);
    let right = status_right(p);
    let width = p.window.cols as int;
    let gap = overlay::less(width, sat(sat(text_width(left) + text_width(right)) + 2));
    truncated(" "@ + left + text::spaces(gap as nat) + right + " "@, width, "\u{2026}"@)
}

/// The status bar, filled to the edge so that it reads as a bar, not a sentence.
pub open spec fn status_drawn(p: Pager, start: PaintV) -> PaintV {
    let line = status_line(p);
    let fill = overlay::less(p.window.cols as int, text_width(line) as int);
    let bar = overlay::painted(
        PaintV { out: start.out + row_start(viewport_of(p.window)), ..start },
        p.book.settings.theme.status_bar,
        line + text::spaces(fill as nat),
    );
    PaintV { writer: bar.writer.at_rest(), out: bar.out + bar.writer.reset_text() }
}

impl Pager {
    fn left_status(&self) -> (r: String)
        ensures
            r@ == status_left(*self),
    {
        match self.window.mode {
            Mode::Searching { backward } => {
                let mut s = text::owned(
                    if backward {
                        "?"
                    } else {
                        "/"
                    },
                );
                s.push_str(&self.input);
                let ghost typed = s@;
                match &self.search {
                    None => {
                        assert(s@ =~= typed + Seq::<char>::empty());
                    },
                    Some(search) => {
                        if search.len() == 0 {
                            if !search.query.as_str().is_empty() {
                                s.push_str("  (no matches)");
                            } else {
                                assert(s@ =~= typed + Seq::<char>::empty());
                            }
                        } else {
                            s.push_str("  (");
                            text::push_decimal(&mut s, search.len() as u64);
                            s.push_str(" matches)");
                            assert(s@ =~= typed + count_text(self@.search));
                        }
                    },
                }
                s
            },
            _ => match &self.message {
                Some(m) => text::owned(m),
                None => match &self.screen.title {
                    Some(t) => text::owned(t),
                    None => if self.book.sources.len() > 0 {
                        text::owned(&self.book.sources[0].name)
                    } else {
                        String::new()
                    },
                },
            },
        }
    }

    fn right_status(&self) -> (r: String)
        ensures
            r@ == status_right(*self),
    {
        let lines: usize = self.screen.len();
        let most: usize = if lines > 0 {
            lines
        } else {
            1
        };
        let here: u64 = if self.window.top as u64 >= most as u64 {
            most as u64
        } else {
            self.window.top as u64 + 1
        };
        let max = self.max_top();
        let percent: u64 = if max == 0 {
            100
        } else {
            let n: u128 = self.window.top as u128 * 100 / max as u128;
            if n > 100 {
                100
            } else {
                n as u64
            }
        };
        let mut s = String::new();
        text::push_decimal(&mut s, here);
        s.push_str("/");
        text::push_decimal(&mut s, lines as u64);
        s.push_str("  ");
        text::push_decimal(&mut s, percent);
        s.push_str("%  ");
        s.push_str("H help  q quit");
        assert(s@ =~= status_right(*self));
        s
    }

    fn status(&self) -> (r: String)
        ensures
            r@ == status_line(*self),
    {
        let left = self.left_status();
        let right = self.right_status();
        let width: usize = self.window.cols as usize;
        let used = display_width(&left).saturating_add(display_width(&right)).saturating_add(2);
        let mut s = text::owned(" ");
        s.push_str(&left);
        text::push_spaces(&mut s, width.saturating_sub(used));
        s.push_str(&right);
        s.push_str(" ");
        truncate(&s, width, "\u{2026}")
    }

    fn draw_status(&self, out: &mut String, writer: &mut StyleWriter)
        ensures
            (PaintV { writer: *final(writer), out: final(out)@ }) == status_drawn(
                *self,
                (PaintV { writer: *old(writer), out: old(out)@ }),
            ),
    {
        push_row_start(out, self.viewport());
        let mut line = self.status();
        let width: usize = self.window.cols as usize;
        let fill: usize = width.saturating_sub(display_width(&line));
        text::push_spaces(&mut line, fill);
        writer.transition(self.book.settings.theme.status_bar, out);
        out.push_str(&line);
        writer.reset(out);
    }
}

// --- panels ------------------------------------------------------------------------------

/// The title of a panel.
pub open spec fn panel_title(panel: Panel) -> Seq<char> {
    match panel {
        Panel::Contents => "Contents"@,
        Panel::Links => "Links"@,
        Panel::Help => "Keys"@,
    }
}

pub fn title(panel: Panel) -> (r: &'static str)
    ensures
        r@ == panel_title(panel),
{
    match panel {
        Panel::Contents => "Contents",
        Panel::Links => "Links",
        Panel::Help => "Keys",
    }
}

/// The rows of a panel. Headings are indented by level so that the shape of the
/// document shows.
pub open spec fn rows_of_panel(screen: Screen, panel: Panel) -> Seq<ItemV> {
    match panel {
        Panel::Contents => Seq::new(
            screen@.headings.len(),
            |k: int|
                ItemV {
                    text: text::repeated("  "@, depth_of(screen@.headings[k].level))
                        + screen@.headings[k].text,
                    detail: Seq::empty(),
                },
        ),
        Panel::Links => Seq::new(
            screen@.links.len(),
            |k: int| ItemV { text: screen@.links[k], detail: Seq::empty() },
        ),
        Panel::Help => Seq::new(
            18,
            |k: int| ItemV { text: help_entries()[k].0, detail: help_entries()[k].1 },
        ),
    }
}

impl Pager {
    /// The rows of a panel.
    pub fn panel_items(&self, panel: Panel) -> (r: Vec<Item>)
        ensures
            items_view(r@) == rows_of_panel(self.screen, panel),
    {
        let ghost all = rows_of_panel(self.screen, panel);
        let mut out: Vec<Item> = Vec::new();
        match panel {
            Panel::Contents => {
                let ghost v = self.screen@.headings;
                for k in 0..self.screen.headings.len()
                    invariant
                        v == self.screen@.headings,
                        v.len() == self.screen.headings.len(),
                        all == rows_of_panel(self.screen, Panel::Contents),
                        out.len() == k,
                        forall|j: int| 0 <= j < k ==> (#[trigger] out@[j])@ == all[j],
                {
                    let h = &self.screen.headings[k];
                    assert(v[k as int] == h@);
                    let mut s = String::new();
                    text::push_repeated(
                        &mut s,
                        "  ",
                        if h.level == 0 {
                            0
                        } else {
                            (h.level - 1) as usize
                        },
                    );
                    s.push_str(&h.text);
                    assert(s@ =~= text::repeated("  "@, depth_of(h.level)) + h.text@);
                    out.push(Item { text: s, detail: String::new() });
                    assert(out@[k as int]@ == all[k as int]);
                }
            },
            Panel::Links => {
                let ghost v = self.screen@.links;
                for k in 0..self.screen.links.len()
                    invariant
                        v == self.screen@.links,
                        v.len() == self.screen.links.len(),
                        all == rows_of_panel(self.screen, Panel::Links),
                        out.len() == k,
                        forall|j: int| 0 <= j < k ==> (#[trigger] out@[j])@ == all[j],
                {
                    assert(v[k as int] == self.screen.links@[k as int]@);
                    out.push(
                        Item { text: text::owned(&self.screen.links[k]), detail: String::new() },
                    );
                    assert(out@[k as int]@ == all[k as int]);
                }
            },
            Panel::Help => {
                let entries = help();
                for k in 0..18usize
                    invariant
                        forall|j: int|
                            0 <= j < 18 ==> ((#[trigger] entries@[j]).0@, entries@[j].1@)
                                == help_entries()[j],
                        all == rows_of_panel(self.screen, Panel::Help),
                        out.len() == k,
                        forall|j: int| 0 <= j < k ==> (#[trigger] out@[j])@ == all[j],
                {
                    let (keys, description) = entries[k];
                    assert((entries@[k as int].0@, entries@[k as int].1@)
                        == help_entries()[k as int]);
                    out.push(Item { text: text::owned(keys), detail: text::owned(description) });
                    assert(out@[k as int]@ == all[k as int]);
                }
            },
        }
        assert(items_view(out@) =~= all);
        out
    }
}

/// A panel over the document.
pub open spec fn panel_over(p: Pager, panel: Panel) -> PanelV {
    PanelV {
        title: panel_title(panel),
        items: rows_of_panel(p.screen, panel),
        selection: p.window.selection as int,
        cols: p.window.cols as int,
        rows: p.window.rows as int,
        theme: p.book.settings.theme,
        glyphs: p.book.settings.render.glyphs,
    }
}

// --- the frame ---------------------------------------------------------------------------

/// The writer at the start of a frame.
pub open spec fn frame_writer(p: Pager) -> StyleWriter {
    StyleWriter {
        depth: p.book.settings.caps.color,
        current: plain_style(),
        italic_as_underline: p.book.settings.caps.italic_broken,
    }
}

/// What a frame starts with. Old placements must go before the new frame, or they
/// linger on top of whatever scrolled into their place.
pub open spec fn frame_start(p: Pager) -> Seq<char> {
    (if p.book.settings.caps.graphics == GraphicsProtocol::Kitty && p.window.images && any_image(
        p.screen@.lines,
    ) {
        "\x1b_Ga=d,d=A,q=2\x1b\\"@
    } else {
        Seq::empty()
    }) + "\x1b[H"@
}

/// The pictures of a frame, and the provider after them.
pub open spec fn frame_images<P: ImageProvider>(p: Pager, images: P) -> (Seq<char>, P) {
    if p.window.images && any_image(p.screen@.lines) {
        images_drawn(
            p.screen@.lines,
            p.screen@.lines.len() as int,
            p.window,
            viewport_of(p.window),
            images,
        )
    } else {
        (Seq::empty(), images)
    }
}

/// A frame: the text in the viewport, the pictures, the status bar, and the panel that
/// is open.
pub open spec fn framed(p: Pager, pictures: Seq<char>) -> Seq<char> {
    let ink = rows_framed(
        p,
        viewport_of(p.window),
        InkV { writer: frame_writer(p), link: None, out: frame_start(p) },
    );
    let status = status_drawn(p, PaintV { writer: ink.writer, out: ink.out + pictures });
    match p.window.mode {
        Mode::Panel(panel) => drawn(panel_over(p, panel), status).out,
        _ => status.out,
    }
}

impl Pager {
    /// Draws a frame.
    pub fn draw<P: ImageProvider>(&self, images: &mut P) -> (r: String)
        ensures
            r@ == framed(*self, frame_images(*self, *old(images)).0),
            *final(images) == frame_images(*self, *old(images)).1,
            final(images).pictures() == old(images).pictures(),
    {
        let height = self.viewport();
        let settings = &self.book.settings;
        let pictures = self.window.images && self.has_images();
        let mut start = String::new();
        if pictures && settings.caps.graphics == GraphicsProtocol::Kitty {
            start.push_str(kitty::clear_all());
        }
        start.push_str("\x1b[H");
        assert(start@ =~= frame_start(*self));
        let mut ink = Ink {
            writer: StyleWriter::new(settings.caps.color).with_italic_fallback(
                settings.caps.italic_broken,
            ),
            link: None,
            out: start,
        };
        self.draw_rows(&mut ink, height);
        if pictures {
            let drawn = self.draw_images(height, images);
            ink.out.push_str(&drawn);
        } else {
            assert(ink.out@ + Seq::<char>::empty() =~= ink.out@);
        }
        self.draw_status(&mut ink.out, &mut ink.writer);
        match self.window.mode {
            Mode::Panel(panel) => {
                let items = self.panel_items(panel);
                let shown = overlay::Panel {
                    title: title(panel),
                    items: &items,
                    selection: self.window.selection,
                    cols: self.window.cols,
                    rows: self.window.rows,
                    theme: &settings.theme,
                    glyphs: settings.render.glyphs,
                };
                overlay::draw(&mut ink.out, &mut ink.writer, &shown);
            },
            _ => {},
        }
        ink.out
    }
}

} // verus!
