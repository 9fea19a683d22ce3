//! Layout: from a document to positioned, styled lines.
//!
//! The output of this module is a [`Screen`] -- a flat list of lines, each a run of
//! styled spans, plus the metadata the pager needs (heading anchors, link targets,
//! image placements). Nothing here touches a terminal, which is what makes the
//! layout a function of the document.
use vstd::prelude::*;

pub mod blocks;
pub mod code;
pub mod document;
pub mod glyphs;
pub mod grids;
pub mod inline;
pub mod math;
pub mod page;
pub mod reading;
pub mod shown;
pub mod slices;
pub mod syntax;
pub mod table;

pub use self::code::Highlighter;
pub use self::glyphs::Glyphs;

use self::document::{document_drawn, env_for, render_document};
use crate::markdown::ir::{opt_text, Document, ImageRef, ImageRefV};
use crate::render::glyphs::{unicode, unicode_glyphs};
use crate::render::inline::{display_width, grapheme_clusters, graphemes, text_width, Align};
use crate::term::caps::Capabilities;
use crate::term::style::{plain_style, Color, Style, StyleWriter};
use crate::text;
use crate::text_map::TextMap;
use crate::theme::Theme;

verus! {

/// How to present link destinations.
#[derive(Debug, Clone, Copy, PartialEq, Eq, Structural)]
pub enum LinkMode {
    /// OSC 8 hyperlinks when the terminal supports them, otherwise inline URLs.
    Auto,
    /// Always use OSC 8, even if support was not detected.
    Hyperlink,
    /// Always print the URL next to the text.
    Inline,
    /// Number links and list the destinations at the end of the document.
    Reference,
    /// Show link text only.
    Hide,
}

impl Default for LinkMode {
    fn default() -> (r: LinkMode)
        ensures
            r == LinkMode::Auto,
    {
        LinkMode::Auto
    }
}

/// Knobs for a single render pass.
#[derive(Debug, Clone, Copy)]
pub struct RenderOptions {
    /// Total columns available, including margins.
    pub width: usize,
    /// Blank columns kept at the left and right of the text.
    pub margin: usize,
    pub links: LinkMode,
    /// Draw images, when a protocol is available.
    pub images: bool,
    /// Cap on how tall one image may be, in rows.
    pub max_image_rows: u16,
    /// Show line numbers beside code blocks.
    pub line_numbers: bool,
    /// Centre block images and their captions.
    pub center_figures: bool,
    /// Columns a tab expands to inside code blocks.
    pub tab_width: usize,
    pub glyphs: Glyphs,
    /// Add an underline rule beneath level-1 and level-2 headings.
    pub heading_rules: bool,
}

/// The options when nothing is asked for.
pub open spec fn default_options() -> RenderOptions {
    RenderOptions {
        width: 80,
        margin: 1,
        links: LinkMode::Auto,
        images: true,
        max_image_rows: 24,
        line_numbers: false,
        center_figures: true,
        tab_width: 4,
        glyphs: unicode_glyphs(),
        heading_rules: true,
    }
}

impl Default for RenderOptions {
    fn default() -> (r: RenderOptions)
        ensures
            r == default_options(),
    {
        RenderOptions {
            width: 80,
            margin: 1,
            links: LinkMode::Auto,
            images: true,
            max_image_rows: 24,
            line_numbers: false,
            center_figures: true,
            tab_width: 4,
            glyphs: unicode(),
            heading_rules: true,
        }
    }
}

// --- spans ------------------------------------------------------------------

/// A number of columns, as far as it can be counted.
pub open spec fn sat(n: int) -> int {
    if n > usize::MAX {
        usize::MAX as int
    } else {
        n
    }
}

/// A styled run of text that shares one style and one link destination.
#[derive(Debug, PartialEq)]
pub struct Span {
    pub text: String,
    pub style: Style,
    /// Index into [`Screen::links`].
    pub link: Option<usize>,
}

pub struct SpanV {
    pub text: Seq<char>,
    pub style: Style,
    pub link: Option<usize>,
}

impl View for Span {
    type V = SpanV;

    open spec fn view(&self) -> SpanV {
        SpanV { text: self.text@, style: self.style, link: self.link }
    }
}

/// Text without style or link.
pub open spec fn plain_span(t: Seq<char>) -> SpanV {
    SpanV { text: t, style: plain_style(), link: None }
}

pub open spec fn spans_view(v: Seq<Span>) -> Seq<SpanV> {
    v.map_values(|s: Span| s@)
}

impl Default for Span {
    fn default() -> (r: Span)
        ensures
            r@ == plain_span(Seq::empty()),
    {
        Span { text: String::new(), style: Style::plain(), link: None }
    }
}

impl Clone for Span {
    fn clone(&self) -> (r: Span)
        ensures
            r@ == self@,
    {
        Span { text: self.text.clone(), style: self.style, link: self.link }
    }
}

impl Span {
    pub fn new(text: String, style: Style, link: Option<usize>) -> (r: Span)
        ensures
            r@ == (SpanV { text: text@, style, link }),
    {
        Span { text, style, link }
    }

    pub fn plain(text: String) -> (r: Span)
        ensures
            r@ == plain_span(text@),
    {
        Span { text, style: Style::plain(), link: None }
    }

    pub fn width(&self) -> (r: usize)
        ensures
            r == text_width(self@.text),
    {
        display_width(&self.text)
    }
}

/// The text of a run of spans.
pub open spec fn spans_text(s: Seq<SpanV>) -> Seq<char>
    decreases s.len(),
{
    if s.len() == 0 {
        Seq::empty()
    } else {
        spans_text(s.drop_last()) + s.last().text
    }
}

/// The columns of a run of spans, each measured on its own.
pub open spec fn spans_width(s: Seq<SpanV>) -> int
    decreases s.len(),
{
    if s.len() == 0 {
        0
    } else {
        spans_width(s.drop_last()) + text_width(s.last().text)
    }
}

/// True when two spans can be written as one.
pub open spec fn alike(a: SpanV, b: SpanV) -> bool {
    a.style == b.style && a.link == b.link
}

/// A run of spans with empty ones dropped and neighbours that share a style and a
/// link joined.
pub open spec fn merged(s: Seq<SpanV>) -> Seq<SpanV>
    decreases s.len(),
{
    if s.len() == 0 {
        Seq::empty()
    } else {
        joined_to(merged(s.drop_last()), s.last())
    }
}

/// A merged run with one more span.
pub open spec fn joined_to(m: Seq<SpanV>, x: SpanV) -> Seq<SpanV> {
    if x.text.len() == 0 {
        m
    } else if m.len() > 0 && alike(m.last(), x) {
        m.drop_last().push(SpanV { text: m.last().text + x.text, ..m.last() })
    } else {
        m.push(x)
    }
}

/// Collapses adjacent spans that share a style, so the emitter writes one escape
/// sequence per run instead of one per word.
pub fn merge_spans(spans: Vec<Span>) -> (r: Vec<Span>)
    ensures
        spans_view(r@) == merged(spans_view(spans@)),
{
    let mut out: Vec<Span> = Vec::new();
    let n: usize = spans.len();
    let ghost v = spans_view(spans@);
    assert(v.take(0) =~= Seq::empty());
    assert(spans_view(out@) =~= Seq::empty());
    for i in 0..n
        invariant
            n == spans.len(),
            v == spans_view(spans@),
            spans_view(out@) == merged(v.take(i as int)),
    {
        let ghost before = spans_view(out@);
        assert(v.take(i + 1).drop_last() =~= v.take(i as int));
        assert(v.take(i + 1).last() == spans@[i as int]@);
        join_span(&mut out, &spans[i]);
    }
    assert(v.take(n as int) =~= v);
    out
}

fn join_span(out: &mut Vec<Span>, span: &Span)
    ensures
        spans_view(final(out)@) == joined_to(spans_view(old(out)@), span@),
{
    let ghost before = spans_view(out@);
    if span.text.as_str().is_empty() {
        return;
    }
    let n: usize = out.len();
    if n > 0 && out[n - 1].style == span.style && same_link(out[n - 1].link, span.link) {
        assert(before.last() == out@[n - 1]@);
        out[n - 1].text.push_str(&span.text);
        assert(spans_view(out@) =~= before.drop_last().push(out@[n - 1]@));
    } else {
        if n > 0 {
            assert(before.last() == out@[n - 1]@);
        }
        out.push(span.clone());
        assert(spans_view(out@) =~= before.push(span@));
    }
}

/// True when two spans lead to the same place, or nowhere.
pub fn same_link(a: Option<usize>, b: Option<usize>) -> (r: bool)
    ensures
        r == (a == b),
{
    match (a, b) {
        (Some(x), Some(y)) => x == y,
        (None, None) => true,
        _ => false,
    }
}

/// Merging keeps every character, in order.
pub proof fn merging_keeps_the_text(s: Seq<SpanV>)
    ensures
        spans_text(merged(s)) == spans_text(s),
    decreases s.len(),
{
    if s.len() > 0 {
        merging_keeps_the_text(s.drop_last());
        let m = merged(s.drop_last());
        let x = s.last();
        if x.text.len() == 0 {
            assert(spans_text(m) + x.text =~= spans_text(m));
        } else if m.len() > 0 && alike(m.last(), x) {
            let r = m.drop_last().push(SpanV { text: m.last().text + x.text, ..m.last() });
            assert(r.drop_last() =~= m.drop_last());
            assert(spans_text(r) =~= spans_text(m) + x.text);
        } else {
            assert(m.push(x).drop_last() =~= m);
        }
    }
}

/// True of a run without empty spans and without neighbours that could be joined.
pub open spec fn is_merged(s: Seq<SpanV>) -> bool {
    &&& forall|i: int| 0 <= i < s.len() ==> (#[trigger] s[i]).text.len() > 0
    &&& forall|i: int| 0 <= i < s.len() - 1 ==> !alike(#[trigger] s[i], s[i + 1])
}

/// A merged run has no empty spans, and no two neighbours in it could be joined.
pub proof fn merging_leaves_nothing_to_merge(s: Seq<SpanV>)
    ensures
        is_merged(merged(s)),
    decreases s.len(),
{
    if s.len() > 0 {
        merging_leaves_nothing_to_merge(s.drop_last());
    }
}

/// Merging a second time changes nothing.
pub proof fn merging_is_idempotent(s: Seq<SpanV>)
    ensures
        merged(merged(s)) == merged(s),
{
    merging_leaves_nothing_to_merge(s);
    lemma_merged_fixed(merged(s));
}

proof fn lemma_merged_fixed(s: Seq<SpanV>)
    requires
        is_merged(s),
    ensures
        merged(s) == s,
    decreases s.len(),
{
    if s.len() > 0 {
        let d = s.drop_last();
        assert(is_merged(d)) by {
            assert forall|i: int| 0 <= i < d.len() implies (#[trigger] d[i]).text.len() > 0 by {
                assert(d[i] == s[i]);
            }
            assert forall|i: int| 0 <= i < d.len() - 1 implies !alike(#[trigger] d[i], d[i + 1]) by {
                assert(!alike(s[i], s[i + 1]));
            }
        }
        lemma_merged_fixed(d);
        assert(s[s.len() - 1].text.len() > 0);
        if d.len() > 0 {
            assert(!alike(s[s.len() - 2], s[s.len() - 2 + 1]));
            assert(d.last() == s[s.len() - 2]);
        }
        assert(d.push(s.last()) =~= s);
    } else {
        assert(merged(s) =~= s);
    }
}

// --- lines ------------------------------------------------------------------

/// An image to draw, with the size the layout reserved for it.
#[derive(Debug, PartialEq)]
pub struct ImagePlacement {
    pub image: ImageRef,
    pub cols: u16,
    pub rows: u16,
    /// Left offset in cells.
    pub indent: u16,
}

pub struct PlacementV {
    pub image: ImageRefV,
    pub cols: u16,
    pub rows: u16,
    pub indent: u16,
}

impl View for ImagePlacement {
    type V = PlacementV;

    open spec fn view(&self) -> PlacementV {
        PlacementV {
            image: self.image@,
            cols: self.cols,
            rows: self.rows,
            indent: self.indent,
        }
    }
}

impl Clone for ImagePlacement {
    fn clone(&self) -> (r: ImagePlacement)
        ensures
            r@ == self@,
    {
        ImagePlacement {
            image: self.image.clone(),
            cols: self.cols,
            rows: self.rows,
            indent: self.indent,
        }
    }
}

pub open spec fn opt_placement(o: Option<ImagePlacement>) -> Option<PlacementV> {
    match o {
        Some(p) => Some(p@),
        None => None,
    }
}

/// One rendered line.
#[derive(Debug, PartialEq)]
pub struct Line {
    pub spans: Vec<Span>,
    /// An image anchored at this line, occupying `rows` lines downward.
    pub image: Option<ImagePlacement>,
    /// True for the blank lines an image reserves beneath its anchor, so the pager
    /// knows they are not really empty.
    pub image_filler: bool,
    /// Index into [`Screen::headings`] when this line starts a heading, which is how
    /// anchors get their final line numbers once layout is complete.
    pub anchor: Option<usize>,
    /// Index into [`Screen::code_blocks`] when this line draws part of a code block.
    pub code: Option<usize>,
}

pub struct LineV {
    pub spans: Seq<SpanV>,
    pub image: Option<PlacementV>,
    pub image_filler: bool,
    pub anchor: Option<usize>,
    pub code: Option<usize>,
}

impl View for Line {
    type V = LineV;

    open spec fn view(&self) -> LineV {
        LineV {
            spans: spans_view(self.spans@),
            image: opt_placement(self.image),
            image_filler: self.image_filler,
            anchor: self.anchor,
            code: self.code,
        }
    }
}

pub open spec fn lines_view(v: Seq<Line>) -> Seq<LineV> {
    v.map_values(|l: Line| l@)
}

/// A line with nothing on it.
pub open spec fn blank_line() -> LineV {
    LineV { spans: Seq::empty(), image: None, image_filler: false, anchor: None, code: None }
}

/// A line of spans, merged.
pub open spec fn line_of(spans: Seq<SpanV>) -> LineV {
    LineV { spans: merged(spans), ..blank_line() }
}

impl Default for Line {
    fn default() -> (r: Line)
        ensures
            r@ == blank_line(),
    {
        let r = Line {
            spans: Vec::new(),
            image: None,
            image_filler: false,
            anchor: None,
            code: None,
        };
        assert(spans_view(r.spans@) =~= Seq::empty());
        r
    }
}

impl Clone for Line {
    fn clone(&self) -> (r: Line)
        ensures
            r@ == self@,
    {
        Line {
            spans: clone_spans(&self.spans),
            image: match &self.image {
                Some(p) => Some(p.clone()),
                None => None,
            },
            image_filler: self.image_filler,
            anchor: self.anchor,
            code: self.code,
        }
    }
}

/// A copy of a run of spans.
pub fn clone_spans(v: &Vec<Span>) -> (r: Vec<Span>)
    ensures
        spans_view(r@) == spans_view(v@),
{
    let mut out: Vec<Span> = Vec::new();
    push_spans(&mut out, v);
    assert(spans_view(out@) =~= spans_view(v@));
    out
}

/// Appends copies of a run of spans.
pub fn push_spans(out: &mut Vec<Span>, v: &Vec<Span>)
    ensures
        spans_view(final(out)@) == spans_view(old(out)@) + spans_view(v@),
{
    let ghost before = spans_view(out@);
    let ghost all = spans_view(v@);
    assert(before + all.take(0) =~= before);
    for i in 0..v.len()
        invariant
            all == spans_view(v@),
            spans_view(out@) == before + all.take(i as int),
    {
        let one = v[i].clone();
        let ghost was = spans_view(out@);
        assert(all[i as int] == v@[i as int]@);
        out.push(one);
        assert(spans_view(out@) =~= was.push(all[i as int]));
        assert(all.take(i + 1) =~= all.take(i as int).push(all[i as int]));
        assert(spans_view(out@) =~= before + all.take(i + 1));
    }
    assert(all.take(v@.len() as int) =~= all);
}

/// Where the content of a line starts, for an alignment within `width`.
pub open spec fn aligned(l: LineV, width: int, align: Align) -> LineV {
    let w = sat(spans_width(l.spans));
    let pad = match align {
        Align::Left => 0,
        Align::Center => (width - w) / 2,
        Align::Right => width - w,
    };
    if w < width && pad > 0 {
        LineV { spans: seq![plain_span(text::spaces(pad as nat))] + l.spans, ..l }
    } else {
        l
    }
}

/// A line with spans put in front of it. An image anchored on it moves right by as
/// much as the text.
pub open spec fn prefixed(l: LineV, spans: Seq<SpanV>) -> LineV {
    let added = spans_width(spans);
    LineV {
        spans: merged(spans + l.spans),
        image: match l.image {
            Some(p) => Some(
                PlacementV {
                    indent: if p.indent + added > 0xffff {
                        0xffff
                    } else {
                        (p.indent + added) as u16
                    },
                    ..p
                },
            ),
            None => None,
        },
        ..l
    }
}

/// True of a line that shows nothing.
pub open spec fn shows_nothing(l: LineV) -> bool {
    l.image is None && forall|i: int|
        0 <= i < l.spans.len() ==> text::all_space((#[trigger] l.spans[i]).text)
}

pub(crate) proof fn lemma_spans_width(s: Seq<SpanV>)
    ensures
        0 <= spans_width(s),
    decreases s.len(),
{
    if s.len() > 0 {
        lemma_spans_width(s.drop_last());
    }
}

/// The columns of a run of spans.
pub fn width_of(spans: &Vec<Span>) -> (r: usize)
    ensures
        r == sat(spans_width(spans_view(spans@))),
{
    let mut total: usize = 0;
    let ghost v = spans_view(spans@);
    assert(v.take(0) =~= Seq::empty());
    for i in 0..spans.len()
        invariant
            v == spans_view(spans@),
            total == sat(spans_width(v.take(i as int))),
    {
        assert(v.take(i + 1).drop_last() =~= v.take(i as int));
        assert(v.take(i + 1).last() == spans@[i as int]@);
        proof {
            lemma_spans_width(v.take(i as int));
        }
        total = total.saturating_add(spans[i].width());
    }
    assert(v.take(spans@.len() as int) =~= v);
    total
}

impl Line {
    pub fn from_spans(spans: Vec<Span>) -> (r: Line)
        ensures
            r@ == line_of(spans_view(spans@)),
    {
        Line {
            spans: merge_spans(spans),
            image: None,
            image_filler: false,
            anchor: None,
            code: None,
        }
    }

    pub fn text(&self) -> (r: String)
        ensures
            r@ == spans_text(self@.spans),
    {
        let mut out: String = String::new();
        let ghost v = self@.spans;
        assert(v.take(0) =~= Seq::empty());
        for i in 0..self.spans.len()
            invariant
                v == spans_view(self.spans@),
                out@ == spans_text(v.take(i as int)),
        {
            assert(v.take(i + 1).drop_last() =~= v.take(i as int));
            assert(v.take(i + 1).last() == self.spans@[i as int]@);
            out.push_str(&self.spans[i].text);
        }
        assert(v.take(self.spans@.len() as int) =~= v);
        out
    }

    pub fn width(&self) -> (r: usize)
        ensures
            r == sat(spans_width(self@.spans)),
    {
        width_of(&self.spans)
    }

    pub fn is_blank(&self) -> (r: bool)
        ensures
            r == shows_nothing(self@),
    {
        if self.image.is_some() {
            return false;
        }
        let ghost v = self@.spans;
        for i in 0..self.spans.len()
            invariant
                v == spans_view(self.spans@),
                self.image is None,
                forall|k: int| 0 <= k < i ==> text::all_space((#[trigger] v[k]).text),
        {
            assert(v[i as int] == self.spans@[i as int]@);
            if !text::is_all_space(&self.spans[i].text) {
                assert(!text::all_space(v[i as int].text));
                return false;
            }
        }
        true
    }

    /// Inserts padding so the content sits according to `align` within `width`.
    pub fn align(&mut self, width: usize, align: Align)
        ensures
            final(self)@ == aligned(old(self)@, width as int, align),
    {
        let w = self.width();
        proof {
            lemma_spans_width(self@.spans);
        }
        if w >= width {
            return;
        }
        let pad: usize = match align {
            Align::Left => {
                return;
            },
            Align::Center => (width - w) / 2,
            Align::Right => width - w,
        };
        if pad > 0 {
            let ghost before = spans_view(self.spans@);
            let filler = Span::plain(text::spaces_string(pad));
            let ghost f = filler@;
            self.spans.insert(0, filler);
            assert(spans_view(self.spans@) =~= seq![f] + before);
        }
    }

    /// Prepends a prefix to the line; used for quote bars and list indents.
    pub fn prefix(&mut self, spans: Vec<Span>)
        ensures
            final(self)@ == prefixed(old(self)@, spans_view(spans@)),
    {
        let added = width_of(&spans);
        proof {
            lemma_spans_width(spans_view(spans@));
        }
        let mut all = spans;
        let ghost front = spans_view(all@);
        push_spans(&mut all, &self.spans);
        self.spans = merge_spans(all);
        // An image anchored here shifts right by the same amount as the text.
        match &mut self.image {
            Some(img) => {
                if added > 0xffff {
                    img.indent = 0xffff;
                } else {
                    img.indent = img.indent.saturating_add(added as u16);
                }
            },
            None => {},
        }
    }

    /// Returns the portion of the line between two display columns.
    ///
    /// Used for horizontal scrolling. Double-width graphemes that straddle a boundary
    /// are replaced by a space so the total width stays exact.
    pub fn slice_columns(&self, from: usize, to: usize) -> (r: Vec<Span>)
        ensures
            spans_view(r@) == sliced(self@.spans, from as int, to as int),
    {
        let mut out: Vec<Span> = Vec::new();
        let mut col: usize = 0;
        let n: usize = self.spans.len();
        let ghost v = self@.spans;
        assert(spans_view(out@) =~= Seq::empty());
        let mut i: usize = 0;
        while i < n
            invariant
                n == self.spans.len(),
                v == spans_view(self.spans@),
                i <= n,
                merged(sliced_from(v, i as int, from as int, to as int, col as int, spans_view(out@)))
                    == sliced(v, from as int, to as int),
            decreases n - i,
        {
            let ghost before = spans_view(out@);
            assert(v[i as int] == self.spans@[i as int]@);
            let span = &self.spans[i];
            let sw = span.width();
            let end = col.saturating_add(sw);
            if end <= from {
                col = end;
            } else if col >= to {
                return merge_spans(out);
            } else if col >= from && end <= to {
                out.push(span.clone());
                assert(spans_view(out@) =~= before.push(span@));
                col = end;
            } else {
                let cut = cut_text(&span.text, col, from, to);
                if !cut.as_str().is_empty() {
                    let piece = Span::new(cut, span.style, span.link);
                    let ghost p = piece@;
                    out.push(piece);
                    assert(spans_view(out@) =~= before.push(p));
                }
                col = end;
            }
            i = i + 1;
        }
        merge_spans(out)
    }
}

/// Lines with `first` in front of the first and `rest` in front of the others.
pub open spec fn prefixed_all(lines: Seq<LineV>, first: Seq<SpanV>, rest: Seq<SpanV>) -> Seq<
    LineV,
> {
    Seq::new(
        lines.len(),
        |i: int|
            prefixed(
                lines[i],
                if i == 0 {
                    first
                } else {
                    rest
                },
            ),
    )
}

/// Puts `first` in front of the first line and `rest` in front of the others.
pub fn prefix_all(lines: &mut Vec<Line>, first: &Vec<Span>, rest: &Vec<Span>)
    ensures
        lines_view(final(lines)@) == prefixed_all(
            lines_view(old(lines)@),
            spans_view(first@),
            spans_view(rest@),
        ),
{
    let n: usize = lines.len();
    let ghost v = lines_view(lines@);
    let ghost all = prefixed_all(v, spans_view(first@), spans_view(rest@));
    for i in 0..n
        invariant
            n == lines.len(),
            n == v.len(),
            all == prefixed_all(v, spans_view(first@), spans_view(rest@)),
            forall|k: int| 0 <= k < i ==> (#[trigger] lines@[k])@ == all[k],
            forall|k: int| i <= k < n ==> (#[trigger] lines@[k])@ == v[k],
    {
        let spans = if i == 0 {
            clone_spans(first)
        } else {
            clone_spans(rest)
        };
        assert(lines@[i as int]@ == v[i as int]);
        lines[i].prefix(spans);
    }
    assert(lines_view(lines@) =~= all);
}

/// Moves a run of lines to the end of another.
pub fn push_lines(out: &mut Vec<Line>, more: Vec<Line>)
    ensures
        lines_view(final(out)@) == lines_view(old(out)@) + lines_view(more@),
{
    let mut more = more;
    let ghost a = lines_view(out@);
    let ghost b = lines_view(more@);
    out.append(&mut more);
    assert(lines_view(out@) =~= a + b);
}

/// Adds one line.
pub fn push_line(out: &mut Vec<Line>, line: Line)
    ensures
        lines_view(final(out)@) == lines_view(old(out)@).push(line@),
{
    let ghost a = lines_view(out@);
    out.push(line);
    assert(lines_view(out@) =~= a.push(line@));
}

/// A run of one span.
pub fn one_span(s: Span) -> (r: Vec<Span>)
    ensures
        spans_view(r@) == seq![s@],
{
    let mut v: Vec<Span> = Vec::new();
    let ghost sv = s@;
    v.push(s);
    assert(spans_view(v@) =~= seq![sv]);
    v
}

/// Adds one span.
pub fn push_span(out: &mut Vec<Span>, s: Span)
    ensures
        spans_view(final(out)@) == spans_view(old(out)@).push(s@),
{
    let ghost a = spans_view(out@);
    let ghost sv = s@;
    out.push(s);
    assert(spans_view(out@) =~= a.push(sv));
}

/// The columns a grapheme takes when text is cut: never none.
pub open spec fn cell_width(g: Seq<char>) -> int {
    if text_width(g) < 1 {
        1
    } else {
        text_width(g) as int
    }
}

/// What is left of the graphemes from `k` on when only the columns `from..to` show.
/// A grapheme across an edge becomes a space.
pub open spec fn cut_from(
    gs: Seq<Seq<char>>,
    k: int,
    col: int,
    from: int,
    to: int,
    out: Seq<char>,
) -> Seq<char>
    decreases gs.len() - k,
{
    if k < 0 || k >= gs.len() {
        out
    } else {
        let end = sat(col + cell_width(gs[k]));
        let next = if end <= from || col >= to {
            out
        } else if col < from || end > to {
            out.push(' ')
        } else {
            out + gs[k]
        };
        cut_from(gs, k + 1, end, from, to, next)
    }
}

/// The part of a run of spans between two columns, before merging.
pub open spec fn sliced_from(
    s: Seq<SpanV>,
    i: int,
    from: int,
    to: int,
    col: int,
    out: Seq<SpanV>,
) -> Seq<SpanV>
    decreases s.len() - i,
{
    if i < 0 || i >= s.len() {
        out
    } else {
        let end = sat(col + text_width(s[i].text));
        if end <= from {
            sliced_from(s, i + 1, from, to, end, out)
        } else if col >= to {
            out
        } else if col >= from && end <= to {
            sliced_from(s, i + 1, from, to, end, out.push(s[i]))
        } else {
            let t = cut_from(grapheme_clusters(s[i].text), 0, col, from, to, Seq::empty());
            sliced_from(
                s,
                i + 1,
                from,
                to,
                end,
                if t.len() > 0 {
                    out.push(SpanV { text: t, ..s[i] })
                } else {
                    out
                },
            )
        }
    }
}

/// The part of a run of spans between two columns.
pub open spec fn sliced(s: Seq<SpanV>, from: int, to: int) -> Seq<SpanV> {
    merged(sliced_from(s, 0, from, to, 0, Seq::empty()))
}

fn cut_text(s: &str, start: usize, from: usize, to: usize) -> (r: String)
    ensures
        r@ == cut_from(
            grapheme_clusters(s@),
            0,
            start as int,
            from as int,
            to as int,
            Seq::empty(),
        ),
{
    let gs = graphemes(s);
    let ghost v = text::views(gs@);
    let mut out: String = String::new();
    let mut col: usize = start;
    let mut k: usize = 0;
    while k < gs.len()
        invariant
            v == text::views(gs@),
            v == grapheme_clusters(s@),
            k <= gs.len(),
            cut_from(v, k as int, col as int, from as int, to as int, out@) == cut_from(
                v,
                0,
                start as int,
                from as int,
                to as int,
                Seq::empty(),
            ),
        decreases gs.len() - k,
    {
        assert(v[k as int] == gs@[k as int]@);
        let w = display_width(&gs[k]);
        let gw: usize = if w < 1 {
            1
        } else {
            w
        };
        let end = col.saturating_add(gw);
        if end <= from || col >= to {
        } else if col < from || end > to {
            out.push(' ');
        } else {
            out.push_str(&gs[k]);
        }
        col = end;
        k = k + 1;
    }
    out
}

// --- screens ------------------------------------------------------------------

/// A heading, for the table of contents.
#[derive(Debug, PartialEq)]
pub struct HeadingEntry {
    pub level: u8,
    pub text: String,
    pub id: String,
    pub line: usize,
}

pub struct HeadingV {
    pub level: u8,
    pub text: Seq<char>,
    pub id: Seq<char>,
    pub line: usize,
}

impl View for HeadingEntry {
    type V = HeadingV;

    open spec fn view(&self) -> HeadingV {
        HeadingV { level: self.level, text: self.text@, id: self.id@, line: self.line }
    }
}

pub open spec fn headings_view(v: Seq<HeadingEntry>) -> Seq<HeadingV> {
    v.map_values(|h: HeadingEntry| h@)
}

/// A fully laid out document.
#[derive(Debug)]
pub struct Screen {
    pub lines: Vec<Line>,
    /// Link destinations, indexed by [`Span::link`].
    pub links: Vec<String>,
    pub headings: Vec<HeadingEntry>,
    /// Heading id to line number, for resolving `#anchor` links.
    pub anchors: TextMap,
    /// The source of each code block, indexed by [`Line::code`].
    pub code_blocks: Vec<String>,
    pub width: usize,
    pub title: Option<String>,
}

pub struct ScreenV {
    pub lines: Seq<LineV>,
    pub links: Seq<Seq<char>>,
    pub headings: Seq<HeadingV>,
    pub anchors: Map<Seq<char>, usize>,
    pub code_blocks: Seq<Seq<char>>,
    pub width: usize,
    pub title: Option<Seq<char>>,
}

impl View for Screen {
    type V = ScreenV;

    open spec fn view(&self) -> ScreenV {
        ScreenV {
            lines: lines_view(self.lines@),
            links: text::views(self.links@),
            headings: headings_view(self.headings@),
            anchors: self.anchors@,
            code_blocks: text::views(self.code_blocks@),
            width: self.width,
            title: opt_text(self.title),
        }
    }
}

impl Default for Screen {
    fn default() -> (r: Screen)
        ensures
            r@ == (ScreenV {
                lines: Seq::empty(),
                links: Seq::empty(),
                headings: Seq::empty(),
                anchors: Map::empty(),
                code_blocks: Seq::empty(),
                width: 0,
                title: None,
            }),
    {
        let r = Screen {
            lines: Vec::new(),
            links: Vec::new(),
            headings: Vec::new(),
            anchors: TextMap::new(),
            code_blocks: Vec::new(),
            width: 0,
            title: None,
        };
        assert(lines_view(r.lines@) =~= Seq::empty());
        assert(text::views(r.links@) =~= Seq::empty());
        assert(headings_view(r.headings@) =~= Seq::empty());
        assert(text::views(r.code_blocks@) =~= Seq::empty());
        r
    }
}

/// The text of the first `k` lines, each without its trailing white space and with a
/// line feed after it.
pub open spec fn text_of(lines: Seq<LineV>, k: int) -> Seq<char>
    decreases k,
{
    if k <= 0 {
        Seq::empty()
    } else {
        (text_of(lines, k - 1) + text::trim_end(spans_text(lines[k - 1].spans))).push('\n')
    }
}

impl Screen {
    pub fn len(&self) -> (r: usize)
        ensures
            r == self@.lines.len(),
    {
        self.lines.len()
    }

    pub fn is_empty(&self) -> (r: bool)
        ensures
            r == (self@.lines.len() == 0),
    {
        self.lines.len() == 0
    }

    /// Plain text of the whole document, for `--plain`, tests and search.
    pub fn plain_text(&self) -> (r: String)
        ensures
            r@ == text_of(self@.lines, self@.lines.len() as int),
    {
        let mut out: String = String::new();
        let ghost v = self@.lines;
        for k in 0..self.lines.len()
            invariant
                v == lines_view(self.lines@),
                out@ == text_of(v, k as int),
        {
            assert(v[k as int] == self.lines@[k as int]@);
            let t = self.lines[k].text();
            out.push_str(&text::trimmed_end(&t));
            out.push('\n');
        }
        out
    }

    /// Line number of a heading anchor, if the document has one.
    pub fn anchor(&self, id: &str) -> (r: Option<usize>)
        ensures
            r == (if self@.anchors.dom().contains(id@) {
                Some(self@.anchors[id@])
            } else {
                None
            }),
    {
        self.anchors.get(id)
    }
}

// --- pictures -------------------------------------------------------------------

/// A request to draw one image.
#[derive(Debug, Clone, Copy)]
pub struct ImageRequest<'a> {
    pub image: &'a ImageRef,
    pub cols: u16,
    pub rows: u16,
    /// Rows to cut from the top, so an image scrolled half off the screen can still
    /// be drawn as the part that remains.
    pub skip_top: u16,
    /// Rows to cut from the bottom, to keep an image inside the viewport.
    pub skip_bottom: u16,
    /// Left offset in cells, needed by backends whose output spans lines.
    pub indent: u16,
}

pub struct RequestV {
    pub image: ImageRefV,
    pub cols: u16,
    pub rows: u16,
    pub skip_top: u16,
    pub skip_bottom: u16,
    pub indent: u16,
}

impl<'a> View for ImageRequest<'a> {
    type V = RequestV;

    open spec fn view(&self) -> RequestV {
        RequestV {
            image: self.image@,
            cols: self.cols,
            rows: self.rows,
            skip_top: self.skip_top,
            skip_bottom: self.skip_bottom,
            indent: self.indent,
        }
    }
}

/// The rows of a request that are drawn once the crops are applied.
pub open spec fn rows_shown(rows: u16, skip_top: u16, skip_bottom: u16) -> int {
    if rows - skip_top - skip_bottom < 0 {
        0
    } else {
        rows - skip_top - skip_bottom
    }
}

impl<'a> ImageRequest<'a> {
    pub fn new(image: &'a ImageRef, cols: u16, rows: u16) -> (r: ImageRequest<'a>)
        ensures
            r@ == (RequestV {
                image: image@,
                cols,
                rows,
                skip_top: 0,
                skip_bottom: 0,
                indent: 0,
            }),
    {
        ImageRequest { image, cols, rows, skip_top: 0, skip_bottom: 0, indent: 0 }
    }

    /// The number of rows actually drawn once the crops are applied.
    pub fn visible_rows(&self) -> (r: u16)
        ensures
            r == rows_shown(self.rows, self.skip_top, self.skip_bottom),
    {
        self.rows.saturating_sub(self.skip_top).saturating_sub(self.skip_bottom)
    }
}

/// What a provider of images knows: an image's size in pixels, and why an image is not
/// showing.
pub struct Pictures {
    pub measure: spec_fn(ImageRefV) -> Option<(u32, u32)>,
    pub problem: spec_fn(ImageRefV) -> Option<Seq<char>>,
}

/// Anything that can supply image bytes and dimensions.
///
/// The renderer needs a picture's aspect ratio to reserve the right number of rows,
/// and the writer needs its encoded form. Keeping both behind a trait lets layout be
/// stated without decoding a single PNG. A provider remembers what it has loaded, so
/// that what it knows of an image does not change. The sequences it gives out may
/// depend on those it gave out before: a terminal may want each under its own number.
pub trait ImageProvider: Sized {
    /// What the provider knows.
    closed spec fn pictures(&self) -> Pictures {
        arbitrary()
    }

    /// The sequence for a request made now.
    closed spec fn answer(&self, request: RequestV) -> Option<Seq<char>> {
        arbitrary()
    }

    /// The provider after a request made now.
    closed spec fn after(&self, request: RequestV) -> Self {
        arbitrary()
    }

    /// Pixel dimensions, or `None` if the image cannot be loaded.
    fn measure(&mut self, image: &ImageRef) -> (r: Option<(u32, u32)>)
        ensures
            r == (old(self).pictures().measure)(image@),
            final(self).pictures() == old(self).pictures(),
    ;

    /// The escape sequence that draws an image as requested.
    fn encode(&mut self, request: ImageRequest<'_>) -> (r: Option<String>)
        ensures
            opt_text(r) == old(self).answer(request@),
            *final(self) == old(self).after(request@),
            final(self).pictures() == old(self).pictures(),
    ;

    /// Why an image is not showing, in a few words fit for a placeholder. Providers
    /// that cannot explain themselves return `None` and get a bare placeholder.
    fn problem(&mut self, image: &ImageRef) -> (r: Option<String>)
        ensures
            opt_text(r) == (old(self).pictures().problem)(image@),
            final(self).pictures() == old(self).pictures(),
    ;
}

/// An [`ImageProvider`] that never finds an image: used when images are off.
#[derive(Debug, Clone, Copy)]
pub struct NoImages;

impl ImageProvider for NoImages {
    open spec fn pictures(&self) -> Pictures {
        Pictures {
            measure: |image: ImageRefV| None,
            problem: |image: ImageRefV| None,
        }
    }

    open spec fn answer(&self, request: RequestV) -> Option<Seq<char>> {
        None
    }

    open spec fn after(&self, request: RequestV) -> NoImages {
        *self
    }

    fn measure(&mut self, _image: &ImageRef) -> (r: Option<(u32, u32)>) {
        None
    }

    fn encode(&mut self, _request: ImageRequest<'_>) -> (r: Option<String>) {
        None
    }

    fn problem(&mut self, _image: &ImageRef) -> (r: Option<String>) {
        None
    }
}

/// Lays out a document.
pub fn render<P: ImageProvider>(
    doc: &Document,
    options: &RenderOptions,
    theme: &Theme,
    caps: &Capabilities,
    images: &mut P,
    highlighter: &Highlighter,
) -> (r: Screen)
    ensures
        r@ == document_drawn(
            env_for(doc@, *options, *theme, *caps, *highlighter),
            old(images).pictures(),
            doc@,
        ),
        final(images).pictures() == old(images).pictures(),
{
    render_document(doc, options, theme, caps, images, highlighter)
}

// --- writing ----------------------------------------------------------------------

/// Options for turning a [`Screen`] into bytes.
#[derive(Debug, Clone, Copy, PartialEq, Eq, Structural)]
pub struct WriteOptions {
    pub hyperlinks: bool,
    /// Emit image escape sequences (off when piping).
    pub images: bool,
}

impl Default for WriteOptions {
    fn default() -> (r: WriteOptions)
        ensures
            r == (WriteOptions { hyperlinks: true, images: true }),
    {
        WriteOptions { hyperlinks: true, images: true }
    }
}

/// True of a path that starts at the root. On Windows that takes a drive letter or a
/// share.
pub open spec fn is_absolute(path: Seq<char>, windows: bool) -> bool {
    if windows {
        (path.len() > 2 && text::is_ascii_letter(path[0]) && path[1] == ':' && (path[2] == '\\'
            || path[2] == '/')) || text::starts_with(path, "\\\\"@)
    } else {
        path.len() > 0 && path[0] == '/'
    }
}

/// One character of a path inside a URI. Those that would end the URI or be read as
/// part of its syntax are percent-encoded.
pub open spec fn uri_char(c: char) -> Seq<char> {
    if c == ' ' {
        "%20"@
    } else if c == '"' {
        "%22"@
    } else if c == '#' {
        "%23"@
    } else if c == '?' {
        "%3F"@
    } else if c == '%' {
        "%25"@
    } else {
        seq![c]
    }
}

/// The first `k` characters of a path inside a URI.
pub open spec fn uri_path(s: Seq<char>, k: int) -> Seq<char>
    decreases k,
{
    if k <= 0 {
        Seq::empty()
    } else {
        uri_path(s, k - 1) + uri_char(s[k - 1])
    }
}

/// What a terminal will accept as a link target. Local paths become `file://` URIs,
/// with forward slashes and always a slash before the path; anything with a scheme,
/// a fragment or a relative path is left alone.
pub open spec fn link_uri(target: Seq<char>, windows: bool) -> Seq<char> {
    if text::contains(target, "://"@) || (target.len() > 0 && target[0] == '#') || !is_absolute(
        target,
        windows,
    ) {
        target
    } else {
        let path = text::replaced(target, '\\', '/');
        let rooted = if path.len() > 0 && path[0] == '/' {
            path
        } else {
            seq!['/'] + path
        };
        "file://"@ + uri_path(rooted, rooted.len() as int)
    }
}

/// Turns a link target into something a terminal will accept in an OSC 8 sequence.
///
/// Local paths arrive absolute but without a scheme, and a terminal has no reason to
/// treat `/home/you/notes.md` as a link. Giving it a `file://` prefix is what makes a
/// document link clickable in the terminal as well as in the pager.
pub fn hyperlink_uri(target: &str) -> (r: String)
    ensures
        r@ == link_uri(target@, false),
{
    hyperlink_uri_on(target, false)
}

/// The same, with the paths of Windows or those of everything else.
pub fn hyperlink_uri_on(target: &str, windows: bool) -> (r: String)
    ensures
        r@ == link_uri(target@, windows),
{
    let v = text::chars_of(target);
    let absolute = if windows {
        (v.len() > 2 && text::char_is_ascii_letter(v[0]) && v[1] == ':' && (v[2] == '\\' || v[2]
            == '/')) || text::has_prefix(target, "\\\\")
    } else {
        v.len() > 0 && v[0] == '/'
    };
    if text::has_sub(target, "://") || (v.len() > 0 && v[0] == '#') || !absolute {
        return text::owned(target);
    }
    let path = text::replace_char(target, '\\', '/');
    let mut rooted = text::chars_of(&path);
    if !(rooted.len() > 0 && rooted[0] == '/') {
        let ghost before = rooted@;
        rooted.insert(0, '/');
        assert(rooted@ =~= seq!['/'] + before);
    }
    let mut out = text::owned("file://");
    assert(out@ =~= "file://"@ + uri_path(rooted@, 0));
    for k in 0..rooted.len()
        invariant
            out@ == "file://"@ + uri_path(rooted@, k as int),
    {
        let ghost before = out@;
        let c = rooted[k];
        if c == ' ' {
            out.push_str("%20");
        } else if c == '"' {
            out.push_str("%22");
        } else if c == '#' {
            out.push_str("%23");
        } else if c == '?' {
            out.push_str("%3F");
        } else if c == '%' {
            out.push_str("%25");
        } else {
            out.push(c);
        }
        assert(out@ =~= before + uri_char(c));
        assert(out@ =~= "file://"@ + uri_path(rooted@, k + 1));
    }
    out
}

/// The sequence that ends a hyperlink.
pub open spec fn link_close() -> Seq<char> {
    "\x1b]8;;\x1b\\"@
}

/// The sequence that starts a hyperlink.
pub open spec fn link_open(url: Seq<char>) -> Seq<char> {
    "\x1b]8;;"@ + link_uri(url, false) + "\x1b\\"@
}

/// A writer, the hyperlink that is open, and what has been written.
pub struct InkV {
    pub writer: StyleWriter,
    pub link: Option<usize>,
    pub out: Seq<char>,
}

/// What is written where the link changes: the end of the old one, and the start of
/// the new one if hyperlinks are wanted and it has a destination.
pub open spec fn relinked(
    links: Seq<Seq<char>>,
    hyperlinks: bool,
    from: Option<usize>,
    to: Option<usize>,
) -> Seq<char> {
    (if from is Some {
        link_close()
    } else {
        Seq::empty()
    }) + (match to {
        Some(i) => if hyperlinks && i < links.len() {
            link_open(links[i as int])
        } else {
            Seq::empty()
        },
        None => Seq::empty(),
    })
}

/// The ink after one span.
pub open spec fn span_written(
    ink: InkV,
    span: SpanV,
    links: Seq<Seq<char>>,
    hyperlinks: bool,
) -> InkV {
    let linked = if span.link != ink.link {
        ink.out + relinked(links, hyperlinks, ink.link, span.link)
    } else {
        ink.out
    };
    InkV {
        writer: ink.writer.moved(span.style),
        link: span.link,
        out: linked + ink.writer.written(span.style) + span.text,
    }
}

/// The ink after the first `k` spans of a line.
pub open spec fn spans_written(
    ink: InkV,
    spans: Seq<SpanV>,
    k: int,
    links: Seq<Seq<char>>,
    hyperlinks: bool,
) -> InkV
    decreases k,
{
    if k <= 0 {
        ink
    } else {
        span_written(
            spans_written(ink, spans, k - 1, links, hyperlinks),
            spans[k - 1],
            links,
            hyperlinks,
        )
    }
}

/// The ink after a line of text: links do not run on, and neither does style.
pub open spec fn line_written(
    ink: InkV,
    spans: Seq<SpanV>,
    links: Seq<Seq<char>>,
    hyperlinks: bool,
) -> InkV {
    let s = spans_written(ink, spans, spans.len() as int, links, hyperlinks);
    let closed = if s.link is Some {
        s.out + link_close()
    } else {
        s.out
    };
    InkV {
        writer: s.writer.at_rest(),
        link: None,
        out: (closed + s.writer.reset_text()).push('\n'),
    }
}

/// A picture in the text: its rows are reserved first, then the cursor goes back up
/// to paint into them and returns. Where a protocol leaves the cursor varies, so
/// nothing relies on it.
pub open spec fn picture_written(p: PlacementV, sequence: Seq<char>) -> Seq<char> {
    text::repeated("\n"@, p.rows as nat) + "\x1b["@ + text::decimal(p.rows as nat) + "A"@
        + "\x1b7"@ + text::spaces(p.indent as nat) + sequence + "\x1b8"@ + "\x1b["@
        + text::decimal(p.rows as nat) + "B"@
}

/// The request to draw a placement whole.
pub open spec fn whole_request(p: PlacementV) -> RequestV {
    RequestV {
        image: p.image,
        cols: p.cols,
        rows: p.rows,
        skip_top: 0,
        skip_bottom: 0,
        indent: p.indent,
    }
}

/// The ink after one line of the screen, given the sequence for its picture.
pub open spec fn row_written(
    ink: InkV,
    line: LineV,
    links: Seq<Seq<char>>,
    opts: WriteOptions,
    answer: Option<Seq<char>>,
) -> InkV {
    if line.image_filler {
        ink
    } else if asks(line, opts) {
        let p = line.image->0;
        let rested = InkV {
            writer: ink.writer.at_rest(),
            out: ink.out + ink.writer.reset_text(),
            ..ink
        };
        match answer {
            Some(sequence) => InkV { out: rested.out + picture_written(p, sequence), ..rested },
            None => line_written(rested, line.spans, links, opts.hyperlinks),
        }
    } else {
        line_written(ink, line.spans, links, opts.hyperlinks)
    }
}

/// True of a line whose picture is asked for.
pub open spec fn asks(line: LineV, opts: WriteOptions) -> bool {
    !line.image_filler && line.image is Some && opts.images
}

/// The ink after the first `k` lines of the screen, and the provider of its pictures.
pub open spec fn rows_written<P: ImageProvider>(
    ink: InkV,
    lines: Seq<LineV>,
    k: int,
    links: Seq<Seq<char>>,
    opts: WriteOptions,
    images: P,
) -> (InkV, P)
    decreases k,
{
    if k <= 0 {
        (ink, images)
    } else {
        let (before, now) = rows_written(ink, lines, k - 1, links, opts, images);
        let line = lines[k - 1];
        if asks(line, opts) {
            let request = whole_request(line.image->0);
            (row_written(before, line, links, opts, now.answer(request)), now.after(request))
        } else {
            (row_written(before, line, links, opts, None), now)
        }
    }
}

/// The ink before anything is written.
pub open spec fn fresh_ink(caps: Capabilities) -> InkV {
    InkV {
        writer: StyleWriter {
            depth: caps.color,
            current: plain_style(),
            italic_as_underline: caps.italic_broken,
        },
        link: None,
        out: Seq::empty(),
    }
}

/// A screen as ANSI, and the provider of its pictures after that.
pub open spec fn screen_written<P: ImageProvider>(
    screen: ScreenV,
    caps: Capabilities,
    opts: WriteOptions,
    images: P,
) -> (Seq<char>, P) {
    let (ink, after) = rows_written(
        fresh_ink(caps),
        screen.lines,
        screen.lines.len() as int,
        screen.links,
        opts,
        images,
    );
    (ink.out + ink.writer.reset_text(), after)
}

/// The ink's own state.
pub struct Ink {
    pub writer: StyleWriter,
    pub link: Option<usize>,
    pub out: String,
}

impl View for Ink {
    type V = InkV;

    open spec fn view(&self) -> InkV {
        InkV { writer: self.writer, link: self.link, out: self.out@ }
    }
}

impl Ink {
    /// Writes one span, opening and closing hyperlinks as the link changes.
    pub fn span(&mut self, span: &Span, links: &Vec<String>, hyperlinks: bool)
        ensures
            final(self)@ == span_written(old(self)@, span@, text::views(links@), hyperlinks),
    {
        let ghost l = text::views(links@);
        if !same_link(span.link, self.link) {
            let ghost start = self.out@;
            // Close the previous hyperlink before opening another.
            if self.link.is_some() {
                self.out.push_str("\x1b]8;;\x1b\\");
            }
            let ghost mid = self.out@;
            match span.link {
                Some(i) => {
                    if hyperlinks && i < links.len() {
                        assert(l[i as int] == links@[i as int]@);
                        self.out.push_str("\x1b]8;;");
                        self.out.push_str(&hyperlink_uri(&links[i]));
                        self.out.push_str("\x1b\\");
                        assert(self.out@ =~= mid + link_open(l[i as int]));
                    }
                },
                None => {},
            }
            assert(self.out@ =~= start + relinked(l, hyperlinks, self.link, span.link));
            self.link = span.link;
        }
        self.writer.transition(span.style, &mut self.out);
        self.out.push_str(&span.text);
    }

    /// Writes the spans of a line.
    pub fn spans(&mut self, spans: &Vec<Span>, links: &Vec<String>, hyperlinks: bool)
        ensures
            final(self)@ == spans_written(
                old(self)@,
                spans_view(spans@),
                spans@.len() as int,
                text::views(links@),
                hyperlinks,
            ),
    {
        let ghost v = spans_view(spans@);
        for k in 0..spans.len()
            invariant
                v == spans_view(spans@),
                self@ == spans_written(
                    old(self)@,
                    v,
                    k as int,
                    text::views(links@),
                    hyperlinks,
                ),
        {
            assert(v[k as int] == spans@[k as int]@);
            self.span(&spans[k], links, hyperlinks);
        }
    }

    fn line(&mut self, spans: &Vec<Span>, links: &Vec<String>, hyperlinks: bool)
        ensures
            final(self)@ == line_written(
                old(self)@,
                spans_view(spans@),
                text::views(links@),
                hyperlinks,
            ),
    {
        self.spans(spans, links, hyperlinks);
        if self.link.is_some() {
            self.out.push_str("\x1b]8;;\x1b\\");
            self.link = None;
        }
        self.writer.reset(&mut self.out);
        self.out.push('\n');
    }

    fn picture(&mut self, p: &ImagePlacement, sequence: &str)
        ensures
            final(self)@ == (InkV {
                out: old(self)@.out + picture_written(p@, sequence@),
                ..old(self)@
            }),
    {
        let ghost start = self.out@;
        // Reserve the rows, then paint into them.
        text::push_repeated(&mut self.out, "\n", p.rows as usize);
        self.out.push_str("\x1b[");
        text::push_decimal(&mut self.out, p.rows as u64);
        self.out.push_str("A");
        self.out.push_str("\x1b7");
        text::push_spaces(&mut self.out, p.indent as usize);
        self.out.push_str(sequence);
        self.out.push_str("\x1b8");
        self.out.push_str("\x1b[");
        text::push_decimal(&mut self.out, p.rows as u64);
        self.out.push_str("B");
        assert(self.out@ =~= start + picture_written(p@, sequence@));
    }
}

impl Screen {
    /// The document as ANSI.
    pub fn write<P: ImageProvider>(
        &self,
        caps: &Capabilities,
        opts: &WriteOptions,
        images: &mut P,
    ) -> (r: String)
        ensures
            (r@, *final(images)) == screen_written(self@, *caps, *opts, *old(images)),
            final(images).pictures() == old(images).pictures(),
    {
        let mut ink = Ink {
            writer: StyleWriter::new(caps.color).with_italic_fallback(caps.italic_broken),
            link: None,
            out: String::new(),
        };
        let ghost v = self@.lines;
        let ghost links = self@.links;
        let ghost first = *images;
        let ghost start = fresh_ink(*caps);
        assert(ink@ == start);
        for k in 0..self.lines.len()
            invariant
                v == lines_view(self.lines@),
                links == text::views(self.links@),
                first == *old(images),
                images.pictures() == first.pictures(),
                (ink@, *images) == rows_written(start, v, k as int, links, *opts, first),
        {
            assert(v[k as int] == self.lines@[k as int]@);
            let line = &self.lines[k];
            if !line.image_filler {
                let mut drawn: bool = false;
                if opts.images {
                    match &line.image {
                        Some(p) => {
                            ink.writer.reset(&mut ink.out);
                            let request = ImageRequest {
                                image: &p.image,
                                cols: p.cols,
                                rows: p.rows,
                                skip_top: 0,
                                skip_bottom: 0,
                                indent: p.indent,
                            };
                            match images.encode(request) {
                                Some(sequence) => {
                                    ink.picture(p, &sequence);
                                    drawn = true;
                                },
                                None => {},
                            }
                        },
                        None => {},
                    }
                }
                if !drawn {
                    ink.line(&line.spans, &self.links, opts.hyperlinks);
                }
            }
        }
        ink.writer.reset(&mut ink.out);
        ink.out
    }
}

/// A line filled up to `width` with a background colour, if the style has one.
pub open spec fn filled(l: LineV, width: int, style: Style) -> LineV {
    let w = sat(spans_width(l.spans));
    if style.bg == Color::Default || w >= width {
        l
    } else {
        LineV {
            spans: l.spans.push(
                SpanV { text: text::spaces((width - w) as nat), style, link: None },
            ),
            ..l
        }
    }
}

/// Fills a line's full width with a background colour, so themed code blocks and
/// tables look like solid panels rather than ragged text.
pub fn pad_line_background(line: &mut Line, width: usize, style: Style)
    ensures
        final(line)@ == filled(old(line)@, width as int, style),
{
    if style.bg == Color::Default {
        return;
    }
    let w = line.width();
    if w < width {
        let ghost before = spans_view(line.spans@);
        let s = Span::new(text::spaces_string(width - w), style, None);
        let ghost sv = s@;
        line.spans.push(s);
        assert(spans_view(line.spans@) =~= before.push(sv));
    }
}

} // verus!
