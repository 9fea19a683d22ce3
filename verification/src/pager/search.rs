//! Incremental search over a rendered [`Screen`].
//!
//! Matching runs against each line's plain text and records positions in display
//! columns, not byte offsets. That is what lets a match be highlighted after the line
//! has been sliced for horizontal scrolling, and it is the difference between
//! highlighting the right characters and highlighting the right number of bytes
//! starting in the wrong place.
use vstd::prelude::*;

use crate::render::inline::{
    char_columns, characters_stand_apart, columns_of, display_width, grapheme_clusters, graphemes,
    is_plain_char, lemma_flatten_push, plain_text_adds_up, singles, text_width,
};
use crate::render::{
    lines_view, merge_spans, merged, merging_keeps_the_text, sat, spans_text, spans_view, Line,
    LineV, Screen, ScreenV, Span, SpanV,
};
use crate::render::slices::is_narrow;
use crate::term::style::Style;
use crate::text;

verus! {

/// One match, in display columns.
#[derive(Debug, Clone, Copy, PartialEq, Eq, Structural)]
pub struct Match {
    pub line: usize,
    pub start: usize,
    pub end: usize,
}

/// The state of a search: what was asked for, and what was found.
#[derive(Debug)]
pub struct Search {
    pub query: String,
    pub matches: Vec<Match>,
    /// Index into `matches` of the one currently focused.
    pub current: usize,
}

pub struct SearchV {
    pub query: Seq<char>,
    pub matches: Seq<Match>,
    pub current: int,
}

impl View for Search {
    type V = SearchV;

    open spec fn view(&self) -> SearchV {
        SearchV { query: self.query@, matches: self.matches@, current: self.current as int }
    }
}

impl SearchV {
    /// The focused match is one of those found, where any were.
    pub open spec fn wf(self) -> bool {
        0 <= self.current && (self.matches.len() > 0 ==> self.current < self.matches.len())
    }
}

// --- finding -----------------------------------------------------------------------

/// What `char::is_uppercase` answers.
pub uninterp spec fn uppercase(c: char) -> bool;

/// `char::is_uppercase` is a function of the character alone. In ASCII the capitals are
/// the letters from `A` to `Z`.
pub assume_specification[ char::is_uppercase ](c: char) -> (r: bool)
    ensures
        r == uppercase(c),
        (c as u32) < 0x80 ==> r == ('A' <= c && c <= 'Z'),
;

/// What `str::to_lowercase` makes of a text.
pub uninterp spec fn lowercase_text(s: Seq<char>) -> Seq<char>;

/// `str::to_lowercase`, which depends on the text alone. In ASCII text each letter from
/// `A` to `Z` is lowered.
#[verifier::external_body]
fn lowercased(s: &str) -> (r: String)
    ensures
        r@ == lowercase_text(s@),
        is_ascii_text(s@) ==> r@ == text::lower(s@),
{
    s.to_lowercase()
}

pub open spec fn is_ascii_text(s: Seq<char>) -> bool {
    forall|k: int| 0 <= k < s.len() ==> (#[trigger] s[k] as u32) < 0x80
}

/// True of a capital: in ASCII a letter from `A` to `Z`.
pub open spec fn is_capital(c: char) -> bool {
    if (c as u32) < 0x80 {
        'A' <= c && c <= 'Z'
    } else {
        uppercase(c)
    }
}

/// A text without its capitals: in ASCII text each letter from `A` to `Z` is lowered.
pub open spec fn uncapitalized(s: Seq<char>) -> Seq<char> {
    if is_ascii_text(s) {
        text::lower(s)
    } else {
        lowercase_text(s)
    }
}

/// Where the search goes on behind a match at `i`.
pub open spec fn next_start(needle: Seq<char>, i: int) -> int {
    if needle.len() > 0 {
        i + needle.len()
    } else {
        i + 1
    }
}

/// The positions of the occurrences of `needle` from `from` on, none of which overlaps
/// the one before it.
pub open spec fn positions(hay: Seq<char>, needle: Seq<char>, from: int) -> Seq<int>
    decreases hay.len() + 1 - from,
    when 0 <= from
    via positions_decreases
{
    match text::find_from(hay, needle, from) {
        None => Seq::empty(),
        Some(i) => {
            let next = next_start(needle, i);
            seq![i] + (if next >= hay.len() {
                Seq::empty()
            } else {
                positions(hay, needle, next)
            })
        },
    }
}

#[via_fn]
proof fn positions_decreases(hay: Seq<char>, needle: Seq<char>, from: int) {
    text::lemma_find_from(hay, needle, from);
}

/// The match of `needle` at one position of a line, in columns.
pub open spec fn match_at(hay: Seq<char>, needle: Seq<char>, line: usize, i: int) -> Match {
    Match {
        line,
        start: text_width(hay.subrange(0, i)),
        end: text_width(hay.subrange(0, i + needle.len())),
    }
}

/// The matches in one line.
pub open spec fn line_matches(hay: Seq<char>, needle: Seq<char>, line: usize) -> Seq<Match> {
    let at = positions(hay, needle, 0);
    Seq::new(at.len(), |k: int| match_at(hay, needle, line, at[k]))
}

/// True of a query that is taken literally: one with a capital in it.
pub open spec fn is_literal(query: Seq<char>) -> bool {
    exists|k: int| 0 <= k < query.len() && is_capital(#[trigger] query[k])
}

/// A text as it is compared.
pub open spec fn folded(s: Seq<char>, literal: bool) -> Seq<char> {
    if literal {
        s
    } else {
        uncapitalized(s)
    }
}

/// The matches in the first `k` lines.
pub open spec fn matches_upto(lines: Seq<LineV>, query: Seq<char>, k: int) -> Seq<Match>
    decreases k,
{
    if k <= 0 {
        Seq::empty()
    } else {
        let literal = is_literal(query);
        matches_upto(lines, query, k - 1) + line_matches(
            folded(spans_text(lines[k - 1].spans), literal),
            folded(query, literal),
            (k - 1) as usize,
        )
    }
}

/// What a query finds. An empty one finds nothing.
pub open spec fn found(query: Seq<char>, screen: ScreenV) -> Seq<Match> {
    if query.len() == 0 {
        Seq::empty()
    } else {
        matches_upto(screen.lines, query, screen.lines.len() as int)
    }
}

/// Finds every non-overlapping occurrence of `needle` in a line's text.
pub fn find_in(haystack: &str, needle: &str, line: usize) -> (r: Vec<Match>)
    ensures
        r@ == line_matches(haystack@, needle@, line),
{
    let hay = text::chars_of(haystack);
    let pin = text::chars_of(needle);
    let n: usize = hay.len();
    let m: usize = pin.len();
    let ghost all = positions(hay@, pin@, 0);
    let mut out: Vec<Match> = Vec::new();
    let mut from: usize = 0;
    let mut done: bool = false;
    let ghost mut left: Seq<int> = all;
    assert(all.skip(0) =~= all);
    while !done
        invariant
            hay@ == haystack@,
            pin@ == needle@,
            n == hay.len(),
            m == pin.len(),
            from <= n,
            all == positions(hay@, pin@, 0),
            !done ==> left == positions(hay@, pin@, from as int),
            done ==> left.len() == 0,
            out.len() <= all.len(),
            left == all.skip(out@.len() as int),
            forall|k: int|
                0 <= k < out.len() ==> #[trigger] out@[k] == match_at(hay@, pin@, line, all[k]),
        decreases
                n + 1 - from + (if done {
                    0int
                } else {
                    1int
                }),
    {
        proof {
            text::lemma_find_from(hay@, pin@, from as int);
        }
        match text::find_chars(&hay, &pin, from) {
            None => {
                done = true;
            },
            Some(i) => {
                assert(i + m <= hay.len());
                let start = display_width(&text::string_of_range(&hay, 0, i));
                let end = display_width(&text::string_of_range(&hay, 0, i + m));
                assert(left.len() > 0 && left[0] == i);
                assert(left.len() == all.len() - out@.len());
                assert(all[out@.len() as int] == left[0]);
                out.push(Match { line, start, end });
                let ghost rest = left.skip(1);
                let past = if m > 0 {
                    i + m >= n
                } else {
                    n - i <= 1
                };
                if past {
                    assert(rest =~= Seq::empty());
                    done = true;
                } else {
                    from = if m > 0 {
                        i + m
                    } else {
                        i + 1
                    };
                    assert(rest =~= positions(hay@, pin@, from as int));
                }
                proof {
                    assert(all.skip(out@.len() as int) =~= rest);
                    left = rest;
                }
            },
        }
    }
    assert(out.len() == all.len());
    assert(out@ =~= line_matches(haystack@, needle@, line));
    out
}

fn has_capital(query: &str) -> (r: bool)
    ensures
        r == is_literal(query@),
{
    let v = text::chars_of(query);
    for i in 0..v.len()
        invariant
            v@ == query@,
            forall|k: int| 0 <= k < i ==> !is_capital(#[trigger] v@[k]),
    {
        if v[i].is_uppercase() {
            assert(is_capital(query@[i as int]));
            return true;
        }
    }
    false
}

fn fold(s: &str, literal: bool) -> (r: String)
    ensures
        r@ == folded(s@, literal),
{
    if literal {
        text::owned(s)
    } else {
        lowercased(s)
    }
}

/// Finds every occurrence of `query` in some lines.
///
/// Case handling follows the "smart case" convention: an all-lowercase query matches
/// any case, and a query with a capital in it is taken literally.
pub fn find_all(query: &str, lines: &Vec<Line>) -> (r: Vec<Match>)
    ensures
        r@ == matches_upto(lines_view(lines@), query@, lines@.len() as int),
{
    let ghost v = lines_view(lines@);
    let literal = has_capital(query);
    let needle = fold(query, literal);
    let mut out: Vec<Match> = Vec::new();
    for i in 0..lines.len()
        invariant
            v == lines_view(lines@),
            literal == is_literal(query@),
            needle@ == folded(query@, literal),
            out@ == matches_upto(v, query@, i as int),
    {
        assert(v[i as int] == lines@[i as int]@);
        let hay = fold(&lines[i].text(), literal);
        let mut more = find_in(&hay, &needle, i);
        out.append(&mut more);
    }
    out
}

/// No occurrence is passed over: each is one of those that are found, or overlaps one
/// that was found before it.
pub proof fn every_occurrence_is_found(hay: Seq<char>, needle: Seq<char>, from: int, i: int) -> (k:
    int)
    requires
        0 <= from <= i,
        needle.len() > 0,
        text::occurs_at(hay, needle, i),
    ensures
        0 <= k < positions(hay, needle, from).len(),
        positions(hay, needle, from)[k] <= i < positions(hay, needle, from)[k] + needle.len(),
    decreases hay.len() + 1 - from,
{
    text::lemma_find_from(hay, needle, from);
    lemma_first_occurrence(hay, needle, from, i);
    let at = text::find_from(hay, needle, from)->0;
    let next = at + needle.len();
    if i < next {
        0
    } else {
        let k = every_occurrence_is_found(hay, needle, next, i);
        assert(positions(hay, needle, from)[k + 1] == positions(hay, needle, next)[k]);
        k + 1
    }
}

proof fn lemma_first_occurrence(hay: Seq<char>, needle: Seq<char>, from: int, i: int)
    requires
        0 <= from <= i,
        text::occurs_at(hay, needle, i),
    ensures
        text::find_from(hay, needle, from) matches Some(at) && from <= at <= i
            && text::occurs_at(hay, needle, at),
    decreases i - from,
{
    if !text::occurs_at(hay, needle, from) {
        lemma_first_occurrence(hay, needle, from + 1, i);
    }
}

/// A query without a capital matches any case: where the lines of two ASCII pages differ
/// in nothing but the case of their letters, it finds the same in both.
pub proof fn small_letters_match_any_case(query: Seq<char>, a: Seq<LineV>, b: Seq<LineV>, k: int)
    requires
        !is_literal(query),
        0 <= k <= a.len(),
        a.len() == b.len(),
        forall|i: int|
            #![trigger a[i]]
            #![trigger b[i]]
            0 <= i < a.len() ==> is_ascii_text(spans_text(a[i].spans)) && is_ascii_text(
                spans_text(b[i].spans),
            ) && text::lower(spans_text(a[i].spans)) == text::lower(spans_text(b[i].spans)),
    ensures
        matches_upto(a, query, k) == matches_upto(b, query, k),
    decreases k,
{
    if k > 0 {
        small_letters_match_any_case(query, a, b, k - 1);
        assert(a[k - 1] == a[k - 1] && b[k - 1] == b[k - 1]);
    }
}

// --- moving between matches -----------------------------------------------------------

/// The first match at or below a line, from index `k` on; the first of all where there
/// is none.
pub open spec fn first_from(matches: Seq<Match>, line: int, k: int) -> int
    decreases matches.len() - k,
{
    if k < 0 || k >= matches.len() {
        0
    } else if matches[k].line >= line {
        k
    } else {
        first_from(matches, line, k + 1)
    }
}

/// The match after this one, wrapping.
pub open spec fn after_current(s: SearchV) -> int {
    if s.current + 1 >= s.matches.len() {
        0
    } else {
        s.current + 1
    }
}

/// The match before this one, wrapping.
pub open spec fn before_current(s: SearchV) -> int {
    if s.current == 0 {
        s.matches.len() - 1
    } else {
        s.current - 1
    }
}

/// A search that focuses another match, where there are any.
pub open spec fn focusing(s: SearchV, at: int) -> SearchV {
    if s.matches.len() == 0 {
        s
    } else {
        SearchV { current: at, ..s }
    }
}

/// The match that is focused.
pub open spec fn focus_of(s: SearchV) -> Option<Match> {
    if 0 <= s.current < s.matches.len() {
        Some(s.matches[s.current])
    } else {
        None
    }
}

/// The matches on one line among the first `k`, each with whether it is focused.
pub open spec fn marked_upto(s: SearchV, line: int, k: int) -> Seq<(Match, bool)>
    decreases k,
{
    if k <= 0 {
        Seq::empty()
    } else {
        let before = marked_upto(s, line, k - 1);
        let m = s.matches[k - 1];
        if m.line == line {
            before.push((m, focus_of(s) == Some(m)))
        } else {
            before
        }
    }
}

pub open spec fn marked(s: SearchV, line: int) -> Seq<(Match, bool)> {
    marked_upto(s, line, s.matches.len() as int)
}

impl Search {
    pub open spec fn wf(&self) -> bool {
        self@.wf()
    }

    /// Runs a query over a screen.
    pub fn new(query: &str, screen: &Screen) -> (r: Search)
        ensures
            r.wf(),
            r@ == (SearchV { query: query@, matches: found(query@, screen@), current: 0 }),
    {
        let matches = if query.is_empty() {
            Vec::new()
        } else {
            find_all(query, &screen.lines)
        };
        assert(matches@ =~= found(query@, screen@));
        Search { query: text::owned(query), matches, current: 0 }
    }

    pub fn is_empty(&self) -> (r: bool)
        ensures
            r == (self@.matches.len() == 0),
    {
        self.matches.len() == 0
    }

    pub fn len(&self) -> (r: usize)
        ensures
            r == self@.matches.len(),
    {
        self.matches.len()
    }

    /// Focuses the first match at or after `line`, wrapping around the end.
    pub fn focus_from(&mut self, line: usize) -> (r: Option<Match>)
        requires
            old(self).wf(),
        ensures
            final(self).wf(),
            final(self)@ == focusing(old(self)@, first_from(old(self)@.matches, line as int, 0)),
            r == focus_of(final(self)@),
    {
        if self.matches.len() == 0 {
            return None;
        }
        let mut i: usize = 0;
        while i < self.matches.len() && self.matches[i].line < line
            invariant
                i <= self.matches.len(),
                first_from(self.matches@, line as int, i as int) == first_from(
                    self.matches@,
                    line as int,
                    0,
                ),
            decreases self.matches.len() - i,
        {
            i = i + 1;
        }
        self.current = if i < self.matches.len() {
            i
        } else {
            0
        };
        Some(self.matches[self.current])
    }

    /// Moves to the next match, wrapping.
    pub fn advance(&mut self) -> (r: Option<Match>)
        requires
            old(self).wf(),
        ensures
            final(self).wf(),
            final(self)@ == focusing(old(self)@, after_current(old(self)@)),
            r == focus_of(final(self)@),
    {
        if self.matches.len() == 0 {
            return None;
        }
        self.current = if self.current + 1 >= self.matches.len() {
            0
        } else {
            self.current + 1
        };
        Some(self.matches[self.current])
    }

    /// Moves to the previous match, wrapping.
    pub fn retreat(&mut self) -> (r: Option<Match>)
        requires
            old(self).wf(),
        ensures
            final(self).wf(),
            final(self)@ == focusing(old(self)@, before_current(old(self)@)),
            r == focus_of(final(self)@),
    {
        if self.matches.len() == 0 {
            return None;
        }
        self.current = if self.current == 0 {
            self.matches.len() - 1
        } else {
            self.current - 1
        };
        Some(self.matches[self.current])
    }

    pub fn focused(&self) -> (r: Option<Match>)
        ensures
            r == focus_of(self@),
    {
        if self.current < self.matches.len() {
            Some(self.matches[self.current])
        } else {
            None
        }
    }

    /// The matches that fall on one line, each with whether it is the focused one.
    pub fn on_line(&self, line: usize) -> (r: Vec<(Match, bool)>)
        ensures
            r@ == marked(self@, line as int),
    {
        let focused = self.focused();
        let mut out: Vec<(Match, bool)> = Vec::new();
        for i in 0..self.matches.len()
            invariant
                focused == focus_of(self@),
                out@ == marked_upto(self@, line as int, i as int),
        {
            let m = self.matches[i];
            if m.line == line {
                let here = match focused {
                    Some(f) => f == m,
                    None => false,
                };
                out.push((m, here));
            }
        }
        out
    }
}

// --- highlighting -----------------------------------------------------------------------

/// Whether the first range over a column is the focused one, if there is such a range.
pub open spec fn over(ranges: Seq<(Match, bool)>, column: int, k: int) -> Option<bool>
    decreases ranges.len() - k,
{
    if k < 0 || k >= ranges.len() {
        None
    } else if ranges[k].0.start <= column < ranges[k].0.end {
        Some(ranges[k].1)
    } else {
        over(ranges, column, k + 1)
    }
}

/// The styles of a highlight.
pub struct PenV {
    pub ranges: Seq<(Match, bool)>,
    pub normal: Style,
    pub focused: Style,
}

/// The style of a grapheme at a column.
pub open spec fn lit_style(pen: PenV, style: Style, column: int) -> Style {
    match over(pen.ranges, column, 0) {
        Some(true) => style.merged(pen.focused),
        Some(false) => style.merged(pen.normal),
        None => style,
    }
}

/// Highlighting in progress: the spans so far, what is not in one yet, and the column.
pub struct LitV {
    pub out: Seq<SpanV>,
    pub buffer: Seq<char>,
    pub style: Style,
    pub column: int,
}

/// What is in the buffer as a span.
pub open spec fn flushed(l: LitV, link: Option<usize>) -> Seq<SpanV> {
    if l.buffer.len() > 0 {
        l.out.push(SpanV { text: l.buffer, style: l.style, link })
    } else {
        l.out
    }
}

/// The columns that a grapheme moves on by.
pub open spec fn advance_of(g: Seq<char>) -> int {
    if text_width(g) < 1 {
        1
    } else {
        text_width(g) as int
    }
}

/// One grapheme of a span.
pub open spec fn lit_grapheme(l: LitV, g: Seq<char>, span: SpanV, pen: PenV) -> LitV {
    let style = lit_style(pen, span.style, l.column);
    let column = sat(l.column + advance_of(g));
    if style != l.style && l.buffer.len() > 0 {
        LitV { out: flushed(l, span.link), buffer: g, style, column }
    } else {
        LitV { out: l.out, buffer: l.buffer + g, style, column }
    }
}

/// The first `k` graphemes of a span.
pub open spec fn lit_graphemes(l: LitV, gs: Seq<Seq<char>>, k: int, span: SpanV, pen: PenV) -> LitV
    decreases k,
{
    if k <= 0 {
        l
    } else {
        lit_grapheme(lit_graphemes(l, gs, k - 1, span, pen), gs[k - 1], span, pen)
    }
}

/// The first `k` spans.
pub open spec fn lit_spans(spans: Seq<SpanV>, k: int, base: int, pen: PenV) -> LitV
    decreases k,
{
    if k <= 0 {
        LitV { out: Seq::empty(), buffer: Seq::empty(), style: pen.normal, column: base }
    } else {
        let before = lit_spans(spans, k - 1, base, pen);
        let span = spans[k - 1];
        let gs = grapheme_clusters(span.text);
        let l = lit_graphemes(
            LitV {
                out: before.out,
                buffer: Seq::empty(),
                style: span.style,
                column: before.column,
            },
            gs,
            gs.len() as int,
            span,
            pen,
        );
        LitV { out: flushed(l, span.link), buffer: Seq::empty(), ..l }
    }
}

/// Spans with the ranges highlighted that fall on them.
pub open spec fn lit(spans: Seq<SpanV>, base: int, pen: PenV) -> Seq<SpanV> {
    if pen.ranges.len() == 0 {
        spans
    } else {
        merged(lit_spans(spans, spans.len() as int, base, pen).out)
    }
}

fn range_over(ranges: &Vec<(Match, bool)>, column: usize) -> (r: Option<bool>)
    ensures
        r == over(ranges@, column as int, 0),
{
    let mut k: usize = 0;
    while k < ranges.len() && !(ranges[k].0.start <= column && column < ranges[k].0.end)
        invariant
            k <= ranges.len(),
            over(ranges@, column as int, k as int) == over(ranges@, column as int, 0),
        decreases ranges.len() - k,
    {
        k = k + 1;
    }
    if k < ranges.len() {
        Some(ranges[k].1)
    } else {
        None
    }
}

/// Applies search highlighting to spans that have already been sliced for the viewport.
/// The text itself stays as it is.
///
/// `base_col` is the display column the first span starts at, so that the ranges --
/// which are in document columns -- line up with what is on screen.
pub fn highlight(
    spans: Vec<Span>,
    base_col: usize,
    ranges: &Vec<(Match, bool)>,
    normal: Style,
    focused: Style,
) -> (r: Vec<Span>)
    ensures
        spans_view(r@) == lit(
            spans_view(spans@),
            base_col as int,
            (PenV { ranges: ranges@, normal, focused }),
        ),
        spans_text(spans_view(r@)) == spans_text(spans_view(spans@)),
{
    let ghost pen = PenV { ranges: ranges@, normal, focused };
    let ghost v = spans_view(spans@);
    if ranges.len() == 0 {
        return spans;
    }
    let mut out: Vec<Span> = Vec::new();
    let mut column: usize = base_col;
    assert(spans_view(out@) =~= Seq::empty());
    assert(v.take(0) =~= Seq::empty());
    for i in 0..spans.len()
        invariant
            v == spans_view(spans@),
            pen == (PenV { ranges: ranges@, normal, focused }),
            spans_view(out@) == lit_spans(v, i as int, base_col as int, pen).out,
            column == lit_spans(v, i as int, base_col as int, pen).column,
            spans_text(spans_view(out@)) == spans_text(v.take(i as int)),
    {
        let span = &spans[i];
        assert(v[i as int] == span@);
        let ghost before = lit_spans(v, i as int, base_col as int, pen);
        let gs = graphemes(&span.text);
        let ghost gv = text::views(gs@);
        let ghost start = LitV {
            out: before.out,
            buffer: Seq::empty(),
            style: span.style,
            column: before.column,
        };
        let mut buffer = String::new();
        let mut buffer_style = span.style;
        assert(gv.take(0).flatten() =~= Seq::empty());
        assert(spans_text(spans_view(out@)) + Seq::<char>::empty() =~= spans_text(
            v.take(i as int),
        ) + Seq::<char>::empty());
        for k in 0..gs.len()
            invariant
                span@ == v[i as int],
                gv == text::views(gs@),
                pen == (PenV { ranges: ranges@, normal, focused }),
                (LitV {
                    out: spans_view(out@),
                    buffer: buffer@,
                    style: buffer_style,
                    column: column as int,
                }) == lit_graphemes(start, gv, k as int, span@, pen),
                spans_text(spans_view(out@)) + buffer@ == spans_text(v.take(i as int)) + gv.take(
                    k as int,
                ).flatten(),
        {
            assert(gv[k as int] == gs@[k as int]@);
            let g = &gs[k];
            let w = display_width(g);
            let style = match range_over(ranges, column) {
                Some(is_focused) => span.style.merge(
                    if is_focused {
                        focused
                    } else {
                        normal
                    },
                ),
                None => span.style,
            };
            let ghost before_out = spans_view(out@);
            let ghost before_buffer = buffer@;
            if style != buffer_style && !buffer.as_str().is_empty() {
                let full = Span::new(buffer, buffer_style, span.link);
                let ghost fv = full@;
                out.push(full);
                assert(spans_view(out@) =~= before_out.push(fv));
                assert(before_out.push(fv).drop_last() =~= before_out);
                buffer = String::new();
                assert(buffer@ + g@ =~= g@);
            }
            buffer_style = style;
            buffer.push_str(g);
            column = column.saturating_add(
                if w < 1 {
                    1
                } else {
                    w
                },
            );
            proof {
                assert(gv.take(k + 1) =~= gv.take(k as int).push(g@));
                lemma_flatten_push(gv.take(k as int), g@);
                assert(spans_text(spans_view(out@)) + buffer@ =~= spans_text(v.take(i as int))
                    + gv.take(k as int).flatten() + g@);
                assert(spans_text(v.take(i as int)) + gv.take(k as int).flatten() + g@
                    =~= spans_text(v.take(i as int)) + gv.take(k + 1).flatten());
            }
        }
        assert(gv.take(gv.len() as int) =~= gv);
        let ghost before_out = spans_view(out@);
        if !buffer.as_str().is_empty() {
            let full = Span::new(buffer, buffer_style, span.link);
            let ghost fv = full@;
            out.push(full);
            assert(spans_view(out@) =~= before_out.push(fv));
            assert(before_out.push(fv).drop_last() =~= before_out);
        } else {
            assert(spans_text(before_out) + buffer@ =~= spans_text(before_out));
        }
        assert(v.take(i + 1).drop_last() =~= v.take(i as int));
    }
    assert(v.take(spans@.len() as int) =~= v);
    proof {
        merging_keeps_the_text(spans_view(out@));
    }
    merge_spans(out)
}

// --- laws -------------------------------------------------------------------------------

/// No match overlaps the one before it, and each is where the text really is.
pub proof fn matches_do_not_overlap(hay: Seq<char>, needle: Seq<char>, from: int)
    requires
        0 <= from,
        needle.len() > 0,
    ensures
        forall|k: int|
            0 <= k < positions(hay, needle, from).len() ==> from <= (#[trigger] positions(
                hay,
                needle,
                from,
            )[k]) && text::occurs_at(hay, needle, positions(hay, needle, from)[k]),
        forall|j: int, k: int|
            0 <= j < k < positions(hay, needle, from).len() ==> (#[trigger] positions(
                hay,
                needle,
                from,
            )[j]) + needle.len() <= (#[trigger] positions(hay, needle, from)[k]),
    decreases hay.len() + 1 - from,
{
    text::lemma_find_from(hay, needle, from);
    match text::find_from(hay, needle, from) {
        None => {},
        Some(i) => {
            let next = next_start(needle, i);
            let all = positions(hay, needle, from);
            if next < hay.len() {
                matches_do_not_overlap(hay, needle, next);
                let rest = positions(hay, needle, next);
                assert forall|k: int| 0 <= k < all.len() implies from <= (#[trigger] all[k])
                    && text::occurs_at(hay, needle, all[k]) by {
                    if k > 0 {
                        assert(all[k] == rest[k - 1]);
                    }
                }
                assert forall|j: int, k: int| 0 <= j < k < all.len() implies (#[trigger] all[j])
                    + needle.len() <= (#[trigger] all[k]) by {
                    assert(all[k] == rest[k - 1]);
                    if j > 0 {
                        assert(all[j] == rest[j - 1]);
                    }
                }
            }
        },
    }
}

/// Moving to the next match and back again ends where it started, in both orders.
pub proof fn moving_there_and_back(s: SearchV)
    requires
        s.wf(),
    ensures
        focusing(
            focusing(s, after_current(s)),
            before_current(focusing(s, after_current(s))),
        ) == s,
        focusing(
            focusing(s, before_current(s)),
            after_current(focusing(s, before_current(s))),
        ) == s,
{
}

/// The first `k` matches, each with whether it is focused.
pub open spec fn all_marked(s: SearchV, k: int) -> Seq<(Match, bool)> {
    Seq::new(k as nat, |i: int| (s.matches[i], focus_of(s) == Some(s.matches[i])))
}

/// The marks of the first `n` lines, one line after the other.
pub open spec fn marks_of_lines(s: SearchV, n: int) -> Seq<(Match, bool)>
    decreases n,
{
    if n <= 0 {
        Seq::empty()
    } else {
        marks_of_lines(s, n - 1) + marked(s, n - 1)
    }
}

/// The first `k` matches that are above line `n`.
spec fn marked_above(s: SearchV, n: int, k: int) -> Seq<(Match, bool)>
    decreases k,
{
    if k <= 0 {
        Seq::empty()
    } else {
        let before = marked_above(s, n, k - 1);
        let m = s.matches[k - 1];
        if m.line < n {
            before.push((m, focus_of(s) == Some(m)))
        } else {
            before
        }
    }
}

/// True of matches that go down the page, within its first `n` lines.
pub open spec fn down_the_page(matches: Seq<Match>, n: int) -> bool {
    &&& forall|i: int| 0 <= i < matches.len() ==> (#[trigger] matches[i]).line < n
    &&& forall|i: int, j: int|
        0 <= i <= j < matches.len() ==> (#[trigger] matches[i]).line <= (#[trigger] matches[j]).line
}

proof fn lemma_matches_upto(lines: Seq<LineV>, query: Seq<char>, k: int)
    requires
        0 <= k <= lines.len() <= usize::MAX,
    ensures
        down_the_page(matches_upto(lines, query, k), k),
    decreases k,
{
    if k > 0 {
        lemma_matches_upto(lines, query, k - 1);
    }
}

proof fn lemma_none_marked(s: SearchV, line: int, k: int)
    requires
        0 <= k <= s.matches.len(),
        forall|i: int| 0 <= i < k ==> (#[trigger] s.matches[i]).line != line,
    ensures
        marked_upto(s, line, k) == Seq::<(Match, bool)>::empty(),
    decreases k,
{
    if k > 0 {
        lemma_none_marked(s, line, k - 1);
    }
}

proof fn lemma_marked_above(s: SearchV, bound: int, n: int, k: int)
    requires
        down_the_page(s.matches, bound),
        0 <= k <= s.matches.len(),
    ensures
        marked_above(s, n, k) == marked_above(s, n - 1, k) + marked_upto(s, n - 1, k),
    decreases k,
{
    if k > 0 {
        lemma_marked_above(s, bound, n, k - 1);
        let m = s.matches[k - 1];
        let mark = (m, focus_of(s) == Some(m));
        if m.line < n - 1 {
            assert forall|i: int| 0 <= i < k implies (#[trigger] s.matches[i]).line != n - 1 by {
                assert(s.matches[i].line <= s.matches[k - 1].line);
            }
            lemma_none_marked(s, n - 1, k);
            lemma_none_marked(s, n - 1, k - 1);
            assert(marked_above(s, n, k - 1) =~= marked_above(s, n - 1, k - 1));
            assert(marked_above(s, n, k) =~= marked_above(s, n - 1, k) + marked_upto(s, n - 1, k));
        } else if m.line == n - 1 {
            assert(marked_above(s, n - 1, k - 1) + marked_upto(s, n - 1, k - 1).push(mark) =~= (
            marked_above(s, n - 1, k - 1) + marked_upto(s, n - 1, k - 1)).push(mark));
        }
    } else {
        assert(marked_above(s, n, 0) =~= marked_above(s, n - 1, 0) + marked_upto(s, n - 1, 0));
    }
}

proof fn lemma_above_bounds(s: SearchV, n: int, k: int)
    requires
        0 <= k <= s.matches.len(),
    ensures
        n <= 0 ==> marked_above(s, n, k) == Seq::<(Match, bool)>::empty(),
        (forall|i: int| 0 <= i < k ==> (#[trigger] s.matches[i]).line < n) ==> marked_above(s, n, k)
            == all_marked(s, k),
    decreases k,
{
    if k > 0 {
        lemma_above_bounds(s, n, k - 1);
        if forall|i: int| 0 <= i < k ==> (#[trigger] s.matches[i]).line < n {
            assert(s.matches[k - 1].line < n);
            assert(marked_above(s, n, k) =~= all_marked(s, k));
        }
    } else {
        assert(all_marked(s, 0) =~= Seq::empty());
    }
}

proof fn lemma_marks_of_lines(s: SearchV, bound: int, n: int)
    requires
        down_the_page(s.matches, bound),
        0 <= n,
    ensures
        marks_of_lines(s, n) == marked_above(s, n, s.matches.len() as int),
    decreases n,
{
    let all = s.matches.len() as int;
    if n > 0 {
        lemma_marks_of_lines(s, bound, n - 1);
        lemma_marked_above(s, bound, n, all);
    } else {
        lemma_above_bounds(s, n, all);
    }
}

proof fn lemma_marked_line(s: SearchV, line: int, k: int)
    requires
        0 <= k <= s.matches.len(),
    ensures
        forall|i: int|
            0 <= i < marked_upto(s, line, k).len() ==> (#[trigger] marked_upto(s, line, k)[i]).0.line
                == line,
    decreases k,
{
    if k > 0 {
        lemma_marked_line(s, line, k - 1);
        let before = marked_upto(s, line, k - 1);
        let all = marked_upto(s, line, k);
        assert forall|i: int| 0 <= i < all.len() implies (#[trigger] all[i]).0.line == line by {
            if i < before.len() {
                assert(all[i] == before[i]);
            }
        }
    }
}

/// The lines of a page share its matches out: one after the other they give every match
/// of a search once, in order and on its own line, wherever the focus is. What is
/// marked as focused is what equals the focused match.
pub proof fn lines_share_the_matches(s: SearchV, screen: ScreenV)
    requires
        s.matches == found(s.query, screen),
        screen.lines.len() <= usize::MAX,
    ensures
        marks_of_lines(s, screen.lines.len() as int) == all_marked(s, s.matches.len() as int),
        forall|line: int, i: int|
            0 <= i < marked(s, line).len() ==> (#[trigger] marked(s, line)[i]).0.line == line,
{
    let n = screen.lines.len() as int;
    lemma_matches_upto(screen.lines, s.query, n);
    assert(down_the_page(s.matches, n));
    lemma_marks_of_lines(s, n, n);
    lemma_above_bounds(s, n, s.matches.len() as int);
    assert forall|line: int, i: int| 0 <= i < marked(s, line).len() implies (#[trigger] marked(
        s,
        line,
    )[i]).0.line == line by {
        lemma_marked_line(s, line, s.matches.len() as int);
    }
}

// --- what is lit ------------------------------------------------------------------------------

/// One style for each of `n` characters.
pub open spec fn styles_of(n: nat, s: Style) -> Seq<Style>
    decreases n,
{
    if n == 0 {
        Seq::empty()
    } else {
        styles_of((n - 1) as nat, s).push(s)
    }
}

/// The style of each character of a run of spans.
pub open spec fn char_styles(spans: Seq<SpanV>) -> Seq<Style>
    decreases spans.len(),
{
    if spans.len() == 0 {
        Seq::empty()
    } else {
        char_styles(spans.drop_last()) + styles_of(spans.last().text.len(), spans.last().style)
    }
}

proof fn lemma_styles_of(n: nat, s: Style)
    ensures
        styles_of(n, s).len() == n,
        forall|i: int| 0 <= i < n ==> #[trigger] styles_of(n, s)[i] == s,
    decreases n,
{
    if n > 0 {
        lemma_styles_of((n - 1) as nat, s);
    }
}

proof fn lemma_styles_add(a: nat, b: nat, s: Style)
    ensures
        styles_of(a + b, s) == styles_of(a, s) + styles_of(b, s),
{
    lemma_styles_of(a + b, s);
    lemma_styles_of(a, s);
    lemma_styles_of(b, s);
    assert(styles_of(a + b, s) =~= styles_of(a, s) + styles_of(b, s));
}

proof fn lemma_char_styles_push(spans: Seq<SpanV>, x: SpanV)
    ensures
        char_styles(spans.push(x)) == char_styles(spans) + styles_of(x.text.len(), x.style),
{
    assert(spans.push(x).drop_last() =~= spans);
}

proof fn lemma_char_styles_len(spans: Seq<SpanV>)
    ensures
        char_styles(spans).len() == spans_text(spans).len(),
    decreases spans.len(),
{
    if spans.len() > 0 {
        lemma_char_styles_len(spans.drop_last());
        lemma_styles_of(spans.last().text.len(), spans.last().style);
    }
}

/// Merging spans leaves every character its style.
pub proof fn merging_keeps_the_styles(s: Seq<SpanV>)
    ensures
        char_styles(merged(s)) == char_styles(s),
    decreases s.len(),
{
    if s.len() > 0 {
        merging_keeps_the_styles(s.drop_last());
        let m = merged(s.drop_last());
        let x = s.last();
        if x.text.len() == 0 {
            assert(char_styles(m) + styles_of(0, x.style) =~= char_styles(m));
        } else if m.len() > 0 && crate::render::alike(m.last(), x) {
            let y = SpanV { text: m.last().text + x.text, ..m.last() };
            lemma_char_styles_push(m.drop_last(), y);
            lemma_styles_add(m.last().text.len(), x.text.len(), x.style);
            assert(char_styles(m) == char_styles(m.drop_last()) + styles_of(
                m.last().text.len(),
                x.style,
            ));
            assert(char_styles(m.drop_last().push(y)) =~= char_styles(m) + styles_of(
                x.text.len(),
                x.style,
            ));
        } else {
            lemma_char_styles_push(m, x);
        }
    }
}

/// The styles of what has been written and of what is held back.
spec fn styles_so_far(l: LitV) -> Seq<Style> {
    char_styles(l.out) + styles_of(l.buffer.len(), l.style)
}

proof fn lemma_flushed_styles(l: LitV, link: Option<usize>)
    ensures
        char_styles(flushed(l, link)) == styles_so_far(l),
{
    if l.buffer.len() > 0 {
        lemma_char_styles_push(l.out, SpanV { text: l.buffer, style: l.style, link });
    } else {
        assert(char_styles(l.out) + styles_of(0, l.style) =~= char_styles(l.out));
    }
}

proof fn lemma_lit_one(l: LitV, c: char, span: SpanV, pen: PenV)
    requires
        is_plain_char(c),
        char_columns(c) == 1,
        0 <= l.column < usize::MAX,
    ensures
        ({
            let r = lit_grapheme(l, seq![c], span, pen);
            &&& r.column == l.column + 1
            &&& styles_so_far(r) == styles_so_far(l).push(lit_style(pen, span.style, l.column))
        }),
{
    let g = seq![c];
    assert(g.drop_last() =~= Seq::empty());
    assert(columns_of(Seq::empty()) == 0);
    plain_text_adds_up(g);
    let style = lit_style(pen, span.style, l.column);
    let r = lit_grapheme(l, g, span, pen);
    lemma_flushed_styles(l, span.link);
    let one = styles_of(1, style);
    reveal_with_fuel(styles_of, 2);
    assert(one =~= seq![style]);
    if style != l.style && l.buffer.len() > 0 {
        assert(styles_so_far(r) =~= styles_so_far(l).push(style));
    } else {
        lemma_styles_add(l.buffer.len(), 1, style);
        if l.buffer.len() == 0 {
            assert(styles_of(0, l.style) =~= styles_of(0, style));
        }
        assert((l.buffer + g).len() == l.buffer.len() + 1);
        assert(styles_so_far(r) =~= styles_so_far(l).push(style));
    }
}

proof fn lemma_lit_span(l: LitV, k: int, span: SpanV, pen: PenV)
    requires
        0 <= k <= span.text.len(),
        is_narrow(span.text),
        0 <= l.column,
        l.column + span.text.len() <= usize::MAX,
    ensures
        ({
            let r = lit_graphemes(l, singles(span.text), k, span, pen);
            &&& r.column == l.column + k
            &&& styles_so_far(r).len() == styles_so_far(l).len() + k
            &&& forall|i: int|
                0 <= i < styles_so_far(l).len() ==> #[trigger] styles_so_far(r)[i]
                    == styles_so_far(l)[i]
            &&& forall|i: int|
                styles_so_far(l).len() <= i < styles_so_far(r).len() ==> #[trigger] styles_so_far(
                    r,
                )[i] == lit_style(pen, span.style, l.column + i - styles_so_far(l).len())
        }),
    decreases k,
{
    if k > 0 {
        lemma_lit_span(l, k - 1, span, pen);
        let before = lit_graphemes(l, singles(span.text), k - 1, span, pen);
        assert(singles(span.text)[k - 1] == seq![span.text[k - 1]]);
        assert(is_plain_char(span.text[k - 1]) && char_columns(span.text[k - 1]) == 1);
        lemma_lit_one(before, span.text[k - 1], span, pen);
    }
}

proof fn lemma_lit_spans(spans: Seq<SpanV>, k: int, base: int, pen: PenV)
    requires
        0 <= k <= spans.len(),
        forall|i: int| 0 <= i < spans.len() ==> is_narrow((#[trigger] spans[i]).text),
        0 <= base,
        base + spans_text(spans.take(k)).len() <= usize::MAX,
    ensures
        ({
            let r = lit_spans(spans, k, base, pen);
            let was = char_styles(spans.take(k));
            let now = char_styles(r.out);
            &&& r.column == base + was.len()
            &&& now.len() == was.len()
            &&& forall|i: int|
                0 <= i < was.len() ==> #[trigger] now[i] == lit_style(pen, was[i], base + i)
        }),
    decreases k,
{
    if k <= 0 {
        assert(spans.take(0) =~= Seq::empty());
    } else {
        let d = spans.take(k - 1);
        let span = spans[k - 1];
        assert(spans.take(k).drop_last() =~= d);
        assert(spans_text(spans.take(k)) == spans_text(d) + span.text);
        lemma_lit_spans(spans, k - 1, base, pen);
        lemma_char_styles_len(d);
        let before = lit_spans(spans, k - 1, base, pen);
        let start = LitV {
            out: before.out,
            buffer: Seq::empty(),
            style: span.style,
            column: before.column,
        };
        assert(is_narrow(span.text));
        assert forall|i: int| 0 <= i < span.text.len() implies is_plain_char(
            #[trigger] span.text[i],
        ) by {}
        characters_stand_apart(span.text);
        let gs = grapheme_clusters(span.text);
        assert(gs == singles(span.text));
        lemma_lit_span(start, gs.len() as int, span, pen);
        let l = lit_graphemes(start, gs, gs.len() as int, span, pen);
        lemma_flushed_styles(l, span.link);
        assert(char_styles(before.out) + styles_of(0, span.style) =~= char_styles(before.out));
        lemma_styles_of(span.text.len(), span.style);
        let r = lit_spans(spans, k, base, pen);
        let was = char_styles(spans.take(k));
        let now = char_styles(r.out);
        assert(now == styles_so_far(l));
        assert forall|i: int| 0 <= i < was.len() implies #[trigger] now[i] == lit_style(
            pen,
            was[i],
            base + i,
        ) by {
            if i < char_styles(d).len() {
                assert(was[i] == char_styles(d)[i]);
                assert(now[i] == char_styles(before.out)[i]);
            } else {
                assert(was[i] == styles_of(span.text.len(), span.style)[i - char_styles(d).len()]);
            }
        }
    }
}

/// True of a range that a column lies in.
pub open spec fn lies_in(r: (Match, bool), column: int) -> bool {
    r.0.start <= column < r.0.end
}

proof fn lemma_over(ranges: Seq<(Match, bool)>, column: int, k: int, j: int)
    requires
        0 <= j <= k < ranges.len(),
        lies_in(ranges[k], column),
        forall|i: int| j <= i < k ==> !lies_in(#[trigger] ranges[i], column),
    ensures
        over(ranges, column, j) == Some(ranges[k].1),
    decreases k - j,
{
    if j < k {
        lemma_over(ranges, column, k, j + 1);
    }
}

proof fn lemma_over_none(ranges: Seq<(Match, bool)>, column: int, j: int)
    requires
        0 <= j <= ranges.len(),
        forall|i: int| 0 <= i < ranges.len() ==> !lies_in(#[trigger] ranges[i], column),
    ensures
        over(ranges, column, j) is None,
    decreases ranges.len() - j,
{
    if j < ranges.len() {
        lemma_over_none(ranges, column, j + 1);
    }
}

/// Exactly the matches are lit. A character whose column lies in a match has the style of
/// matches over its own, that of the focused one where the match is focused, and every
/// other character keeps its own style.
pub proof fn exactly_the_matches_are_lit(spans: Seq<SpanV>, base: int, pen: PenV, i: int)
    requires
        forall|k: int| 0 <= k < spans.len() ==> is_narrow((#[trigger] spans[k]).text),
        0 <= base,
        base + spans_text(spans).len() <= usize::MAX,
        0 <= i < spans_text(spans).len(),
    ensures
        char_styles(lit(spans, base, pen)).len() == spans_text(spans).len(),
        char_styles(spans).len() == spans_text(spans).len(),
        (forall|k: int| 0 <= k < pen.ranges.len() ==> !lies_in(#[trigger] pen.ranges[k], base + i))
            ==> char_styles(lit(spans, base, pen))[i] == char_styles(spans)[i],
        forall|k: int|
            0 <= k < pen.ranges.len() && lies_in(#[trigger] pen.ranges[k], base + i) && (forall|
                j: int,
            |
                0 <= j < k ==> !lies_in(#[trigger] pen.ranges[j], base + i)) ==> char_styles(
                lit(spans, base, pen),
            )[i] == char_styles(spans)[i].merged(
                if pen.ranges[k].1 {
                    pen.focused
                } else {
                    pen.normal
                },
            ),
{
    let n = spans.len() as int;
    assert(spans.take(n) =~= spans);
    lemma_char_styles_len(spans);
    lemma_lit_spans(spans, n, base, pen);
    let r = lit_spans(spans, n, base, pen);
    merging_keeps_the_styles(r.out);
    if pen.ranges.len() > 0 {
        assert(char_styles(r.out)[i] == lit_style(pen, char_styles(spans)[i], base + i));
    }
    if forall|k: int| 0 <= k < pen.ranges.len() ==> !lies_in(#[trigger] pen.ranges[k], base + i) {
        lemma_over_none(pen.ranges, base + i, 0);
    }
    assert forall|k: int|
        0 <= k < pen.ranges.len() && lies_in(#[trigger] pen.ranges[k], base + i) && (forall|j: int|
            0 <= j < k ==> !lies_in(#[trigger] pen.ranges[j], base + i)) implies char_styles(
        lit(spans, base, pen),
    )[i] == char_styles(spans)[i].merged(
        if pen.ranges[k].1 {
            pen.focused
        } else {
            pen.normal
        },
    ) by {
        lemma_over(pen.ranges, base + i, k, 0);
    }
}

/// Going to the matches from a line on gives the first that is on it or below it, and the
/// first of all where there is none.
pub proof fn the_next_match_is_focused(matches: Seq<Match>, line: int, k: int)
    requires
        0 <= k <= matches.len(),
        forall|i: int| 0 <= i < k ==> (#[trigger] matches[i]).line < line,
    ensures
        ({
            let at = first_from(matches, line, k);
            if exists|i: int| 0 <= i < matches.len() && (#[trigger] matches[i]).line >= line {
                0 <= at < matches.len() && matches[at].line >= line && forall|i: int|
                    0 <= i < at ==> (#[trigger] matches[i]).line < line
            } else {
                at == 0
            }
        }),
    decreases matches.len() - k,
{
    if k < matches.len() && matches[k].line < line {
        the_next_match_is_focused(matches, line, k + 1);
    }
}

} // verus!
