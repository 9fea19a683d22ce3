//! What is read of each kind of block, and in which order a page puts them.
use vstd::prelude::*;

use super::blocks::{
    at_least, at_most, block_drawn, blocks_drawn, bodies_drawn, chunk_tokens, code_base, code_drawn,
    code_line_drawn, code_lines_drawn, code_prefix, code_tokens, expanded, expanded_from,
    figure_cells, figure_drawn, formula_drawn, gutter_width, heading_drawn, heading_lines,
    inline_tokens_of, inlines_tokens, item_blocks_drawn, list_drawn, marked, math_shown, minus,
    pack_steps, packed, terms_drawn, tinted, tokens_of, widest_line, with_destination, EnvV, StateV,
    TokensV,
};
use super::code::StyledLine;
use super::document::{
    content_drawn, document_drawn, footnote_numbers, is_edge, notes_drawn, number_marker,
    references_drawn, short_rule, trimmed_bottom, trimmed_edges, trimmed_top, with_margin,
};
use super::inline::{
    chunks, grapheme_clusters, inked, lemma_inked_append, text_on, text_width, tokens_from,
    with_space, with_word, word_token, wrapped, Align, Kind, TokenV,
};
use super::reading::{
    all_words, clusters_are_the_text, inline_content_is_read, lemma_inked_blank, lemma_marked_text,
    lemma_spans_text_one, lemma_spans_text_push, lemma_tinted_text, lemma_wrapped_read,
    prefixes_come_first, read_inlines, read_line,
};
use super::table::{span_of, DrawnV};
use super::{
    blank_line, filled, line_of, merging_keeps_the_text, plain_span, prefixed, prefixed_all, sat,
    spans_text, LineV, LinkMode, Pictures, SpanV,
};
use crate::markdown::ir::{alert_label, AlertKind, BlockV, DocumentV, ImageRefV, InlineV};
use crate::term::style::Style;
use crate::text;

verus! {

// --- helpers --------------------------------------------------------------------------------

pub(crate) proof fn lemma_text_on_add(a: Seq<LineV>, b: Seq<LineV>)
    ensures
        text_on(a + b) == text_on(a) + text_on(b),
    decreases b.len(),
{
    if b.len() == 0 {
        assert(a + b =~= a);
        assert(text_on(a) + text_on(b) =~= text_on(a));
    } else {
        lemma_text_on_add(a, b.drop_last());
        assert((a + b).drop_last() =~= a + b.drop_last());
        assert(text_on(a) + (text_on(b.drop_last()) + read_line(b.last())) =~= text_on(a) + text_on(
            b.drop_last(),
        ) + read_line(b.last()));
    }
}

proof fn lemma_text_on_one(l: LineV)
    ensures
        text_on(seq![l]) == read_line(l),
{
    assert(seq![l].drop_last() =~= Seq::empty());
    assert(text_on(Seq::<LineV>::empty()) + read_line(l) =~= read_line(l));
}

/// Lines whose texts are blank where they differ from others read the same.
proof fn lemma_prefixed_read(
    lines: Seq<LineV>,
    first: Seq<SpanV>,
    rest: Seq<SpanV>,
    k: int,
)
    requires
        0 <= k <= lines.len(),
        inked(spans_text(rest)) == Seq::<char>::empty(),
    ensures
        inked(text_on(prefixed_all(lines, first, rest).take(k))) == (if k > 0 {
            inked(spans_text(first))
        } else {
            Seq::empty()
        }) + inked(text_on(lines.take(k))),
    decreases k,
{
    let all = prefixed_all(lines, first, rest);
    let none = Seq::<char>::empty();
    if k <= 0 {
        assert(all.take(0) =~= Seq::empty());
        assert(lines.take(0) =~= Seq::empty());
        assert(inked(none) =~= none);
        assert(none + none =~= none);
    } else {
        lemma_prefixed_read(lines, first, rest, k - 1);
        let p = if k == 1 {
            first
        } else {
            rest
        };
        assert(all.take(k).drop_last() =~= all.take(k - 1));
        assert(lines.take(k).drop_last() =~= lines.take(k - 1));
        assert(all.take(k).last() == prefixed(lines[k - 1], p));
        prefixes_come_first(lines[k - 1], p);
        lemma_inked_append(text_on(all.take(k - 1)), read_line(prefixed(lines[k - 1], p)));
        lemma_inked_append(spans_text(p), read_line(lines[k - 1]));
        lemma_inked_append(text_on(lines.take(k - 1)), read_line(lines[k - 1]));
        let before = inked(text_on(lines.take(k - 1)));
        let own = inked(read_line(lines[k - 1]));
        if k == 1 {
            assert(lines.take(0) =~= Seq::empty());
            assert(before =~= none);
            assert(none + none + (inked(spans_text(first)) + own) =~= inked(spans_text(first)) + (
            none + own));
        } else {
            assert(inked(spans_text(first)) + before + (none + own) =~= inked(spans_text(first)) + (
            before + own));
        }
    }
}

pub(crate) proof fn lemma_prefixed_all(lines: Seq<LineV>, first: Seq<SpanV>, rest: Seq<SpanV>)
    requires
        lines.len() > 0,
        inked(spans_text(rest)) == Seq::<char>::empty(),
    ensures
        inked(text_on(prefixed_all(lines, first, rest))) == inked(spans_text(first)) + inked(
            text_on(lines),
        ),
{
    let n = lines.len() as int;
    lemma_prefixed_read(lines, first, rest, n);
    assert(prefixed_all(lines, first, rest).take(n) =~= prefixed_all(lines, first, rest));
    assert(lines.take(n) =~= lines);
}

pub(crate) proof fn lemma_spaces(n: nat)
    ensures
        inked(text::spaces(n)) == Seq::<char>::empty(),
        spans_text(seq![plain_span(text::spaces(n))]) == text::spaces(n),
        inked(spans_text(seq![plain_span(text::spaces(n))])) == Seq::<char>::empty(),
{
    lemma_inked_blank(text::spaces(n));
    lemma_spans_text_one(plain_span(text::spaces(n)));
}

proof fn lemma_wrapped_some(tokens: Seq<TokenV>, width: int, align: Align)
    ensures
        wrapped(tokens, width, align).len() > 0,
{
}

// --- headings ---------------------------------------------------------------------------------

/// The mark of a heading: as many number signs as its level.
pub open spec fn signs(n: nat) -> Seq<char> {
    Seq::new(n, |k: int| '#')
}

proof fn lemma_signs(n: nat)
    ensures
        text::repeated("#"@, n) == signs(n),
        inked(signs(n)) == signs(n),
    decreases n,
{
    reveal_strlit("#");
    if n > 0 {
        let m = (n - 1) as nat;
        lemma_signs(m);
        assert(text::repeated("#"@, n) =~= signs(n));
        assert(signs(n).drop_last() =~= signs(m));
        assert(inked(signs(n)) =~= signs(n));
    } else {
        assert(text::repeated("#"@, n) =~= signs(n));
        assert(inked(signs(n)) =~= signs(n));
    }
}

proof fn lemma_text_on_same(a: Seq<LineV>, b: Seq<LineV>)
    requires
        a.len() == b.len(),
        forall|i: int| 0 <= i < a.len() ==> (#[trigger] a[i]).spans == b[i].spans,
    ensures
        text_on(a) == text_on(b),
    decreases a.len(),
{
    if a.len() > 0 {
        let x = a.drop_last();
        let y = b.drop_last();
        assert forall|i: int| 0 <= i < x.len() implies (#[trigger] x[i]).spans == y[i].spans by {
            assert(x[i] == a[i]);
            assert(y[i] == b[i]);
        }
        lemma_text_on_same(x, y);
        assert(a[a.len() - 1].spans == b[b.len() - 1].spans);
    }
}

/// A heading is read as a number sign for each of its level and its text. Below it, under
/// the two top levels and where that is asked for, stands a rule; and the heading is
/// entered with its level, its text and its id, behind those before it.
pub proof fn headings_are_read(
    e: EnvV,
    level: u8,
    id: Seq<char>,
    content: Seq<InlineV>,
    width: int,
    st: StateV,
) -> (n: int)
    requires
        clusters_are_the_text(),
        e.opts.links != LinkMode::Reference,
    ensures
        ({
            let d = heading_drawn(e, level, id, content, width, st);
            let h = d.st.headings;
            &&& 0 < n <= d.lines.len()
            &&& inked(text_on(d.lines.take(n))) == signs(level as nat) + inked(
                read_inlines(e, content),
            )
            &&& n < d.lines.len() ==> n + 1 == d.lines.len() && e.opts.heading_rules && level <= 2
                && exists|w: nat|
                #[trigger] text::repeated(e.opts.glyphs.heading_rule@, w) == read_line(
                    d.lines[n],
                ) && 0 < w <= width
            &&& h.len() > 0
            &&& h.last().level == level
            &&& h.last().id == id
            &&& d.lines[0].anchor == Some((h.len() - 1) as usize)
        }),
{
    reveal(heading_drawn);
    let d = heading_drawn(e, level, id, content, width, st);
    let style = e.theme.headings@[crate::theme::heading_index(level)];
    let t = tokens_of(e, content, style, st);
    let index = t.st.headings.len() as usize;
    let lines = heading_lines(e, level, t.out, index, width);
    let marks = super::blocks::heading_marks(level);
    let mark_width = text_width(marks) as int;
    let columns = at_least(minus(width, mark_width), 4);
    let body = wrapped(t.out, columns, Align::Left);
    let first = seq![span_of(marks, e.theme.muted.merged(crate::term::style::plain_style()))];
    let rest = seq![plain_span(text::spaces(mark_width as nat))];
    let pre = prefixed_all(body, first, rest);
    lemma_wrapped_some(t.out, columns, Align::Left);
    inline_content_is_read(e, content, style, st);
    lemma_wrapped_read(t.out, columns, Align::Left);
    lemma_spaces(mark_width as nat);
    lemma_prefixed_all(body, first, rest);
    lemma_spans_text_one(first[0]);
    lemma_signs(level as nat);
    reveal_strlit(" ");
    lemma_inked_append(text::repeated("#"@, level as nat), " "@);
    lemma_inked_blank(" "@);
    assert(signs(level as nat) + Seq::<char>::empty() =~= signs(level as nat));
    lemma_text_on_same(lines, pre);
    let n = lines.len() as int;
    assert(d.lines.take(n) =~= lines);
    if n < d.lines.len() {
        let w = at_most(widest_line(lines, n), width) as nat;
        let bar = span_of(text::repeated(e.opts.glyphs.heading_rule@, w), e.theme.heading_rule);
        merging_keeps_the_text(seq![bar]);
        lemma_spans_text_one(bar);
        assert(text::repeated(e.opts.glyphs.heading_rule@, w) == read_line(d.lines[n]));
    }
    n
}

// --- quotes -----------------------------------------------------------------------------------

/// Every line of a quote stands behind a bar and a space, and what stands there is what
/// the quoted blocks draw in the room that leaves. A callout says first which it is.
pub proof fn quotes_are_barred(
    e: EnvV,
    pics: Pictures,
    kind: Option<AlertKind>,
    blocks: Seq<BlockV>,
    width: int,
    st: StateV,
)
    ensures
        ({
            let bar = e.opts.glyphs.quote_bar@;
            let room = at_least(minus(width, sat(text_width(bar) + 1)), 8);
            let inner = blocks_drawn(e, pics, blocks, room, st);
            let d = block_drawn(e, pics, BlockV::BlockQuote { kind, blocks }, width, st);
            let top: int = if kind is Some {
                1
            } else {
                0
            };
            &&& d.st == inner.st
            &&& d.lines.len() == inner.lines.len() + top
            &&& forall|j: int|
                #![trigger inner.lines[j]]
                0 <= j < inner.lines.len() ==> read_line(d.lines[top + j]) == bar + seq![' ']
                    + read_line(inner.lines[j])
            &&& kind matches Some(k) ==> read_line(d.lines[0]) == bar + seq![' '] + alert_label(k)
        }),
{
    reveal_strlit(" ");
    assert(" "@ =~= seq![' ']);
    let bar = e.opts.glyphs.quote_bar@;
    let room = at_least(minus(width, sat(text_width(bar) + 1)), 8);
    let inner = blocks_drawn(e, pics, blocks, room, st);
    let d = block_drawn(e, pics, BlockV::BlockQuote { kind, blocks }, width, st);
    let style = super::blocks::bar_style(e, kind);
    let prefix = seq![span_of(bar, style), plain_span(" "@)];
    assert(prefix.drop_last() =~= seq![span_of(bar, style)]);
    lemma_spans_text_one(span_of(bar, style));
    assert(spans_text(prefix) =~= bar + seq![' ']);
    let top: int = if kind is Some {
        1
    } else {
        0
    };
    assert forall|j: int| #![trigger inner.lines[j]] 0 <= j < inner.lines.len() implies read_line(
        d.lines[top + j],
    ) == bar + seq![' '] + read_line(inner.lines[j]) by {
        let shown = match kind {
            Some(_) => inner.lines[j],
            None => tinted(inner.lines, e.theme.quote_text)[j],
        };
        prefixes_come_first(shown, prefix);
        lemma_tinted_text(inner.lines[j].spans, e.theme.quote_text);
    }
    match kind {
        Some(k) => {
            let label = span_of(alert_label(k), style);
            let l = line_of(seq![label]);
            merging_keeps_the_text(seq![label]);
            lemma_spans_text_one(label);
            prefixes_come_first(l, prefix);
        },
        None => {},
    }
}

// --- code -------------------------------------------------------------------------------------

/// The text of the first `k` tokens, end to end.
spec fn token_text(tokens: Seq<TokenV>, k: int) -> Seq<char>
    decreases k,
{
    if k <= 0 {
        Seq::empty()
    } else {
        token_text(tokens, k - 1) + tokens[k - 1].text
    }
}

proof fn lemma_pack(tokens: Seq<TokenV>, k: int, width: int)
    requires
        0 <= k <= tokens.len(),
    ensures
        ({
            let p = pack_steps(tokens, k, width);
            text_on(p.lines) + spans_text(p.spans) == token_text(tokens, k)
        }),
    decreases k,
{
    if k > 0 {
        lemma_pack(tokens, k - 1, width);
        let before = pack_steps(tokens, k - 1, width);
        let t = tokens[k - 1];
        let s = span_of(t.text, t.style);
        let p = pack_steps(tokens, k, width);
        let l = line_of(before.spans);
        merging_keeps_the_text(before.spans);
        assert(before.lines.push(l).drop_last() =~= before.lines);
        lemma_spans_text_push(before.spans, s);
        lemma_spans_text_push(Seq::empty(), s);
        assert(spans_text(Seq::<SpanV>::empty()) + t.text =~= t.text);
        assert(text_on(before.lines) + (spans_text(before.spans) + t.text) =~= text_on(
            before.lines,
        ) + spans_text(before.spans) + t.text);
    } else {
        let p = pack_steps(tokens, k, width);
        assert(text_on(p.lines) + spans_text(p.spans) =~= Seq::empty());
    }
}

proof fn lemma_packed(tokens: Seq<TokenV>, width: int)
    ensures
        text_on(packed(tokens, width)) == token_text(tokens, tokens.len() as int),
        packed(tokens, width).len() > 0,
{
    let n = tokens.len() as int;
    lemma_pack(tokens, n, width);
    let p = pack_steps(tokens, n, width);
    let l = line_of(p.spans);
    merging_keeps_the_text(p.spans);
    assert(p.lines.push(l).drop_last() =~= p.lines);
    if p.spans.len() == 0 && p.lines.len() > 0 {
        assert(p.spans =~= Seq::empty());
        assert(text_on(p.lines) + Seq::<char>::empty() =~= text_on(p.lines));
    }
}

proof fn lemma_token_text_add(a: Seq<TokenV>, b: Seq<TokenV>, k: int)
    requires
        0 <= k <= b.len(),
    ensures
        token_text(a + b, a.len() + k) == token_text(a, a.len() as int) + token_text(b, k),
    decreases k,
{
    if k > 0 {
        lemma_token_text_add(a, b, k - 1);
        assert((a + b)[a.len() + k - 1] == b[k - 1]);
        assert(token_text(a, a.len() as int) + (token_text(b, k - 1) + b[k - 1].text)
            =~= token_text(a, a.len() as int) + token_text(b, k - 1) + b[k - 1].text);
    } else {
        lemma_token_text_prefix(a + b, a, a.len() as int);
        assert(token_text(a, a.len() as int) + Seq::<char>::empty() =~= token_text(
            a,
            a.len() as int,
        ));
    }
}

proof fn lemma_token_text_prefix(a: Seq<TokenV>, b: Seq<TokenV>, k: int)
    requires
        0 <= k <= a.len(),
        k <= b.len(),
        forall|i: int| 0 <= i < k ==> a[i] == b[i],
    ensures
        token_text(a, k) == token_text(b, k),
    decreases k,
{
    if k > 0 {
        lemma_token_text_prefix(a, b, k - 1);
        assert(a[k - 1] == b[k - 1]);
    }
}

proof fn lemma_chunk_text(cs: Seq<Seq<char>>, style: Style, k: int)
    requires
        0 <= k <= cs.len(),
    ensures
        token_text(chunk_tokens(cs, style), k) == cs.take(k).flatten(),
    decreases k,
{
    if k > 0 {
        lemma_chunk_text(cs, style, k - 1);
        assert(cs.take(k) =~= cs.take(k - 1).push(cs[k - 1]));
        super::inline::lemma_flatten_push(cs.take(k - 1), cs[k - 1]);
        assert(chunk_tokens(cs, style)[k - 1].text == cs[k - 1]);
    } else {
        assert(cs.take(0) =~= Seq::empty());
        assert(cs.take(0).flatten() =~= Seq::empty());
    }
}

/// The text of the first `k` pieces of a line of code.
pub open spec fn pieces_read(pieces: StyledLine, k: int) -> Seq<char>
    decreases k,
{
    if k <= 0 {
        Seq::empty()
    } else {
        pieces_read(pieces, k - 1) + pieces[k - 1].1
    }
}

proof fn lemma_code_tokens(e: EnvV, pieces: StyledLine, k: int, width: int)
    requires
        clusters_are_the_text(),
        0 <= k <= pieces.len(),
    ensures
        token_text(
            code_tokens(e, pieces, k, width),
            code_tokens(e, pieces, k, width).len() as int,
        ) == pieces_read(pieces, k),
    decreases k,
{
    if k > 0 {
        lemma_code_tokens(e, pieces, k - 1, width);
        let before = code_tokens(e, pieces, k - 1, width);
        let cs = chunks(pieces[k - 1].1, width);
        let own = chunk_tokens(cs, super::blocks::code_style(e, pieces[k - 1].0));
        lemma_token_text_add(before, own, own.len() as int);
        lemma_chunk_text(cs, super::blocks::code_style(e, pieces[k - 1].0), cs.len() as int);
        assert(cs.take(cs.len() as int) =~= cs);
        assert(grapheme_clusters(pieces[k - 1].1).flatten() == pieces[k - 1].1);
        super::inline::lemma_chunks_flatten(pieces[k - 1].1, width);
    }
}

/// What stands before line `j` of the drawing of line `i` of the code: a number on the
/// first, where lines are numbered, and one column of its own.
pub open spec fn code_margin(e: EnvV, gutter: int, i: int, j: int) -> Seq<char> {
    let number = if j == 0 {
        text::decimal((i + 1) as nat)
    } else {
        Seq::empty()
    };
    let edge = if j == 0 {
        seq![' ']
    } else {
        e.opts.glyphs.continuation@
    };
    if gutter > 0 {
        text::spaces(minus(gutter, sat(text_width(number) + 1)) as nat) + number + seq![' '] + edge
    } else {
        edge
    }
}

/// True of lines that are some others behind margins and before blanks.
pub open spec fn framed(
    e: EnvV,
    all: Seq<LineV>,
    at: int,
    inner: Seq<LineV>,
    gutter: int,
    i: int,
) -> bool {
    &&& 0 <= at
    &&& at + inner.len() <= all.len()
    &&& forall|j: int|
        #![trigger inner[j]]
        0 <= j < inner.len() ==> exists|blanks: nat|
            read_line(all[at + j]) == code_margin(e, gutter, i, j) + read_line(inner[j])
                + #[trigger] text::spaces(blanks)
}

proof fn lemma_code_line(
    e: EnvV,
    pieces: StyledLine,
    gutter: int,
    i: int,
    columns: int,
    width: int,
)
    requires
        clusters_are_the_text(),
        0 <= i,
    ensures
        ({
            let inner = packed(code_tokens(e, pieces, pieces.len() as int, columns), columns);
            let own = code_line_drawn(e, pieces, gutter, i, columns, width);
            &&& own.len() == inner.len()
            &&& inner.len() > 0
            &&& text_on(inner) == pieces_read(pieces, pieces.len() as int)
            &&& framed(e, own, 0, inner, gutter, i)
        }),
{
    reveal_strlit(" ");
    assert(" "@ =~= seq![' ']);
    let tokens = code_tokens(e, pieces, pieces.len() as int, columns);
    let inner = packed(tokens, columns);
    let own = code_line_drawn(e, pieces, gutter, i, columns, width);
    lemma_packed(tokens, columns);
    lemma_code_tokens(e, pieces, pieces.len() as int, columns);
    assert forall|j: int| #![trigger inner[j]] 0 <= j < inner.len() implies exists|blanks: nat|
        read_line(own[0 + j]) == code_margin(e, gutter, i, j) + read_line(inner[j])
            + #[trigger] text::spaces(blanks) by {
        let p = code_prefix(e, gutter, i, j);
        let base = prefixed(inner[j], p);
        prefixes_come_first(inner[j], p);
        if gutter > 0 {
            assert(p.drop_last() =~= seq![p[0]]);
            lemma_spans_text_one(p[0]);
        } else {
            lemma_spans_text_one(p[0]);
            assert(p =~= seq![p[0]]);
        }
        assert(spans_text(p) =~= code_margin(e, gutter, i, j));
        let w = sat(super::spans_width(base.spans));
        let style = code_base(e);
        let f = filled(base, width, style);
        assert(own[0 + j] == f);
        if f != base {
            let blanks = (width - w) as nat;
            lemma_spans_text_push(
                base.spans,
                SpanV { text: text::spaces(blanks), style, link: None },
            );
            assert(read_line(f) == code_margin(e, gutter, i, j) + read_line(inner[j])
                + text::spaces(blanks));
        } else {
            assert(text::spaces(0) =~= Seq::empty());
            assert(read_line(f) =~= code_margin(e, gutter, i, j) + read_line(inner[j])
                + text::spaces(0));
        }
    }
}

proof fn lemma_code_prefix(
    e: EnvV,
    rows: Seq<StyledLine>,
    i: int,
    k: int,
    gutter: int,
    columns: int,
    width: int,
)
    requires
        0 <= i <= k,
    ensures
        code_lines_drawn(e, rows, i, gutter, columns, width).is_prefix_of(
            code_lines_drawn(e, rows, k, gutter, columns, width),
        ),
    decreases k,
{
    if i < k {
        lemma_code_prefix(e, rows, i, k - 1, gutter, columns, width);
    }
}

/// Lines of code stand below each other in their order, each with its own number where
/// lines are numbered, and what is read of a line, from the first of its lines on the
/// page to the last, is its text, with every blank in it.
pub proof fn code_is_read(
    e: EnvV,
    rows: Seq<StyledLine>,
    i: int,
    gutter: int,
    columns: int,
    width: int,
) -> (inner: Seq<LineV>)
    requires
        clusters_are_the_text(),
        0 <= i < rows.len(),
    ensures
        ({
            let all = code_lines_drawn(e, rows, rows.len() as int, gutter, columns, width);
            let at = code_lines_drawn(e, rows, i, gutter, columns, width).len() as int;
            let next = code_lines_drawn(e, rows, i + 1, gutter, columns, width).len() as int;
            &&& i == 0 ==> at == 0
            &&& next == at + inner.len()
            &&& inner.len() > 0
            &&& i + 1 == rows.len() ==> next == all.len()
            &&& framed(e, all, at, inner, gutter, i)
            &&& text_on(inner) == pieces_read(rows[i], rows[i].len() as int)
        }),
{
    let all = code_lines_drawn(e, rows, rows.len() as int, gutter, columns, width);
    let before = code_lines_drawn(e, rows, i, gutter, columns, width);
    let after = code_lines_drawn(e, rows, i + 1, gutter, columns, width);
    let own = code_line_drawn(e, rows[i], gutter, i, columns, width);
    let inner = packed(code_tokens(e, rows[i], rows[i].len() as int, columns), columns);
    lemma_code_line(e, rows[i], gutter, i, columns, width);
    lemma_code_prefix(e, rows, i + 1, rows.len() as int, gutter, columns, width);
    let at = before.len() as int;
    assert forall|j: int| #![trigger inner[j]] 0 <= j < inner.len() implies exists|blanks: nat|
        read_line(all[at + j]) == code_margin(e, gutter, i, j) + read_line(inner[j])
            + #[trigger] text::spaces(blanks) by {
        assert(after[at + j] == own[j]);
        assert(all[at + j] == after[at + j]);
        let blanks = choose|blanks: nat|
            read_line(own[0 + j]) == code_margin(e, gutter, i, j) + read_line(inner[j])
                + #[trigger] text::spaces(blanks);
        assert(read_line(all[at + j]) == code_margin(e, gutter, i, j) + read_line(inner[j])
            + text::spaces(blanks));
    }
    inner
}

// --- rules and formulas -------------------------------------------------------------------------

/// A rule is drawn across the whole width.
pub proof fn rules_go_across(e: EnvV, pics: Pictures, width: int, st: StateV)
    requires
        0 <= width,
    ensures
        ({
            let d = block_drawn(e, pics, BlockV::Rule, width, st);
            d.lines.len() == 1 && d.st == st && read_line(d.lines[0]) == text::repeated(
                e.opts.glyphs.rule@,
                width as nat,
            )
        }),
{
    let bar = span_of(text::repeated(e.opts.glyphs.rule@, width as nat), e.theme.rule);
    merging_keeps_the_text(seq![bar]);
    lemma_spans_text_one(bar);
}

/// The lines of a formula as they are read.
pub open spec fn formulas_read(e: EnvV, lines: Seq<Seq<char>>) -> Seq<char>
    decreases lines.len(),
{
    if lines.len() == 0 {
        Seq::empty()
    } else {
        formulas_read(e, lines.drop_last()) + math_shown(e, text::trim(lines.last()))
    }
}

/// A displayed formula is read line by line, each as inline mathematics is.
pub proof fn formulas_are_read(e: EnvV, lines: Seq<Seq<char>>, width: int)
    requires
        clusters_are_the_text(),
    ensures
        inked(text_on(formula_drawn(e, lines, lines.len() as int, width))) == inked(
            formulas_read(e, lines),
        ),
    decreases lines.len(),
{
    if lines.len() > 0 {
        let d = lines.drop_last();
        formulas_are_read(e, d, width);
        lemma_formula_prefix(e, lines, d, d.len() as int, width);
        let before = formula_drawn(e, lines, d.len() as int, width);
        let shown = math_shown(e, text::trim(lines.last()));
        let t = seq![word_token(shown, e.theme.math, None)];
        let own = wrapped(t, width, Align::Center);
        lemma_wrapped_read(t, width, Align::Center);
        lemma_text_on_add(before, own);
        lemma_inked_append(text_on(before), text_on(own));
        lemma_inked_append(formulas_read(e, d), shown);
        reveal_with_fuel(super::inline::words_in, 3);
        assert(all_words(t) =~= shown);
    }
}

proof fn lemma_formula_prefix(
    e: EnvV,
    a: Seq<Seq<char>>,
    b: Seq<Seq<char>>,
    k: int,
    width: int,
)
    requires
        0 <= k <= a.len(),
        k <= b.len(),
        forall|i: int| 0 <= i < k ==> a[i] == b[i],
    ensures
        formula_drawn(e, a, k, width) == formula_drawn(e, b, k, width),
    decreases k,
{
    if k > 0 {
        lemma_formula_prefix(e, a, b, k - 1, width);
        assert(a[k - 1] == b[k - 1]);
    }
}

// --- footnotes and references -------------------------------------------------------------------

/// Where no two footnotes have one label, each has the number of its place, from one on.
pub proof fn footnotes_count_up(notes: Seq<(Seq<char>, Seq<BlockV>)>, k: int, i: int)
    requires
        0 <= i < k <= notes.len(),
        k <= usize::MAX,
        forall|a: int, b: int|
            0 <= a < notes.len() && 0 <= b < notes.len() && (#[trigger] notes[a]).0 == (
            #[trigger] notes[b]).0 ==> a == b,
    ensures
        footnote_numbers(notes, k).dom().contains(notes[i].0),
        footnote_numbers(notes, k)[notes[i].0] == i + 1,
    decreases k,
{
    if i < k - 1 {
        footnotes_count_up(notes, k - 1, i);
        assert(notes[i].0 != notes[k - 1].0) by {
            if notes[i].0 == notes[k - 1].0 {
                assert(i == k - 1);
            }
        }
    }
}

/// A number in brackets.
pub open spec fn bracketed(n: nat) -> Seq<char> {
    seq!['['] + text::decimal(n) + seq![']', ' ']
}

/// The lines from `at` on show a body behind a mark on the first of them.
pub open spec fn shows_marked(all: Seq<LineV>, at: int, body: Seq<LineV>, mark: Seq<char>) -> bool {
    &&& 0 <= at
    &&& at + body.len() <= all.len()
    &&& forall|j: int|
        #![trigger body[j]]
        0 <= j < body.len() ==> read_line(all[at + j]) == (if j == 0 {
            mark
        } else {
            text::spaces(text_width(mark) as nat)
        }) + read_line(body[j])
}

proof fn lemma_shows_marked(
    above: Seq<LineV>,
    body: Seq<LineV>,
    mark: Seq<char>,
    style: Style,
)
    requires
        mark.len() > 0,
    ensures
        shows_marked(
            above + marked(body, mark, style, text_width(mark) as int),
            above.len() as int,
            body,
            mark,
        ),
{
    let own = marked(body, mark, style, text_width(mark) as int);
    let all = above + own;
    assert(text::spaces(0) =~= Seq::empty());
    assert(mark + text::spaces(0) =~= mark);
    assert forall|j: int| #![trigger body[j]] 0 <= j < body.len() implies read_line(
        all[above.len() + j],
    ) == (if j == 0 {
        mark
    } else {
        text::spaces(text_width(mark) as nat)
    }) + read_line(body[j]) by {
        lemma_marked_text(body, mark, style, text_width(mark) as int, j);
        assert(all[above.len() + j] == own[j]);
    }
}

/// The footnotes stand at the end in their order, a blank line above each, and each of
/// them begins with the number by which the text refers to it.
pub proof fn footnotes_carry_their_numbers(
    e: EnvV,
    pics: Pictures,
    notes: Seq<(Seq<char>, Seq<BlockV>)>,
    k: int,
    width: int,
    d: DrawnV,
)
    requires
        0 < k <= notes.len(),
        notes.len() <= usize::MAX,
        e.footnotes == footnote_numbers(notes, notes.len() as int),
        forall|a: int, b: int|
            0 <= a < notes.len() && 0 <= b < notes.len() && (#[trigger] notes[a]).0 == (
            #[trigger] notes[b]).0 ==> a == b,
    ensures
        ({
            let above = notes_drawn(e, pics, notes, k - 1, width, d);
            let all = notes_drawn(e, pics, notes, k, width, d);
            let mark = bracketed(k as nat);
            let body = blocks_drawn(
                e,
                pics,
                notes[k - 1].1,
                minus(width, text_width(mark) as int),
                above.st,
            );
            let shown = if body.lines.len() == 0 {
                seq![blank_line()]
            } else {
                body.lines
            };
            let at = above.lines.len() as int + 1;
            &&& above.lines.is_prefix_of(all.lines)
            &&& all.lines[at - 1] == blank_line()
            &&& all.lines.len() == at + shown.len()
            &&& shows_marked(all.lines, at, shown, mark)
            &&& all.st == body.st
            &&& super::blocks::footnote_mark(e, notes[k - 1].0) == seq!['['] + text::decimal(
                k as nat,
            ) + seq![']']
        }),
{
    footnotes_count_up(notes, notes.len() as int, k - 1);
    reveal_strlit("[");
    reveal_strlit("] ");
    let mark = bracketed(k as nat);
    assert(number_marker(k as nat) =~= mark);
    let above = notes_drawn(e, pics, notes, k - 1, width, d);
    let columns = text_width(mark) as int;
    let body = blocks_drawn(e, pics, notes[k - 1].1, minus(width, columns), above.st);
    let shown = if body.lines.len() == 0 {
        seq![blank_line()]
    } else {
        body.lines
    };
    lemma_shows_marked(above.lines.push(blank_line()), shown, mark, e.theme.footnote_ref);
    let all = notes_drawn(e, pics, notes, k, width, d);
    assert(above.lines =~= all.lines.take(above.lines.len() as int));
    assert(marked(shown, mark, e.theme.footnote_ref, columns).len() == shown.len());
}

/// The links listed at the end stand in their order, each behind its number.
pub proof fn references_carry_their_numbers(e: EnvV, links: Seq<Seq<char>>, k: int, width: int)
    requires
        clusters_are_the_text(),
        0 < k <= links.len(),
    ensures
        ({
            let above = references_drawn(e, links, k - 1, width);
            let all = references_drawn(e, links, k, width);
            let own = all.skip(above.len() as int);
            &&& above.is_prefix_of(all)
            &&& own.len() > 0
            &&& inked(text_on(own)) == inked(bracketed(k as nat)) + inked(links[k - 1])
            &&& text::starts_with(read_line(own[0]), bracketed(k as nat))
        }),
{
    reveal_strlit("[");
    reveal_strlit("] ");
    let mark = bracketed(k as nat);
    assert(number_marker(k as nat) =~= mark);
    let columns = text_width(mark) as int;
    let above = references_drawn(e, links, k - 1, width);
    let all = references_drawn(e, links, k, width);
    let t = seq![word_token(links[k - 1], e.theme.link_url, None)];
    let body = wrapped(t, minus(width, columns), Align::Left);
    let own = marked(body, mark, e.theme.footnote_ref, columns);
    assert(all.skip(above.len() as int) =~= own);
    assert(above =~= all.take(above.len() as int));
    lemma_wrapped_some(t, minus(width, columns), Align::Left);
    lemma_wrapped_read(t, minus(width, columns), Align::Left);
    reveal_with_fuel(super::inline::words_in, 3);
    assert(all_words(t) =~= links[k - 1]);
    let first = seq![span_of(mark, e.theme.footnote_ref)];
    lemma_spans_text_one(first[0]);
    lemma_spaces(columns as nat);
    lemma_prefixed_all(body, first, seq![plain_span(text::spaces(columns as nat))]);
    lemma_marked_text(body, mark, e.theme.footnote_ref, columns, 0);
    assert(text::spaces(0) =~= Seq::empty());
    let line = read_line(own[0]);
    assert(line.subrange(0, mark.len() as int) =~= mark);
}

/// A link that is listed at the end has its number behind its text, which is the place
/// that its destination gets in the list.
pub proof fn links_refer_to_their_place(
    e: EnvV,
    dest: Seq<char>,
    content: Seq<char>,
    style: Style,
    t: TokensV,
)
    requires
        e.opts.links == LinkMode::Reference,
        dest.len() > 0,
        content != dest,
        seq!['m', 'a', 'i', 'l', 't', 'o', ':'] + content != dest,
        t.st.references.len() < usize::MAX,
    ensures
        ({
            let r = with_destination(e, dest, content, style, t);
            let n = r.st.references.len();
            &&& n == t.st.references.len() + 1
            &&& t.st.references.is_prefix_of(r.st.references)
            &&& r.st.references[n - 1] == dest
            &&& r.out.len() == t.out.len() + 1
            &&& t.out.is_prefix_of(r.out)
            &&& r.out.last().text == seq!['['] + text::decimal(n) + seq![']']
            &&& r.out.last().kind == Kind::Word
        }),
{
    reveal_strlit("mailto:");
    assert("mailto:"@ =~= seq!['m', 'a', 'i', 'l', 't', 'o', ':']);
    let r = with_destination(e, dest, content, style, t);
    assert(t.st.references =~= r.st.references.take(t.st.references.len() as int));
    assert(t.out =~= r.out.take(t.out.len() as int));
}

/// A page shows the blocks of a document first, then its footnotes, then the links that
/// are listed.
pub proof fn pages_are_in_order(e: EnvV, pics: Pictures, doc: DocumentV)
    ensures
        ({
            let width = at_least(minus(e.opts.width as int, 2 * e.opts.margin), 8);
            let d = blocks_drawn(
                e,
                pics,
                doc.blocks,
                width,
                (StateV {
                    links: Seq::empty(),
                    headings: Seq::empty(),
                    references: Seq::empty(),
                    code_blocks: Seq::empty(),
                }),
            );
            let all = content_drawn(e, pics, doc).lines;
            &&& d.lines.is_prefix_of(all)
            &&& doc.footnotes.len() == 0 && d.st.references.len() == 0 ==> all == d.lines
            &&& doc.footnotes.len() == 0 && d.st.references.len() > 0 ==> all == d.lines
                + references_drawn(
                e,
                d.st.references,
                d.st.references.len() as int,
                width,
            )
            &&& doc.footnotes.len() > 0 ==> {
                let noted = notes_drawn(
                    e,
                    pics,
                    doc.footnotes,
                    doc.footnotes.len() as int,
                    width,
                    (DrawnV {
                        lines: d.lines + seq![blank_line(), short_rule(e, width)],
                        st: d.st,
                    }),
                );
                all == noted.lines + (if noted.st.references.len() == 0 {
                    Seq::empty()
                } else {
                    references_drawn(
                        e,
                        noted.st.references,
                        noted.st.references.len() as int,
                        width,
                    )
                })
            }
        }),
{
    let width = at_least(minus(e.opts.width as int, 2 * e.opts.margin), 8);
    let d = blocks_drawn(
        e,
        pics,
        doc.blocks,
        width,
        StateV {
            links: Seq::empty(),
            headings: Seq::empty(),
            references: Seq::empty(),
            code_blocks: Seq::empty(),
        },
    );
    let all = content_drawn(e, pics, doc).lines;
    if doc.footnotes.len() > 0 {
        let start = DrawnV { lines: d.lines + seq![blank_line(), short_rule(e, width)], st: d.st };
        lemma_notes_prefix(e, pics, doc.footnotes, doc.footnotes.len() as int, width, start);
        let noted = notes_drawn(e, pics, doc.footnotes, doc.footnotes.len() as int, width, start);
        assert(all.len() >= noted.lines.len());
        assert(start.lines =~= all.take(start.lines.len() as int));
        assert(noted.lines + Seq::<LineV>::empty() =~= noted.lines);
    }
    assert(d.lines =~= all.take(d.lines.len() as int));
}

proof fn lemma_notes_prefix(
    e: EnvV,
    pics: Pictures,
    notes: Seq<(Seq<char>, Seq<BlockV>)>,
    k: int,
    width: int,
    d: DrawnV,
)
    requires
        0 <= k <= notes.len(),
    ensures
        d.lines.is_prefix_of(notes_drawn(e, pics, notes, k, width, d).lines),
    decreases k,
{
    if k > 0 {
        lemma_notes_prefix(e, pics, notes, k - 1, width, d);
        let before = notes_drawn(e, pics, notes, k - 1, width, d);
        let all = notes_drawn(e, pics, notes, k, width, d);
        assert(before.lines =~= all.lines.take(before.lines.len() as int));
    }
}

// --- definitions --------------------------------------------------------------------------------

/// A term stands below the terms before it and a blank line, and its definitions below
/// it, in their order, each moved right by four columns.
pub proof fn definitions_follow_their_terms(
    e: EnvV,
    pics: Pictures,
    s: Seq<(Seq<InlineV>, Seq<Seq<BlockV>>)>,
    width: int,
    st: StateV,
)
    requires
        clusters_are_the_text(),
        e.opts.links != LinkMode::Reference,
        s.len() > 0,
    ensures
        ({
            let above = terms_drawn(e, pics, s.drop_last(), width, st);
            let all = terms_drawn(e, pics, s, width, st);
            let own = all.lines.skip(above.lines.len() as int);
            &&& above.lines.is_prefix_of(all.lines)
            &&& s.last().1.len() == 0 ==> inked(text_on(own)) == inked(
                read_inlines(e, s.last().0),
            )
        }),
{
    let none = Seq::<char>::empty();
    let above = terms_drawn(e, pics, s.drop_last(), width, st);
    let all = terms_drawn(e, pics, s, width, st);
    let t = tokens_of(e, s.last().0, e.theme.strong, above.st);
    let title = wrapped(t.out, width, Align::Left);
    let start = DrawnV {
        lines: (if above.lines.len() > 0 {
            above.lines.push(blank_line())
        } else {
            above.lines
        }) + title,
        st: t.st,
    };
    lemma_bodies_prefix(e, pics, s.last().1, width, start);
    assert(above.lines =~= all.lines.take(above.lines.len() as int)) by {
        assert(above.lines =~= start.lines.take(above.lines.len() as int));
    }
    inline_content_is_read(e, s.last().0, e.theme.strong, above.st);
    lemma_wrapped_read(t.out, width, Align::Left);
    if s.last().1.len() == 0 {
        let own = all.lines.skip(above.lines.len() as int);
        if above.lines.len() > 0 {
            assert(own =~= seq![blank_line()] + title);
            lemma_text_on_add(seq![blank_line()], title);
            lemma_text_on_one(blank_line());
            assert(read_line(blank_line()) =~= none);
            assert(none + text_on(title) =~= text_on(title));
        } else {
            assert(own =~= title);
        }
    }
}

/// The definitions of a term stand below each other, each line of them behind four
/// blanks.
pub proof fn definitions_are_indented(
    e: EnvV,
    pics: Pictures,
    bodies: Seq<Seq<BlockV>>,
    width: int,
    d: DrawnV,
    i: int,
)
    requires
        bodies.len() > 0,
        0 <= i < blocks_drawn(
            e,
            pics,
            bodies.last(),
            minus(width, 4),
            bodies_drawn(e, pics, bodies.drop_last(), width, d).st,
        ).lines.len(),
    ensures
        ({
            let above = bodies_drawn(e, pics, bodies.drop_last(), width, d);
            let own = blocks_drawn(e, pics, bodies.last(), minus(width, 4), above.st);
            let all = bodies_drawn(e, pics, bodies, width, d);
            &&& all.lines.len() == above.lines.len() + own.lines.len()
            &&& above.lines.is_prefix_of(all.lines)
            &&& all.st == own.st
            &&& read_line(all.lines[above.lines.len() + i]) == seq![' ', ' ', ' ', ' ']
                + read_line(own.lines[i])
        }),
{
    let above = bodies_drawn(e, pics, bodies.drop_last(), width, d);
    let own = blocks_drawn(e, pics, bodies.last(), minus(width, 4), above.st);
    let all = bodies_drawn(e, pics, bodies, width, d);
    assert(above.lines =~= all.lines.take(above.lines.len() as int));
    lemma_spaces(4);
    assert(text::spaces(4) =~= seq![' ', ' ', ' ', ' ']);
    prefixes_come_first(own.lines[i], seq![plain_span(text::spaces(4))]);
}

proof fn lemma_bodies_prefix(
    e: EnvV,
    pics: Pictures,
    s: Seq<Seq<BlockV>>,
    width: int,
    d: DrawnV,
)
    ensures
        d.lines.is_prefix_of(bodies_drawn(e, pics, s, width, d).lines),
    decreases s.len(),
{
    if s.len() > 0 {
        lemma_bodies_prefix(e, pics, s.drop_last(), width, d);
        let before = bodies_drawn(e, pics, s.drop_last(), width, d);
        let all = bodies_drawn(e, pics, s, width, d);
        assert(before.lines =~= all.lines.take(before.lines.len() as int));
    }
}

// --- styles -------------------------------------------------------------------------------------

/// True of tokens that some text adds, all in one style.
pub open spec fn added_in(before: Seq<TokenV>, after: Seq<TokenV>, style: Style) -> bool {
    &&& before.is_prefix_of(after)
    &&& forall|k: int| before.len() <= k < after.len() ==> (#[trigger] after[k]).style == style
}

proof fn lemma_tokens_styled(
    gs: Seq<Seq<char>>,
    k: int,
    word: Seq<char>,
    style: Style,
    link: Option<usize>,
    out: Seq<TokenV>,
)
    requires
        0 <= k <= gs.len(),
    ensures
        added_in(out, tokens_from(gs, k, word, style, link, out), style),
    decreases gs.len() - k,
{
    let held = with_word(out, word, style, link);
    assert(out =~= held.take(out.len() as int));
    if k < gs.len() {
        if super::inline::breaks_at(gs[k]) {
            let spaced = with_space(held, style);
            assert(out =~= spaced.take(out.len() as int));
            lemma_tokens_styled(gs, k + 1, Seq::empty(), style, link, spaced);
            let r = tokens_from(gs, k, word, style, link, out);
            assert(out =~= r.take(out.len() as int));
            assert forall|j: int| out.len() <= j < r.len() implies (#[trigger] r[j]).style
                == style by {
                if j < spaced.len() {
                    assert(r[j] == spaced[j]);
                }
            }
        } else {
            lemma_tokens_styled(gs, k + 1, word + gs[k], style, link, out);
        }
    }
}

/// Text is drawn in the style of what it stands in: strong text in that of strong text
/// over the style around it, emphasised and struck text in theirs, and text by itself in
/// the style around it.
pub proof fn text_has_its_style(
    e: EnvV,
    text: Seq<char>,
    style: Style,
    link: Option<usize>,
    t: TokensV,
)
    ensures
        added_in(
            t.out,
            inline_tokens_of(e, InlineV::Text(text), style, link, t).out,
            style,
        ),
        added_in(
            t.out,
            inline_tokens_of(e, InlineV::Strong(seq![InlineV::Text(text)]), style, link, t).out,
            style.merged(e.theme.strong),
        ),
        added_in(
            t.out,
            inline_tokens_of(e, InlineV::Emph(seq![InlineV::Text(text)]), style, link, t).out,
            style.merged(e.theme.emphasis),
        ),
        added_in(
            t.out,
            inline_tokens_of(e, InlineV::Strike(seq![InlineV::Text(text)]), style, link, t).out,
            style.merged(e.theme.strikethrough),
        ),
        added_in(
            t.out,
            inline_tokens_of(e, InlineV::Code(text), style, link, t).out,
            style.merged(e.theme.inline_code),
        ),
{
    let one = seq![InlineV::Text(text)];
    assert(one.drop_last() =~= Seq::empty());
    let gs = grapheme_clusters(text);
    lemma_tokens_styled(gs, 0, Seq::empty(), style, link, t.out);
    lemma_tokens_styled(gs, 0, Seq::empty(), style.merged(e.theme.strong), link, t.out);
    lemma_tokens_styled(gs, 0, Seq::empty(), style.merged(e.theme.emphasis), link, t.out);
    lemma_tokens_styled(gs, 0, Seq::empty(), style.merged(e.theme.strikethrough), link, t.out);
    lemma_one_inline(e, one, style.merged(e.theme.strong), link, t);
    lemma_one_inline(e, one, style.merged(e.theme.emphasis), link, t);
    lemma_one_inline(e, one, style.merged(e.theme.strikethrough), link, t);
    let code = inline_tokens_of(e, InlineV::Code(text), style, link, t).out;
    assert(t.out =~= code.take(t.out.len() as int));
}

proof fn lemma_one_inline(
    e: EnvV,
    s: Seq<InlineV>,
    style: Style,
    link: Option<usize>,
    t: TokensV,
)
    requires
        s.len() == 1,
    ensures
        inlines_tokens(e, s, style, link, t) == inline_tokens_of(e, s[0], style, link, t),
{
    let none = Seq::<InlineV>::empty();
    assert(s.drop_last() =~= none);
    assert(inlines_tokens(e, none, style, link, t) == t);
}

// --- items and figures --------------------------------------------------------------------------

/// The blocks of an item stand in their order. A nested list stands right below what is
/// above it, with the next kind of bullet; any other block has a blank line above it.
pub proof fn item_blocks_stand_in_order(
    e: EnvV,
    pics: Pictures,
    a: Seq<BlockV>,
    b: BlockV,
    width: int,
    depth: int,
    st: StateV,
)
    ensures
        ({
            let above = item_blocks_drawn(e, pics, a, width, depth, st);
            let all = item_blocks_drawn(e, pics, a.push(b), width, depth, st);
            match b {
                BlockV::List(l) => {
                    let own = list_drawn(e, pics, l, width, (depth + 1) % 3, above.st);
                    all.lines == above.lines + own.lines && all.st == own.st
                },
                _ => {
                    let own = block_drawn(e, pics, b, width, above.st);
                    &&& all.st == own.st
                    &&& all.lines == (if above.lines.len() > 0 && own.lines.len() > 0 {
                        above.lines.push(blank_line()) + own.lines
                    } else {
                        above.lines + own.lines
                    })
                },
            }
        }),
{
    let above = item_blocks_drawn(e, pics, a, width, depth, st);
    let all = item_blocks_drawn(e, pics, a.push(b), width, depth, st);
    assert(a.push(b).drop_last() =~= a);
    assert(above.lines + Seq::<LineV>::empty() =~= above.lines);
    match b {
        BlockV::List(l) => {
            let own = list_drawn(e, pics, l, width, (depth + 1) % 3, above.st);
            assert(all.lines =~= above.lines + own.lines);
        },
        _ => {
            let own = block_drawn(e, pics, b, width, above.st);
            let want = if above.lines.len() > 0 && own.lines.len() > 0 {
                above.lines.push(blank_line()) + own.lines
            } else {
                above.lines + own.lines
            };
            assert(all.lines =~= want);
        },
    }
}

/// A picture that can be had gets exactly its own number of rows: it hangs on the first
/// of them, with its columns and rows, and the others are kept free. Its caption stands
/// below. Where it cannot be had, its description is read in its place, or its address
/// where it has none.
pub proof fn figures_have_their_room(
    e: EnvV,
    pics: Pictures,
    image: ImageRefV,
    caption: Seq<InlineV>,
    width: int,
    st: StateV,
)
    requires
        clusters_are_the_text(),
        e.opts.links != LinkMode::Reference,
    ensures
        ({
            let d = figure_drawn(e, pics, image, caption, width, st);
            match figure_cells(e, pics, image, width) {
                Some((cols, rows)) => {
                    let n: int = if rows < 1 {
                        1
                    } else {
                        rows as int
                    };
                    &&& d.lines.len() >= n
                    &&& d.lines[0].image matches Some(p) && p.image == image && p.cols == cols
                        && p.rows == rows && (!e.opts.center_figures ==> p.indent == 0)
                    &&& forall|i: int|
                        1 <= i < n ==> (#[trigger] d.lines[i]).image_filler && d.lines[i].image
                            is None
                    &&& forall|i: int|
                        0 <= i < d.lines.len() && (i < 1 || i >= n) ==> !(
                        #[trigger] d.lines[i]).image_filler
                    &&& inked(text_on(d.lines.skip(n))) == (if caption.len() > 0 {
                        inked(read_inlines(e, caption))
                    } else {
                        Seq::empty()
                    })
                },
                None => exists|tail: Seq<char>|
                    inked(text_on(d.lines)) == inked(e.opts.glyphs.image_marker@) + inked(
                        if image.alt.len() == 0 {
                            image.url
                        } else {
                            image.alt
                        },
                    ) + #[trigger] inked(tail),
            }
        }),
{
    reveal(figure_drawn);
    let none = Seq::<char>::empty();
    let d = figure_drawn(e, pics, image, caption, width, st);
    match figure_cells(e, pics, image, width) {
        Some((cols, rows)) => {
            let n: int = if rows < 1 {
                1
            } else {
                rows as int
            };
            let t = tokens_of(e, caption, e.theme.caption, st);
            let align = if e.opts.center_figures {
                Align::Center
            } else {
                Align::Left
            };
            let own = wrapped(t.out, width, align);
            inline_content_is_read(e, caption, e.theme.caption, st);
            lemma_wrapped_read(t.out, width, align);
            if caption.len() > 0 {
                assert(d.lines.skip(n) =~= own);
                lemma_no_filler(t.out, width, align);
            } else {
                assert(d.lines.skip(n) =~= Seq::empty());
            }
            assert forall|i: int| 1 <= i < n implies (#[trigger] d.lines[i]).image_filler
                && d.lines[i].image is None by {
                assert(d.lines[i] == super::blocks::filler_line());
            }
            assert forall|i: int| 0 <= i < d.lines.len() && (i < 1 || i >= n) implies !(
            #[trigger] d.lines[i]).image_filler by {
                if i >= n {
                    assert(d.lines[i] == own[i - n]);
                }
            }
        },
        None => {
            let p = super::blocks::placeholder(e, pics, image, st).out;
            lemma_wrapped_read(p, width, Align::Left);
            let alt = if image.alt.len() == 0 {
                image.url
            } else {
                image.alt
            };
            reveal_strlit(" ");
            let a = p[0];
            let b = p[1];
            let two = p.take(2);
            let marker = e.opts.glyphs.image_marker@;
            super::reading::lemma_words_push(Seq::empty(), a);
            super::reading::lemma_words_push(seq![a], b);
            assert(Seq::<TokenV>::empty().push(a) =~= seq![a]);
            assert(seq![a].push(b) =~= two);
            lemma_inked_append(marker, " "@);
            lemma_inked_blank(" "@);
            assert(inked(marker) + none =~= inked(marker));
            assert(all_words(Seq::<TokenV>::empty()) =~= none);
            assert(inked(none) =~= none);
            assert(none + inked(a.text) =~= inked(marker));
            assert(inked(all_words(two)) == inked(marker) + inked(alt));
            if p.len() == 2 {
                assert(p =~= two);
                assert(inked(marker) + inked(alt) + inked(none) =~= inked(all_words(p)));
            } else {
                let c = p[2];
                let f = p[3];
                super::reading::lemma_words_push(two, c);
                super::reading::lemma_words_push(two.push(c), f);
                assert(two.push(c).push(f) =~= p);
                assert(inked(all_words(two)) + none =~= inked(all_words(two)));
                assert(inked(all_words(p)) == inked(marker) + inked(alt) + inked(f.text));
            }
        },
    }
}

proof fn lemma_no_filler(tokens: Seq<TokenV>, width: int, align: Align)
    ensures
        forall|i: int|
            0 <= i < wrapped(tokens, width, align).len() ==> !(#[trigger] wrapped(
                tokens,
                width,
                align,
            )[i]).image_filler,
{
    let w = super::inline::at_least_one(width);
    let n = tokens.len() as int;
    lemma_steps_plain(tokens, n, w, align);
}

proof fn lemma_steps_plain(tokens: Seq<TokenV>, k: int, width: int, align: Align)
    requires
        0 <= k <= tokens.len(),
    ensures
        ({
            let l = super::inline::wrap_steps(tokens, k, width, align).lines;
            forall|i: int| 0 <= i < l.len() ==> !(#[trigger] l[i]).image_filler
        }),
    decreases k,
{
    if k > 0 {
        lemma_steps_plain(tokens, k - 1, width, align);
        let st = super::inline::wrap_steps(tokens, k - 1, width, align);
        let t = tokens[k - 1];
        if t.kind == Kind::Word {
            let w = text_width(t.text) as int;
            let ready = super::inline::room_for(st, w, width, align);
            let cs = chunks(t.text, width);
            lemma_chunks_plain(ready, cs, cs.len() as int, t, width, align);
        }
    }
}

proof fn lemma_chunks_plain(
    st: super::inline::WrapV,
    cs: Seq<Seq<char>>,
    k: int,
    t: TokenV,
    width: int,
    align: Align,
)
    requires
        0 <= k <= cs.len(),
        forall|i: int| 0 <= i < st.lines.len() ==> !(#[trigger] st.lines[i]).image_filler,
    ensures
        ({
            let l = super::inline::with_chunks(st, cs, k, t, width, align).lines;
            forall|i: int| 0 <= i < l.len() ==> !(#[trigger] l[i]).image_filler
        }),
    decreases k,
{
    if k > 0 {
        lemma_chunks_plain(st, cs, k - 1, t, width, align);
    }
}

// --- links --------------------------------------------------------------------------------------

/// True of tokens that some text adds, whose words all belong to one link.
pub open spec fn added_to_link(
    before: Seq<TokenV>,
    after: Seq<TokenV>,
    link: Option<usize>,
) -> bool {
    &&& before.is_prefix_of(after)
    &&& forall|k: int|
        before.len() <= k < after.len() && (#[trigger] after[k]).kind == Kind::Word ==> after[k].link
            == link
}

proof fn lemma_tokens_linked(
    gs: Seq<Seq<char>>,
    k: int,
    word: Seq<char>,
    style: Style,
    link: Option<usize>,
    out: Seq<TokenV>,
)
    requires
        0 <= k <= gs.len(),
    ensures
        added_to_link(out, tokens_from(gs, k, word, style, link, out), link),
    decreases gs.len() - k,
{
    let held = with_word(out, word, style, link);
    assert(out =~= held.take(out.len() as int));
    if k < gs.len() {
        if super::inline::breaks_at(gs[k]) {
            let spaced = with_space(held, style);
            assert(out =~= spaced.take(out.len() as int));
            lemma_tokens_linked(gs, k + 1, Seq::empty(), style, link, spaced);
            let r = tokens_from(gs, k, word, style, link, out);
            assert(out =~= r.take(out.len() as int));
            assert forall|j: int| out.len() <= j < r.len() && (#[trigger] r[j]).kind
                == Kind::Word implies r[j].link == link by {
                if j < spaced.len() {
                    assert(r[j] == spaced[j]);
                }
            }
        } else {
            lemma_tokens_linked(gs, k + 1, word + gs[k], style, link, out);
        }
    }
}

proof fn lemma_link_index(links: Seq<Seq<char>>, dest: Seq<char>, k: int)
    requires
        0 <= k <= links.len(),
    ensures
        k <= super::blocks::link_index(links, dest, k) <= links.len(),
        super::blocks::link_index(links, dest, k) < links.len()
            ==> links[super::blocks::link_index(links, dest, k)] == dest,
    decreases links.len() - k,
{
    if k < links.len() && links[k] != dest {
        lemma_link_index(links, dest, k + 1);
    }
}

/// The words of a link lead to its destination, where links can be followed: they belong
/// to the entry of the list of links that holds it. Entries made before stay where they
/// are.
pub proof fn links_lead_where_they_say(
    e: EnvV,
    dest: Seq<char>,
    title: Option<Seq<char>>,
    text: Seq<char>,
    style: Style,
    t: TokensV,
) -> (i: usize)
    requires
        super::blocks::use_osc8(e),
        t.st.links.len() < usize::MAX,
    ensures
        ({
            let link = InlineV::Link { dest, title, content: seq![InlineV::Text(text)] };
            let r = inline_tokens_of(e, link, style, None, t);
            &&& i < r.st.links.len()
            &&& r.st.links[i as int] == dest
            &&& t.st.links.is_prefix_of(r.st.links)
            &&& added_to_link(t.out, r.out, Some(i))
        }),
{
    let content = seq![InlineV::Text(text)];
    let link = InlineV::Link { dest, title, content };
    let r = inline_tokens_of(e, link, style, None, t);
    let i = super::blocks::link_id_of(t.st, dest);
    lemma_link_index(t.st.links, dest, 0);
    let inner = TokensV { st: super::blocks::with_link(t.st, dest), ..t };
    assert(t.st.links =~= inner.st.links.take(t.st.links.len() as int));
    lemma_one_inline(e, content, style.merged(e.theme.link_text), Some(i), inner);
    lemma_tokens_linked(
        grapheme_clusters(text),
        0,
        Seq::empty(),
        style.merged(e.theme.link_text),
        Some(i),
        t.out,
    );
    i
}

// --- breaking lines -----------------------------------------------------------------------------

/// A word joins the row where there is room for it, and begins the next where there is
/// not. A break ends the row whatever is on it, and a space is one blank, or none where a
/// row begins.
pub proof fn words_join_the_row(
    st: super::inline::WrapV,
    t: TokenV,
    width: int,
    align: Align,
)
    requires
        0 <= st.used,
    ensures
        ({
            let r = super::inline::wrap_step(st, t, width, align);
            let w = text_width(t.text) as int;
            let span = SpanV { text: t.text, style: t.style, link: t.link };
            &&& t.kind == Kind::Word && w <= width && (st.used + w <= width || st.used == 0)
                ==> r.lines == st.lines && r.row == st.row.push(span)
            &&& t.kind == Kind::Word && w <= width && st.used + w > width && st.used > 0
                ==> r.lines.len() == st.lines.len() + 1 && st.lines.is_prefix_of(r.lines) && r.row
                == seq![span]
            &&& t.kind == Kind::Break ==> r.lines.len() == st.lines.len() + 1
                && st.lines.is_prefix_of(r.lines) && r.row.len() == 0
            &&& t.kind == Kind::Space && st.used == 0 ==> r == st
            &&& t.kind == Kind::Space && st.used > 0 ==> r.lines == st.lines && r.row
                == st.row.push(SpanV { text: seq![' '], style: t.style, link: None })
        }),
{
    reveal_strlit(" ");
    assert(" "@ =~= seq![' ']);
    let r = super::inline::wrap_step(st, t, width, align);
    let ended = super::inline::row_ended(st, width, align);
    assert(st.lines =~= ended.lines.take(st.lines.len() as int));
    assert(st.lines.is_prefix_of(ended.lines));
    assert(Seq::<SpanV>::empty().push(SpanV { text: t.text, style: t.style, link: t.link })
        =~= seq![SpanV { text: t.text, style: t.style, link: t.link }]);
}

/// A run of white space is one space: no two spaces follow each other.
#[verifier::opaque]
pub open spec fn spaced_once(s: Seq<TokenV>) -> bool {
    forall|j: int, k: int|
        #![trigger s[j], s[k]]
        0 <= j < s.len() && k == j + 1 && k < s.len() && s[j].kind == Kind::Space ==> s[k].kind
            != Kind::Space
}

/// However many blanks text has in a row, they are one.
pub proof fn blanks_in_a_row_are_one(
    gs: Seq<Seq<char>>,
    k: int,
    word: Seq<char>,
    style: Style,
    link: Option<usize>,
    out: Seq<TokenV>,
)
    requires
        0 <= k <= gs.len(),
        spaced_once(out),
    ensures
        spaced_once(tokens_from(gs, k, word, style, link, out)),
    decreases gs.len() - k,
{
    let held = with_word(out, word, style, link);
    lemma_word_after(out, word, style, link);
    if k < gs.len() {
        if super::inline::breaks_at(gs[k]) {
            let spaced = with_space(held, style);
            lemma_space_after(held, style);
            blanks_in_a_row_are_one(gs, k + 1, Seq::empty(), style, link, spaced);
        } else {
            blanks_in_a_row_are_one(gs, k + 1, word + gs[k], style, link, out);
        }
    }
}

proof fn lemma_word_after(out: Seq<TokenV>, word: Seq<char>, style: Style, link: Option<usize>)
    requires
        spaced_once(out),
    ensures
        spaced_once(with_word(out, word, style, link)),
{
    reveal(spaced_once);
    let held = with_word(out, word, style, link);
    assert forall|j: int, k: int| #![trigger held[j], held[k]]
        0 <= j < held.len() && k == j + 1 && k < held.len() && held[j].kind
            == Kind::Space implies held[k].kind != Kind::Space by {
        assert(held[j] == out[j]);
        if k < out.len() {
            assert(held[k] == out[k]);
        }
    }
}

proof fn lemma_space_after(out: Seq<TokenV>, style: Style)
    requires
        spaced_once(out),
    ensures
        spaced_once(with_space(out, style)),
{
    reveal(spaced_once);
    let spaced = with_space(out, style);
    assert forall|j: int, k: int| #![trigger spaced[j], spaced[k]]
        0 <= j < spaced.len() && k == j + 1 && k < spaced.len() && spaced[j].kind
            == Kind::Space implies spaced[k].kind != Kind::Space by {
        assert(spaced[j] == out[j]);
        if k < out.len() {
            assert(spaced[k] == out[k]);
        } else {
            assert(out.last() == out[j]);
        }
    }
}

// --- the page as a whole ------------------------------------------------------------------------

/// Each block is drawn as what it is: a list from the first kind of bullet on, a formula
/// line by line, a footnote that stands in the text under its label.
pub proof fn blocks_are_drawn_as_what_they_are(
    e: EnvV,
    pics: Pictures,
    b: BlockV,
    width: int,
    st: StateV,
)
    requires
        clusters_are_the_text(),
    ensures
        ({
            let d = block_drawn(e, pics, b, width, st);
            match b {
                BlockV::Heading { level, id, content } => d == heading_drawn(
                    e,
                    level,
                    id,
                    content,
                    width,
                    st,
                ),
                BlockV::CodeBlock { language, code } => d == code_drawn(
                    e,
                    language,
                    code,
                    width,
                    st,
                ),
                BlockV::List(l) => d == list_drawn(e, pics, l, width, 0, st),
                BlockV::Table(t) => d == super::table::table_drawn(e, t, width, st),
                BlockV::Figure { image, caption } => d == figure_drawn(
                    e,
                    pics,
                    image,
                    caption,
                    width,
                    st,
                ),
                BlockV::DefinitionList(items) => d == terms_drawn(e, pics, items, width, st),
                BlockV::DisplayMath(t) => d.st == st && inked(text_on(d.lines)) == inked(
                    formulas_read(e, text::lines(text::trim(t))),
                ),
                BlockV::Html(raw) => d.st == st && inked(text_on(d.lines)) == inked(
                    text::trim(raw),
                ),
                BlockV::FootnoteDefinition { label, blocks } => {
                    let inner = blocks_drawn(e, pics, blocks, minus(width, 4), st);
                    &&& d.st == inner.st
                    &&& d.lines.len() == inner.lines.len() + 1
                    &&& read_line(d.lines[0]) == seq!['['] + label + seq![']']
                    &&& forall|j: int|
                        #![trigger inner.lines[j]]
                        0 <= j < inner.lines.len() ==> read_line(d.lines[j + 1]) == seq![
                            ' ',
                            ' ',
                            ' ',
                            ' ',
                        ] + read_line(inner.lines[j])
                },
                _ => true,
            }
        }),
{
    let d = block_drawn(e, pics, b, width, st);
    match b {
        BlockV::DisplayMath(t) => formulas_are_read(e, text::lines(text::trim(t)), width),
        BlockV::Html(raw) => {
            let t = seq![word_token(text::trim(raw), e.theme.muted, None)];
            lemma_wrapped_read(t, width, Align::Left);
            reveal_with_fuel(super::inline::words_in, 3);
            assert(all_words(t) =~= text::trim(raw));
        },
        BlockV::FootnoteDefinition { label, blocks } => {
            let inner = blocks_drawn(e, pics, blocks, minus(width, 4), st);
            let mark = span_of(seq!['['] + label + seq![']'], e.theme.footnote_ref);
            merging_keeps_the_text(seq![mark]);
            lemma_spans_text_one(mark);
            assert forall|j: int| #![trigger inner.lines[j]] 0 <= j < inner.lines.len() implies read_line(
                d.lines[j + 1],
            ) == seq![' ', ' ', ' ', ' '] + read_line(inner.lines[j]) by {
                lemma_spaces(4);
                assert(text::spaces(4) =~= seq![' ', ' ', ' ', ' ']);
                prefixes_come_first(inner.lines[j], seq![plain_span(text::spaces(4))]);
            }
        },
        _ => {},
    }
}

/// A code block is the lines of its code, tabs turned into blanks, in the colours of its
/// language. Where it has been coloured the name of the language stands above it. The
/// code itself is kept as it was written.
pub proof fn code_blocks_are_their_lines(
    e: EnvV,
    language: Option<Seq<char>>,
    code: Seq<char>,
    width: int,
    st: StateV,
)
    ensures
        ({
            let d = code_drawn(e, language, code, width, st);
            let rows = e.highlighter.highlighted(
                expanded(code, e.opts.tab_width as int),
                language,
            );
            let gutter = gutter_width(e, rows.len());
            let columns = at_least(minus(width, sat(gutter + 2)), 8);
            let body = code_lines_drawn(e, rows, rows.len() as int, gutter, columns, width);
            let top: int = if language is Some && e.highlighter.colors(code, language) {
                1
            } else {
                0
            };
            &&& d.st.code_blocks == st.code_blocks.push(code)
            &&& body.len() > 0 ==> d.lines.len() == top + body.len()
            &&& forall|j: int|
                #![trigger body[j]]
                0 <= j < body.len() ==> read_line(d.lines[top + j]) == read_line(body[j])
                    && d.lines[top + j].code == Some(st.code_blocks.len() as usize)
            &&& top == 1 ==> inked(read_line(d.lines[0])) == inked(language->0)
        }),
{
    reveal(code_drawn);
    let d = code_drawn(e, language, code, width, st);
    if language is Some && e.highlighter.colors(code, language) {
        let lang = language->0;
        let mark = span_of(lang, e.theme.muted);
        let l = line_of(seq![mark]);
        merging_keeps_the_text(seq![mark]);
        lemma_spans_text_one(mark);
        super::inline::lemma_inked_aligned(l, width, Align::Right);
        assert(d.lines[0].spans == super::aligned(l, width, Align::Right).spans);
    }
}

/// Tabs become blanks and everything else stays, in order.
pub proof fn tabs_become_blanks(
    s: Seq<char>,
    i: int,
    col: int,
    tab_width: int,
    out: Seq<char>,
)
    requires
        0 <= i <= s.len(),
    ensures
        inked(expanded_from(s, i, col, tab_width, out)) == inked(out) + inked(s.skip(i)),
        !out.contains('\t') ==> !expanded_from(s, i, col, tab_width, out).contains('\t'),
    decreases s.len() - i,
{
    let none = Seq::<char>::empty();
    if i < s.len() {
        let c = seq![s[i]];
        let rest = s.skip(i + 1);
        assert(s.skip(i) =~= c + rest);
        lemma_inked_append(c, rest);
        if s[i] == '\t' {
            let n = if tab_width == 0 {
                0
            } else {
                tab_width - col % tab_width
            };
            let blank = text::spaces(n as nat);
            tabs_become_blanks(s, i + 1, sat(col + n), tab_width, out + blank);
            lemma_inked_append(out, blank);
            lemma_inked_blank(blank);
            lemma_inked_blank(c);
            assert(inked(out) + none + inked(rest) =~= inked(out) + (none + inked(rest)));
            assert(!out.contains('\t') ==> !(out + blank).contains('\t'));
        } else {
            let next = if s[i] == '\n' {
                0
            } else {
                sat(col + text_width(seq![s[i]]))
            };
            tabs_become_blanks(s, i + 1, next, tab_width, out.push(s[i]));
            assert(out.push(s[i]) =~= out + c);
            lemma_inked_append(out, c);
            assert(inked(out) + inked(c) + inked(rest) =~= inked(out) + (inked(c) + inked(rest)));
        }
    } else {
        assert(s.skip(i) =~= none);
        assert(inked(none) =~= none);
        assert(inked(out) + none =~= inked(out));
    }
}

proof fn lemma_top(s: Seq<LineV>) -> (a: int)
    ensures
        0 <= a <= s.len(),
        trimmed_top(s) == s.skip(a),
        forall|i: int| 0 <= i < a ==> is_edge(#[trigger] s[i]),
        a < s.len() ==> !is_edge(s[a]),
    decreases s.len(),
{
    if s.len() > 0 && is_edge(s.first()) {
        let d = s.drop_first();
        let a = lemma_top(d);
        assert(d.skip(a) =~= s.skip(a + 1));
        assert forall|i: int| 0 <= i < a + 1 implies is_edge(#[trigger] s[i]) by {
            if i > 0 {
                assert(d[i - 1] == s[i]);
            }
        }
        if a < d.len() {
            assert(d[a] == s[a + 1]);
        }
        a + 1
    } else {
        assert(s.skip(0) =~= s);
        0
    }
}

proof fn lemma_bottom(s: Seq<LineV>) -> (b: int)
    ensures
        0 <= b <= s.len(),
        trimmed_bottom(s) == s.take(b),
        forall|i: int| b <= i < s.len() ==> is_edge(#[trigger] s[i]),
        b > 0 ==> !is_edge(s[b - 1]),
    decreases s.len(),
{
    if s.len() > 0 && is_edge(s.last()) {
        let d = s.drop_last();
        let b = lemma_bottom(d);
        assert(d.take(b) =~= s.take(b));
        assert forall|i: int| b <= i < s.len() implies is_edge(#[trigger] s[i]) by {
            if i < d.len() {
                assert(d[i] == s[i]);
            }
        }
        if b > 0 {
            assert(d[b - 1] == s[b - 1]);
        }
        b
    } else {
        assert(s.take(s.len() as int) =~= s);
        s.len() as int
    }
}

/// A page is the lines of its content, from the first that shows something to the last,
/// each moved right by the margin.
pub proof fn pages_keep_their_lines(e: EnvV, pics: Pictures, doc: DocumentV) -> (r: (int, int))
    ensures
        ({
            let all = content_drawn(e, pics, doc).lines;
            let page = document_drawn(e, pics, doc).lines;
            let (a, b) = r;
            &&& 0 <= a <= b <= all.len()
            &&& page.len() == b - a
            &&& forall|i: int| 0 <= i < a || b <= i < all.len() ==> is_edge(#[trigger] all[i])
            &&& a < b ==> !is_edge(all[a]) && !is_edge(all[b - 1])
            &&& forall|i: int|
                #![trigger page[i]]
                0 <= i < page.len() ==> read_line(page[i]) == (if all[a + i].spans.len() > 0
                    || all[a + i].image is Some {
                    text::spaces(e.opts.margin as nat)
                } else {
                    Seq::empty()
                }) + read_line(all[a + i])
        }),
{
    let all = content_drawn(e, pics, doc).lines;
    let page = document_drawn(e, pics, doc).lines;
    let a = lemma_top(all);
    let rest = all.skip(a);
    let n = lemma_bottom(rest);
    let b = a + n;
    let margin = e.opts.margin as nat;
    assert(trimmed_edges(all) =~= rest.take(n));
    assert forall|i: int| 0 <= i < a || b <= i < all.len() implies is_edge(#[trigger] all[i]) by {
        if i >= b {
            assert(rest[i - a] == all[i]);
        }
    }
    if n > 0 {
        assert(rest[n - 1] == all[b - 1]);
        if a < all.len() {
            assert(rest[0] == all[a]);
        }
    }
    assert forall|i: int| #![trigger page[i]] 0 <= i < page.len() implies read_line(page[i]) == (
    if all[a + i].spans.len() > 0 || all[a + i].image is Some {
        text::spaces(margin)
    } else {
        Seq::empty()
    }) + read_line(all[a + i]) by {
        let l = all[a + i];
        assert(rest.take(n)[i] == l);
        assert(page[i] == with_margin(l, margin));
        lemma_spaces(margin);
        prefixes_come_first(l, seq![plain_span(text::spaces(margin))]);
        assert(Seq::<char>::empty() + read_line(l) =~= read_line(l));
        if margin == 0 {
            assert(text::spaces(0) =~= Seq::empty());
        }
    }
    (a, b)
}

} // verus!
