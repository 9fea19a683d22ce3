//! What is read on a page.
//!
//! A reader sees characters on lines. The laws here say what those are in terms of the
//! document alone: which words stand on the lines of a block and in which order, what
//! stands before them, and in which style.
use vstd::prelude::*;

use super::blocks::{
    at_least, block_drawn, blocks_drawn, footnote_mark, inline_tokens_of, inlines_tokens,
    item_blocks_drawn, item_marked, items_drawn, joined, list_drawn, marked, math_shown, minus,
    tinted, tinted_spans, tokens_of, EnvV, StateV, TokensV,
};
use super::inline::{
    break_token, breaks_at, grapheme_clusters, inked, lemma_inked_append, space_token, text_on,
    text_width, tokenized, tokens_from, with_space, with_word, word_token, words_in, wrapped,
    wrapping_keeps_the_words, Align, Kind, TokenV,
};
use super::table::{span_of, DrawnV};
use super::{
    blank_line, merged, merging_keeps_the_text, prefixed, sat, spans_text, LineV, LinkMode,
    Pictures, SpanV,
};
use crate::markdown::ir::{plain, BlockV, InlineV, ListItemV, ListV};
use crate::term::style::Style;
use crate::text;

verus! {

// --- inline content ---------------------------------------------------------------------

/// That the graphemes of a text make up the text, which is what collecting them gives.
pub open spec fn clusters_are_the_text() -> bool {
    forall|s: Seq<char>| (#[trigger] grapheme_clusters(s)).flatten() == s
}

/// What is read of a link's destination, behind its text.
pub open spec fn read_destination(e: EnvV, dest: Seq<char>, content: Seq<char>) -> Seq<char> {
    if content == dest || seq!['m', 'a', 'i', 'l', 't', 'o', ':'] + content == dest || dest.len()
        == 0 {
        Seq::empty()
    } else {
        match e.opts.links {
            LinkMode::Inline => seq!['('] + dest + seq![')'],
            LinkMode::Auto => if e.caps.hyperlinks {
                Seq::empty()
            } else {
                seq!['('] + dest + seq![')']
            },
            _ => Seq::empty(),
        }
    }
}

/// What is read of inline content: its text, in the order in which it was written.
pub open spec fn read_inlines(e: EnvV, s: Seq<InlineV>) -> Seq<char>
    decreases s,
{
    if s.len() == 0 {
        Seq::empty()
    } else {
        read_inlines(e, s.drop_last()) + read_inline(e, s.last())
    }
}

/// What is read of one inline element.
pub open spec fn read_inline(e: EnvV, i: InlineV) -> Seq<char>
    decreases i,
{
    match i {
        InlineV::Text(t) => t,
        InlineV::Code(t) => t,
        InlineV::Emph(c) => read_inlines(e, c),
        InlineV::Strong(c) => read_inlines(e, c),
        InlineV::Strike(c) => read_inlines(e, c),
        InlineV::Superscript(c) => seq!['^'] + read_inlines(e, c),
        InlineV::Subscript(c) => seq!['_'] + read_inlines(e, c),
        InlineV::Link { dest, content, .. } => read_inlines(e, content) + read_destination(
            e,
            dest,
            plain(content),
        ),
        InlineV::Image(img) => e.opts.glyphs.image_marker@ + (if img.alt.len() == 0 {
            seq!['i', 'm', 'a', 'g', 'e']
        } else {
            img.alt
        }),
        InlineV::SoftBreak | InlineV::HardBreak => Seq::empty(),
        InlineV::FootnoteRef(label) => seq!['['] + (if e.footnotes.dom().contains(label) {
            text::decimal(e.footnotes[label] as nat)
        } else {
            label
        }) + seq![']'],
        InlineV::Math { text, .. } => math_shown(e, text),
        InlineV::Html(_) => Seq::empty(),
    }
}

/// The words of all of some tokens.
pub open spec fn all_words(tokens: Seq<TokenV>) -> Seq<char> {
    words_in(tokens, tokens.len() as int)
}

proof fn lemma_words_prefix(a: Seq<TokenV>, b: Seq<TokenV>, k: int)
    requires
        0 <= k <= a.len(),
        k <= b.len(),
        forall|i: int| 0 <= i < k ==> a[i] == b[i],
    ensures
        words_in(a, k) == words_in(b, k),
    decreases k,
{
    if k > 0 {
        lemma_words_prefix(a, b, k - 1);
        assert(a[k - 1] == b[k - 1]);
    }
}

pub(crate) proof fn lemma_words_push(a: Seq<TokenV>, t: TokenV)
    ensures
        inked(all_words(a.push(t))) == inked(all_words(a)) + (if t.kind == Kind::Word {
            inked(t.text)
        } else {
            Seq::empty()
        }),
{
    lemma_words_prefix(a.push(t), a, a.len() as int);
    if t.kind == Kind::Word {
        lemma_inked_append(all_words(a), t.text);
    } else {
        assert(inked(all_words(a)) + Seq::<char>::empty() =~= inked(all_words(a)));
    }
}

pub(crate) proof fn lemma_inked_blank(s: Seq<char>)
    requires
        forall|i: int| 0 <= i < s.len() ==> text::is_space(#[trigger] s[i]),
    ensures
        inked(s) == Seq::<char>::empty(),
    decreases s.len(),
{
    if s.len() > 0 {
        assert(text::is_space(s[s.len() - 1]));
        assert forall|i: int| 0 <= i < s.drop_last().len() implies text::is_space(
            #[trigger] s.drop_last()[i],
        ) by {
            assert(s.drop_last()[i] == s[i]);
        }
        lemma_inked_blank(s.drop_last());
    }
}

proof fn lemma_flatten_first(gs: Seq<Seq<char>>)
    requires
        gs.len() > 0,
    ensures
        gs.flatten() == gs[0] + gs.skip(1).flatten(),
{
    assert(gs.drop_first() =~= gs.skip(1));
}

proof fn lemma_tokens_from(
    gs: Seq<Seq<char>>,
    k: int,
    word: Seq<char>,
    style: Style,
    link: Option<usize>,
    out: Seq<TokenV>,
)
    requires
        0 <= k <= gs.len(),
    ensures
        inked(all_words(tokens_from(gs, k, word, style, link, out))) == inked(all_words(out))
            + inked(word) + inked(gs.skip(k).flatten()),
    decreases gs.len() - k,
{
    let none = Seq::<char>::empty();
    let held = with_word(out, word, style, link);
    assert(inked(all_words(held)) == inked(all_words(out)) + inked(word)) by {
        if word.len() > 0 {
            lemma_words_push(out, word_token(word, style, link));
        } else {
            assert(word =~= none);
            assert(inked(all_words(out)) + inked(none) =~= inked(all_words(out)));
        }
    }
    if k < gs.len() {
        let rest = gs.skip(k);
        assert(rest[0] == gs[k]);
        assert(rest.skip(1) =~= gs.skip(k + 1));
        lemma_flatten_first(rest);
        lemma_inked_append(gs[k], gs.skip(k + 1).flatten());
        if breaks_at(gs[k]) {
            let spaced = with_space(held, style);
            lemma_tokens_from(gs, k + 1, none, style, link, spaced);
            lemma_words_push(held, space_token(style));
            assert(inked(all_words(held)) + none =~= inked(all_words(held)));
            lemma_inked_blank(gs[k]);
            assert(none + inked(gs.skip(k + 1).flatten()) =~= inked(gs.skip(k + 1).flatten()));
            assert(inked(none) =~= none);
            assert(inked(all_words(held)) + none + inked(gs.skip(k + 1).flatten()) =~= inked(
                all_words(held),
            ) + inked(gs.skip(k + 1).flatten()));
        } else {
            lemma_tokens_from(gs, k + 1, word + gs[k], style, link, out);
            lemma_inked_append(word, gs[k]);
            assert(inked(all_words(out)) + (inked(word) + inked(gs[k])) + inked(
                gs.skip(k + 1).flatten(),
            ) =~= inked(all_words(out)) + inked(word) + (inked(gs[k]) + inked(
                gs.skip(k + 1).flatten(),
            )));
        }
    } else {
        assert(gs.skip(k) =~= Seq::empty());
        assert(gs.skip(k).flatten() =~= none);
        assert(inked(none) =~= none);
        assert(inked(all_words(held)) + none =~= inked(all_words(held)));
    }
}

proof fn lemma_text_read(t: Seq<char>, style: Style, link: Option<usize>, out: Seq<TokenV>)
    requires
        clusters_are_the_text(),
    ensures
        inked(all_words(tokenized(t, style, link, out))) == inked(all_words(out)) + inked(t),
{
    let gs = grapheme_clusters(t);
    let none = Seq::<char>::empty();
    lemma_tokens_from(gs, 0, none, style, link, out);
    assert(gs.skip(0) =~= gs);
    assert(inked(none) =~= none);
    assert(inked(all_words(out)) + none =~= inked(all_words(out)));
}

proof fn lemma_inlines_read(
    e: EnvV,
    s: Seq<InlineV>,
    style: Style,
    link: Option<usize>,
    t: TokensV,
)
    requires
        clusters_are_the_text(),
        e.opts.links != LinkMode::Reference,
    ensures
        inked(all_words(inlines_tokens(e, s, style, link, t).out)) == inked(all_words(t.out))
            + inked(read_inlines(e, s)),
    decreases s,
{
    if s.len() == 0 {
        assert(inked(all_words(t.out)) + inked(Seq::empty()) =~= inked(all_words(t.out)));
    } else {
        let before = inlines_tokens(e, s.drop_last(), style, link, t);
        lemma_inlines_read(e, s.drop_last(), style, link, t);
        lemma_inline_read(e, s.last(), style, link, before);
        lemma_inked_append(read_inlines(e, s.drop_last()), read_inline(e, s.last()));
        assert(inked(all_words(t.out)) + inked(read_inlines(e, s.drop_last())) + inked(
            read_inline(e, s.last()),
        ) =~= inked(all_words(t.out)) + inked(read_inlines(e, s)));
    }
}

proof fn lemma_inline_read(e: EnvV, i: InlineV, style: Style, link: Option<usize>, t: TokensV)
    requires
        clusters_are_the_text(),
        e.opts.links != LinkMode::Reference,
    ensures
        inked(all_words(inline_tokens_of(e, i, style, link, t).out)) == inked(all_words(t.out))
            + inked(read_inline(e, i)),
    decreases i,
{
    let none = Seq::<char>::empty();
    assert(inked(none) =~= none);
    assert(inked(all_words(t.out)) + none =~= inked(all_words(t.out)));
    match i {
        InlineV::Text(s) => lemma_text_read(s, style, link, t.out),
        InlineV::Code(s) => lemma_words_push(
            t.out,
            word_token(s, style.merged(e.theme.inline_code), link),
        ),
        InlineV::Emph(c) => lemma_inlines_read(e, c, style.merged(e.theme.emphasis), link, t),
        InlineV::Strong(c) => lemma_inlines_read(e, c, style.merged(e.theme.strong), link, t),
        InlineV::Strike(c) => lemma_inlines_read(
            e,
            c,
            style.merged(e.theme.strikethrough),
            link,
            t,
        ),
        InlineV::Superscript(c) => {
            reveal_strlit("^");
            assert("^"@ =~= seq!['^']);
            let m = word_token("^"@, e.theme.muted, link);
            lemma_words_push(t.out, m);
            lemma_inlines_read(e, c, style, link, TokensV { out: t.out.push(m), ..t });
            lemma_inked_append(seq!['^'], read_inlines(e, c));
            assert(inked(all_words(t.out)) + inked(seq!['^']) + inked(read_inlines(e, c)) =~= inked(
                all_words(t.out),
            ) + inked(read_inline(e, i)));
        },
        InlineV::Subscript(c) => {
            reveal_strlit("_");
            assert("_"@ =~= seq!['_']);
            let m = word_token("_"@, e.theme.muted, link);
            lemma_words_push(t.out, m);
            lemma_inlines_read(e, c, style, link, TokensV { out: t.out.push(m), ..t });
            lemma_inked_append(seq!['_'], read_inlines(e, c));
            assert(inked(all_words(t.out)) + inked(seq!['_']) + inked(read_inlines(e, c)) =~= inked(
                all_words(t.out),
            ) + inked(read_inline(e, i)));
        },
        InlineV::Math { text, .. } => lemma_words_push(
            t.out,
            word_token(math_shown(e, text), style.merged(e.theme.math), link),
        ),
        InlineV::Html(_) => {},
        InlineV::SoftBreak => lemma_words_push(t.out, space_token(style)),
        InlineV::HardBreak => lemma_words_push(t.out, break_token()),
        InlineV::FootnoteRef(label) => lemma_words_push(
            t.out,
            word_token(footnote_mark(e, label), e.theme.footnote_ref, link),
        ),
        InlineV::Image(img) => {
            reveal_strlit("image");
            let name = if img.alt.len() == 0 {
                "image"@
            } else {
                img.alt
            };
            assert("image"@ =~= seq!['i', 'm', 'a', 'g', 'e']);
            let shown = e.opts.glyphs.image_marker@ + seq![' '] + name;
            let r = inline_tokens_of(e, i, style, link, t);
            lemma_words_push(t.out, r.out.last());
            assert(r.out =~= t.out.push(r.out.last()));
            lemma_inked_append(e.opts.glyphs.image_marker@ + seq![' '], name);
            lemma_inked_append(e.opts.glyphs.image_marker@, seq![' ']);
            lemma_inked_blank(seq![' ']);
            lemma_inked_append(e.opts.glyphs.image_marker@, name);
            assert(inked(e.opts.glyphs.image_marker@) + none =~= inked(
                e.opts.glyphs.image_marker@,
            ));
            assert(inked(shown) == inked(read_inline(e, i)));
        },
        InlineV::Link { dest, content, .. } => {
            reveal_strlit("mailto:");
            assert("mailto:"@ =~= seq!['m', 'a', 'i', 'l', 't', 'o', ':']);
            let r = inline_tokens_of(e, i, style, link, t);
            let inner_link = super::blocks::link_if(
                super::blocks::use_osc8(e),
                super::blocks::link_id_of(t.st, dest),
            );
            let inner = TokensV { st: super::blocks::with_link(t.st, dest), ..t };
            let body = inlines_tokens(
                e,
                content,
                style.merged(e.theme.link_text),
                inner_link,
                inner,
            );
            lemma_inlines_read(e, content, style.merged(e.theme.link_text), inner_link, inner);
            let tail = read_destination(e, dest, plain(content));
            lemma_inked_append(read_inlines(e, content), tail);
            assert(inked(all_words(t.out)) + inked(read_inlines(e, content)) + inked(tail)
                =~= inked(all_words(t.out)) + inked(read_inline(e, i)));
            assert(inked(all_words(body.out)) + none =~= inked(all_words(body.out)));
            if tail.len() == 0 {
                assert(tail =~= none);
                assert(r.out == body.out);
            } else {
                let sp = space_token(style);
                let w = word_token(seq!['('] + dest + seq![')'], e.theme.link_url, None);
                lemma_words_push(body.out, sp);
                lemma_words_push(body.out.push(sp), w);
                assert(r.out == body.out.push(sp).push(w));
            }
        },
    }
}

/// The words of inline content are its text, in order, with nothing lost and nothing
/// added. Where links are listed at the end, their numbers stand between the words, and
/// those depend on what came before; that is left out here.
pub proof fn inline_content_is_read(e: EnvV, s: Seq<InlineV>, base: Style, st: StateV)
    requires
        clusters_are_the_text(),
        e.opts.links != LinkMode::Reference,
    ensures
        inked(all_words(tokens_of(e, s, base, st).out)) == inked(read_inlines(e, s)),
{
    lemma_inlines_read(e, s, base, None, TokensV { out: Seq::empty(), st });
    assert(all_words(Seq::<TokenV>::empty()) =~= Seq::empty());
    assert(inked(Seq::<char>::empty()) + inked(read_inlines(e, s)) =~= inked(read_inlines(e, s)));
}

// --- lines --------------------------------------------------------------------------------

/// The characters on a line.
pub open spec fn read_line(l: LineV) -> Seq<char> {
    spans_text(l.spans)
}

pub(crate) proof fn lemma_wrapped_read(tokens: Seq<TokenV>, width: int, align: Align)
    requires
        clusters_are_the_text(),
    ensures
        inked(text_on(wrapped(tokens, width, align))) == inked(all_words(tokens)),
{
    assert forall|j: int| 0 <= j < tokens.len() implies grapheme_clusters(
        (#[trigger] tokens[j]).text,
    ).flatten() == tokens[j].text by {}
    wrapping_keeps_the_words(tokens, width, align);
}

/// A paragraph is read as it was written, white space apart.
pub proof fn paragraphs_are_read(
    e: EnvV,
    pics: Pictures,
    s: Seq<InlineV>,
    width: int,
    st: StateV,
)
    requires
        clusters_are_the_text(),
        e.opts.links != LinkMode::Reference,
    ensures
        inked(text_on(block_drawn(e, pics, BlockV::Paragraph(s), width, st).lines)) == inked(
            read_inlines(e, s),
        ),
{
    inline_content_is_read(e, s, e.theme.text, st);
    lemma_wrapped_read(tokens_of(e, s, e.theme.text, st).out, width, Align::Left);
}

pub(crate) proof fn lemma_spans_text_add(a: Seq<SpanV>, b: Seq<SpanV>)
    ensures
        spans_text(a + b) == spans_text(a) + spans_text(b),
    decreases b.len(),
{
    if b.len() == 0 {
        assert(a + b =~= a);
        assert(spans_text(a) + spans_text(b) =~= spans_text(a));
    } else {
        lemma_spans_text_add(a, b.drop_last());
        assert((a + b).drop_last() =~= a + b.drop_last());
        assert(spans_text(a) + (spans_text(b.drop_last()) + b.last().text) =~= spans_text(a)
            + spans_text(b.drop_last()) + b.last().text);
    }
}

pub(crate) proof fn lemma_spans_text_one(s: SpanV)
    ensures
        spans_text(seq![s]) == s.text,
{
    assert(seq![s].drop_last() =~= Seq::empty());
    assert(spans_text(Seq::empty()) + s.text =~= s.text);
}

pub(crate) proof fn lemma_spans_text_push(a: Seq<SpanV>, s: SpanV)
    ensures
        spans_text(a.push(s)) == spans_text(a) + s.text,
{
    assert(a.push(s).drop_last() =~= a);
}

/// What is put before a line is read before it.
pub proof fn prefixes_come_first(l: LineV, p: Seq<SpanV>)
    ensures
        read_line(prefixed(l, p)) == spans_text(p) + read_line(l),
{
    merging_keeps_the_text(p + l.spans);
    lemma_spans_text_add(p, l.spans);
}

/// The first span of a run stays first when the run is merged.
proof fn lemma_merged_first(s: Seq<SpanV>)
    requires
        s.len() > 0,
        s[0].text.len() > 0,
    ensures
        merged(s).len() > 0,
        merged(s)[0].style == s[0].style,
        text::starts_with(merged(s)[0].text, s[0].text),
    decreases s.len(),
{
    if s.len() == 1 {
        assert(s.drop_last() =~= Seq::empty());
        assert(merged(s) =~= seq![s[0]]);
        assert(s[0].text.subrange(0, s[0].text.len() as int) =~= s[0].text);
    } else {
        let d = s.drop_last();
        lemma_merged_first(d);
        let m = merged(d);
        let r = merged(s);
        if m.len() == 1 && r.len() == 1 {
            assert(r[0].text.subrange(0, s[0].text.len() as int) =~= m[0].text.subrange(
                0,
                s[0].text.len() as int,
            ));
        } else {
            assert(r[0] == m[0]);
        }
    }
}

pub(crate) proof fn lemma_tinted_text(s: Seq<SpanV>, style: Style)
    ensures
        spans_text(tinted_spans(s, style)) == spans_text(s),
    decreases s.len(),
{
    let t = tinted_spans(s, style);
    if s.len() > 0 {
        lemma_tinted_text(s.drop_last(), style);
        assert(t.drop_last() =~= tinted_spans(s.drop_last(), style));
        assert(t.last().text == s.last().text);
    } else {
        assert(t =~= Seq::empty());
    }
}

// --- blocks, one after the other ------------------------------------------------------------

proof fn lemma_one_block(e: EnvV, pics: Pictures, b: Seq<BlockV>, width: int, st: StateV)
    requires
        b.len() == 1,
    ensures
        blocks_drawn(e, pics, b, width, st) == block_drawn(e, pics, b[0], width, st),
{
    let none = Seq::<BlockV>::empty();
    assert(b.drop_last() =~= none);
    let before = blocks_drawn(e, pics, none, width, st);
    assert(before == (DrawnV { lines: Seq::empty(), st }));
    let one = block_drawn(e, pics, b.last(), width, st);
    assert(blocks_drawn(e, pics, b, width, st) == joined(before, one, true));
    assert(Seq::<LineV>::empty() + one.lines =~= one.lines);
}

/// Blocks stand in their order, with a blank line between each two that show anything:
/// what a run of blocks draws is what its first part draws and below it, in the state
/// that leaves, what the rest draws.
pub proof fn blocks_stand_in_order(
    e: EnvV,
    pics: Pictures,
    a: Seq<BlockV>,
    b: Seq<BlockV>,
    width: int,
    st: StateV,
)
    ensures
        ({
            let above = blocks_drawn(e, pics, a, width, st);
            let below = blocks_drawn(e, pics, b, width, above.st);
            let all = blocks_drawn(e, pics, a + b, width, st);
            &&& all.st == below.st
            &&& all.lines == (if above.lines.len() > 0 && below.lines.len() > 0 {
                above.lines.push(blank_line()) + below.lines
            } else {
                above.lines + below.lines
            })
        }),
        b.len() == 1 ==> blocks_drawn(e, pics, b, width, st) == block_drawn(
            e,
            pics,
            b[0],
            width,
            st,
        ),
    decreases b.len(),
{
    let above = blocks_drawn(e, pics, a, width, st);
    if b.len() == 0 {
        assert(a + b =~= a);
        assert(above.lines + Seq::<LineV>::empty() =~= above.lines);
    } else {
        blocks_stand_in_order(e, pics, a, b.drop_last(), width, st);
        assert((a + b).drop_last() =~= a + b.drop_last());
        let mid = blocks_drawn(e, pics, b.drop_last(), width, above.st);
        let last = block_drawn(e, pics, b.last(), width, mid.st);
        let all = blocks_drawn(e, pics, a + b, width, st);
        let below = blocks_drawn(e, pics, b, width, above.st);
        let want = if above.lines.len() > 0 && below.lines.len() > 0 {
            above.lines.push(blank_line()) + below.lines
        } else {
            above.lines + below.lines
        };
        assert(all.lines =~= want);
        if b.len() == 1 {
            lemma_one_block(e, pics, b, width, st);
        }
    }
}

// --- lists ----------------------------------------------------------------------------------

/// What marks an item: a box where it is a task, its number where the list counts, and a
/// bullet otherwise.
pub open spec fn item_mark(e: EnvV, list: ListV, i: int, depth: int) -> Seq<char> {
    match list.items[i].task {
        Some(true) => seq!['['] + e.opts.glyphs.task_done@ + seq![']', ' '],
        Some(false) => seq!['['] + e.opts.glyphs.task_todo@ + seq![']', ' '],
        None => match list.start {
            Some(n) => text::decimal((n + i) as nat) + seq!['.', ' '],
            None => e.opts.glyphs.bullets@[depth]@ + seq![' '],
        },
    }
}

/// The style of such a mark.
pub open spec fn mark_style(e: EnvV, list: ListV, i: int) -> Style {
    match list.items[i].task {
        Some(true) => e.theme.task_done,
        Some(false) => e.theme.task_todo,
        None => match list.start {
            Some(_) => e.theme.number,
            None => e.theme.bullet,
        },
    }
}

/// The column in which the text of a list starts: behind the widest of its numbers,
/// which is the last, or behind its bullet.
pub open spec fn text_column(e: EnvV, list: ListV, depth: int) -> int {
    match list.start {
        Some(n) => sat(
            text_width(text::decimal((n + list.items.len() - 1) as nat) + seq!['.']) + 1,
        ),
        None => sat(text_width(e.opts.glyphs.bullets@[depth]@) + 1),
    }
}

/// The column in which the text of an item starts. A box has a width of its own.
pub open spec fn item_column(e: EnvV, list: ListV, i: int, depth: int) -> int {
    if list.items[i].task is Some {
        text_width(seq!['[', 'x', ']', ' ']) as int
    } else {
        text_column(e, list, depth)
    }
}

/// What is drawn of the items before item `i`.
pub open spec fn items_above(
    e: EnvV,
    pics: Pictures,
    list: ListV,
    width: int,
    depth: int,
    st: StateV,
    i: int,
) -> DrawnV {
    items_drawn(
        e,
        pics,
        list.start,
        list.tight,
        list.items.take(i),
        at_least(minus(width, text_column(e, list, depth)), 8),
        depth,
        text_column(e, list, depth),
        st,
    )
}

/// The line on which item `i` starts: below the items before it, and below a blank line
/// where the list is not tight.
pub open spec fn item_line(
    e: EnvV,
    pics: Pictures,
    list: ListV,
    width: int,
    depth: int,
    st: StateV,
    i: int,
) -> int {
    let above = items_above(e, pics, list, width, depth, st, i).lines.len() as int;
    if above > 0 && !list.tight {
        above + 1
    } else {
        above
    }
}

pub(crate) proof fn lemma_marked_text(lines: Seq<LineV>, marker: Seq<char>, style: Style, width: int, j: int)
    requires
        0 <= j < lines.len(),
    ensures
        marked(lines, marker, style, width).len() == lines.len(),
        read_line(marked(lines, marker, style, width)[j]) == (if j == 0 {
            marker + text::spaces(minus(width, text_width(marker) as int) as nat)
        } else {
            text::spaces(width as nat)
        }) + read_line(lines[j]),
        j == 0 && marker.len() > 0 ==> {
            let first = marked(lines, marker, style, width)[0].spans;
            &&& first.len() > 0
            &&& first[0].style == style
            &&& text::starts_with(first[0].text, marker)
        },
{
    let pad = minus(width, text_width(marker) as int);
    let bare = seq![span_of(marker, style)];
    let blank = super::plain_span(text::spaces(pad as nat));
    let first = if pad > 0 {
        bare.push(blank)
    } else {
        bare
    };
    let rest = seq![super::plain_span(text::spaces(width as nat))];
    lemma_spans_text_one(span_of(marker, style));
    lemma_spans_text_one(super::plain_span(text::spaces(width as nat)));
    lemma_spans_text_push(bare, blank);
    assert(pad <= 0 ==> marker + text::spaces(pad as nat) =~= marker);
    prefixes_come_first(lines[j], first);
    prefixes_come_first(lines[j], rest);
    if j == 0 && marker.len() > 0 {
        lemma_merged_first(first + lines[0].spans);
    }
}

proof fn lemma_item_marked(
    e: EnvV,
    list: ListV,
    lines: Seq<LineV>,
    i: int,
    depth: int,
    columns: int,
    j: int,
)
    requires
        0 <= i < list.items.len(),
        0 <= j < lines.len(),
        list.start matches Some(n) ==> n + i <= u64::MAX,
        columns == text_column(e, list, depth),
        0 <= depth < 3,
    ensures
        ({
            let r = item_marked(e, lines, list.items[i].task, list.start, i, depth, columns);
            let mark = item_mark(e, list, i, depth);
            let column = item_column(e, list, i, depth);
            &&& r.len() == lines.len()
            &&& read_line(r[j]) == (if j == 0 {
                mark + text::spaces(minus(column, text_width(mark) as int) as nat)
            } else {
                text::spaces(column as nat)
            }) + read_line(lines[j])
            &&& j == 0 ==> {
                &&& r[0].spans.len() > 0
                &&& r[0].spans[0].style == mark_style(e, list, i)
                &&& text::starts_with(r[0].spans[0].text, mark)
            }
        }),
{
    reveal_strlit("[");
    reveal_strlit("] ");
    reveal_strlit(". ");
    reveal_strlit(" ");
    reveal_strlit("[x] ");
    assert("[x] "@ =~= seq!['[', 'x', ']', ' ']);
    assert("["@ =~= seq!['[']);
    assert("] "@ =~= seq![']', ' ']);
    assert(". "@ =~= seq!['.', ' ']);
    assert(" "@ =~= seq![' ']);
    let mark = item_mark(e, list, i, depth);
    let style = mark_style(e, list, i);
    let column = item_column(e, list, i, depth);
    match list.items[i].task {
        Some(done) => {
            let shown = if done {
                tinted(lines, e.theme.task_done_text)
            } else {
                lines
            };
            lemma_marked_text(shown, mark, style, column, j);
            lemma_tinted_text(lines[j].spans, e.theme.task_done_text);
            assert(read_line(shown[j]) == read_line(lines[j]));
        },
        None => lemma_marked_text(lines, mark, style, column, j),
    }
}

proof fn lemma_items_prefix(
    e: EnvV,
    pics: Pictures,
    start: Option<u64>,
    tight: bool,
    s: Seq<ListItemV>,
    width: int,
    depth: int,
    columns: int,
    st: StateV,
    k: int,
)
    requires
        0 <= k <= s.len(),
    ensures
        items_drawn(e, pics, start, tight, s.take(k), width, depth, columns, st).lines.is_prefix_of(
            items_drawn(e, pics, start, tight, s, width, depth, columns, st).lines,
        ),
    decreases s.len() - k,
{
    if k == s.len() {
        assert(s.take(k) =~= s);
    } else {
        lemma_items_prefix(e, pics, start, tight, s, width, depth, columns, st, k + 1);
        assert(s.take(k + 1).drop_last() =~= s.take(k));
    }
}

/// Each item of a list stands below the one before it and begins with its own mark. In a
/// list that counts from `n` that is the number `n + i`, so the numbers go up by one from
/// item to item; a task has its box, done or not, and any other item its bullet. The text
/// of the item follows, line by line, all of it in one column: that of the widest number.
pub proof fn items_carry_their_marks(
    e: EnvV,
    pics: Pictures,
    list: ListV,
    width: int,
    depth: int,
    st: StateV,
    i: int,
)
    requires
        0 <= i < list.items.len(),
        0 <= depth < 3,
        list.start matches Some(n) ==> n + list.items.len() <= u64::MAX,
    ensures
        ({
            let all = list_drawn(e, pics, list, width, depth, st).lines;
            let above = items_above(e, pics, list, width, depth, st, i);
            let body = item_blocks_drawn(
                e,
                pics,
                list.items[i].blocks,
                at_least(minus(width, text_column(e, list, depth)), 8),
                depth,
                above.st,
            );
            let at = item_line(e, pics, list, width, depth, st, i);
            let mark = item_mark(e, list, i, depth);
            let column = item_column(e, list, i, depth);
            &&& i == 0 ==> at == 0
            &&& items_above(e, pics, list, width, depth, st, i + 1).lines.len() == at
                + body.lines.len()
            &&& items_above(e, pics, list, width, depth, st, i + 1).st == body.st
            &&& at + body.lines.len() <= all.len()
            &&& i + 1 == list.items.len() ==> at + body.lines.len() == all.len()
            &&& forall|j: int|
                #![trigger body.lines[j]]
                0 <= j < body.lines.len() ==> read_line(all[at + j]) == (if j == 0 {
                    mark + text::spaces(minus(column, text_width(mark) as int) as nat)
                } else {
                    text::spaces(column as nat)
                }) + read_line(body.lines[j])
            &&& body.lines.len() > 0 ==> {
                &&& all[at].spans.len() > 0
                &&& all[at].spans[0].style == mark_style(e, list, i)
                &&& text::starts_with(all[at].spans[0].text, mark)
            }
        }),
{
    let columns = text_column(e, list, depth);
    let inner = at_least(minus(width, columns), 8);
    reveal_strlit(".");
    assert("."@ =~= seq!['.']);
    assert(columns == super::blocks::marker_width(e, list.start, list.items.len(), depth));
    let all = list_drawn(e, pics, list, width, depth, st).lines;
    let above = items_above(e, pics, list, width, depth, st, i);
    let body = item_blocks_drawn(e, pics, list.items[i].blocks, inner, depth, above.st);
    let at = item_line(e, pics, list, width, depth, st, i);
    let next = items_above(e, pics, list, width, depth, st, i + 1);
    let s = list.items.take(i + 1);
    assert(s.drop_last() =~= list.items.take(i));
    assert(s.last() == list.items[i]);
    if i == 0 {
        assert(list.items.take(0) =~= Seq::empty());
    }
    let lines = item_marked(e, body.lines, list.items[i].task, list.start, i, depth, columns);
    assert(lines.len() == body.lines.len());
    assert(next.lines.skip(at) =~= lines);
    lemma_items_prefix(
        e,
        pics,
        list.start,
        list.tight,
        list.items,
        inner,
        depth,
        columns,
        st,
        i + 1,
    );
    if i + 1 == list.items.len() {
        assert(s =~= list.items);
    }
    assert forall|j: int| #![trigger body.lines[j]] 0 <= j < body.lines.len() implies read_line(
        all[at + j],
    ) == (if j == 0 {
        item_mark(e, list, i, depth) + text::spaces(
            minus(
                item_column(e, list, i, depth),
                text_width(item_mark(e, list, i, depth)) as int,
            ) as nat,
        )
    } else {
        text::spaces(item_column(e, list, i, depth) as nat)
    }) + read_line(body.lines[j]) by {
        lemma_item_marked(e, list, body.lines, i, depth, columns, j);
        assert(all[at + j] == next.lines[at + j]);
        assert(next.lines[at + j] == lines[j]);
    }
    if body.lines.len() > 0 {
        lemma_item_marked(e, list, body.lines, i, depth, columns, 0);
        assert(all[at] == next.lines[at]);
        assert(next.lines[at] == lines[0]);
    }
}

} // verus!
