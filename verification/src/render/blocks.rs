//! Block layout: the part that decides what a document actually looks like.
use vstd::prelude::*;

use super::code::{all_styled_view, opt_str, styled_view, Highlighter, StyledLine};
use super::inline::{
    break_token, chunks, display_width, push_token, space_token, split_to_width, text_width,
    tokenize_text, tokenized, tokens_view, word_token, wrap, wrapped, Align, Token, TokenV,
};
use super::math;
use super::table;
use super::table::{span_of, DrawnV};
use super::{
    aligned, blank_line, filled, headings_view, line_of, lines_view, one_span, pad_line_background,
    plain_span, prefix_all, prefixed, prefixed_all, push_line, push_lines, push_span, sat,
    spans_view, spans_width, HeadingEntry, HeadingV, ImagePlacement, ImageProvider, Line, LineV,
    LinkMode, Pictures, PlacementV, RenderOptions, Span, SpanV,
};
use crate::binary64;
use crate::markdown::ir::{
    alert_label, block_view, blocks_view, bodies_view, definition_view, definitions_view,
    inline_view, inlines_view, item_view, items_view, list_view, plain, plain_text, AlertKind,
    Block, BlockV, ImageRef, ImageRefV, Inline, InlineV, List, ListItemV, ListV,
};
use crate::term::caps::{cell_or_guess, Capabilities, GraphicsProtocol, UnicodeLevel};
use crate::term::style::{plain_style, Color, Rgb, Style};
use crate::text;
use crate::text_map::TextMap;
use crate::theme::{alert_index, heading_index, Theme};

verus! {

// --- what a render pass works with ----------------------------------------------

/// What stays the same throughout a render pass.
pub struct Env<'a> {
    pub opts: &'a RenderOptions,
    pub theme: &'a Theme,
    pub caps: &'a Capabilities,
    pub highlighter: &'a Highlighter,
    /// Footnote label to its printed number.
    pub footnote_numbers: TextMap,
}

pub struct EnvV {
    pub opts: RenderOptions,
    pub theme: Theme,
    pub caps: Capabilities,
    pub highlighter: Highlighter,
    pub footnotes: Map<Seq<char>, usize>,
}

impl<'a> View for Env<'a> {
    type V = EnvV;

    open spec fn view(&self) -> EnvV {
        EnvV {
            opts: *self.opts,
            theme: *self.theme,
            caps: *self.caps,
            highlighter: *self.highlighter,
            footnotes: self.footnote_numbers@,
        }
    }
}

/// What a render pass collects along the way.
pub struct State {
    /// Link destinations, in first-use order.
    pub links: Vec<String>,
    pub headings: Vec<HeadingEntry>,
    /// Links to list at the end, in [`LinkMode::Reference`].
    pub references: Vec<String>,
    pub code_blocks: Vec<String>,
}

pub struct StateV {
    pub links: Seq<Seq<char>>,
    pub headings: Seq<HeadingV>,
    pub references: Seq<Seq<char>>,
    pub code_blocks: Seq<Seq<char>>,
}

impl View for State {
    type V = StateV;

    open spec fn view(&self) -> StateV {
        StateV {
            links: text::views(self.links@),
            headings: headings_view(self.headings@),
            references: text::views(self.references@),
            code_blocks: text::views(self.code_blocks@),
        }
    }
}

/// `a - b`, but not below zero.
pub open spec fn minus(a: int, b: int) -> int {
    if a > b {
        a - b
    } else {
        0
    }
}

pub open spec fn at_least(a: int, low: int) -> int {
    if a < low {
        low
    } else {
        a
    }
}

pub open spec fn at_most(a: int, high: int) -> int {
    if a > high {
        high
    } else {
        a
    }
}

pub(crate) fn max_of(a: usize, b: usize) -> (r: usize)
    ensures
        r == at_least(a as int, b as int),
{
    if a < b {
        b
    } else {
        a
    }
}

/// Whether to attach OSC 8 hyperlinks to link spans.
pub open spec fn use_osc8(e: EnvV) -> bool {
    match e.opts.links {
        LinkMode::Auto => e.caps.hyperlinks,
        LinkMode::Hyperlink => true,
        _ => false,
    }
}

/// The first of `links[k..]` that is `dest`, or their number.
pub open spec fn link_index(links: Seq<Seq<char>>, dest: Seq<char>, k: int) -> int
    decreases links.len() - k,
{
    if k < 0 || k >= links.len() {
        links.len() as int
    } else if links[k] == dest {
        k
    } else {
        link_index(links, dest, k + 1)
    }
}

/// The link table once `dest` is in it.
pub open spec fn with_link(st: StateV, dest: Seq<char>) -> StateV {
    if link_index(st.links, dest, 0) < st.links.len() {
        st
    } else {
        StateV { links: st.links.push(dest), ..st }
    }
}

/// The index of a destination that has just been registered.
pub open spec fn link_id_of(st: StateV, dest: Seq<char>) -> usize {
    link_index(st.links, dest, 0) as usize
}

impl<'a> Env<'a> {
    fn use_osc8(&self) -> (r: bool)
        ensures
            r == use_osc8(self@),
    {
        match self.opts.links {
            LinkMode::Auto => self.caps.hyperlinks,
            LinkMode::Hyperlink => true,
            _ => false,
        }
    }
}

impl State {
    /// A state with the same contents, to try something out on.
    pub fn copy(&self) -> (r: State)
        ensures
            r@ == self@,
    {
        let mut headings: Vec<HeadingEntry> = Vec::new();
        for k in 0..self.headings.len()
            invariant
                headings.len() == k,
                forall|j: int| 0 <= j < k ==> (#[trigger] headings@[j])@ == self.headings@[j]@,
        {
            let h = &self.headings[k];
            headings.push(
                HeadingEntry {
                    level: h.level,
                    text: h.text.clone(),
                    id: h.id.clone(),
                    line: h.line,
                },
            );
        }
        let r = State {
            links: text::copied(&self.links),
            headings,
            references: text::copied(&self.references),
            code_blocks: text::copied(&self.code_blocks),
        };
        assert(r@.headings =~= self@.headings);
        r
    }

    /// Registers a link destination and returns its index.
    fn link_id(&mut self, dest: &str) -> (r: usize)
        ensures
            final(self)@ == with_link(old(self)@, dest@),
            r == link_id_of(old(self)@, dest@),
    {
        let ghost v = text::views(self.links@);
        let mut k: usize = 0;
        while k < self.links.len() && !text::same(&self.links[k], dest)
            invariant
                v == text::views(self.links@),
                *self == *old(self),
                k <= self.links.len(),
                link_index(v, dest@, k as int) == link_index(v, dest@, 0),
            decreases self.links.len() - k,
        {
            assert(v[k as int] == self.links@[k as int]@);
            k = k + 1;
        }
        if k < self.links.len() {
            assert(v[k as int] == self.links@[k as int]@);
            return k;
        }
        let n: usize = self.links.len();
        let url = text::owned(dest);
        self.links.push(url);
        assert(text::views(self.links@) =~= v.push(dest@));
        n
    }
}

// --- inline content ---------------------------------------------------------------

/// The tokens of inline content, and the state after them.
pub struct TokensV {
    pub out: Seq<TokenV>,
    pub st: StateV,
}

/// A formula as it is shown: in Unicode, unless the terminal has only ASCII.
pub open spec fn math_shown(e: EnvV, t: Seq<char>) -> Seq<char> {
    if e.caps.unicode == UnicodeLevel::Ascii {
        t
    } else {
        math::converted(t, math::MAX_DEPTH as nat)
    }
}

/// Tokens with one more.
pub open spec fn and_token(t: TokensV, token: TokenV) -> TokensV {
    TokensV { out: t.out.push(token), ..t }
}

/// The number printed for a footnote, or its label where it has none.
pub open spec fn footnote_mark(e: EnvV, label: Seq<char>) -> Seq<char> {
    seq!['['] + (if e.footnotes.dom().contains(label) {
        text::decimal(e.footnotes[label] as nat)
    } else {
        label
    }) + seq![']']
}

/// `id` where hyperlinks are used.
pub open spec fn link_if(yes: bool, id: usize) -> Option<usize> {
    if yes {
        Some(id)
    } else {
        None
    }
}

/// What is added after the text of a link, to show where it leads. An autolink already
/// shows its destination; repeating it is just noise.
pub open spec fn with_destination(
    e: EnvV,
    dest: Seq<char>,
    content: Seq<char>,
    style: Style,
    t: TokensV,
) -> TokensV {
    let repeats = content == dest || "mailto:"@ + content == dest || dest.len() == 0;
    match e.opts.links {
        LinkMode::Hide | LinkMode::Hyperlink => t,
        LinkMode::Auto | LinkMode::Inline => if (e.opts.links == LinkMode::Auto
            && e.caps.hyperlinks) || repeats {
            t
        } else {
            and_token(
                and_token(t, space_token(style)),
                word_token(seq!['('] + dest + seq![')'], e.theme.link_url, None),
            )
        },
        LinkMode::Reference => if repeats {
            t
        } else {
            TokensV {
                out: t.out.push(
                    word_token(
                        seq!['['] + text::decimal(sat(t.st.references.len() as int + 1) as nat)
                            + seq![']'],
                        e.theme.link_url,
                        None,
                    ),
                ),
                st: StateV { references: t.st.references.push(dest), ..t.st },
            }
        },
    }
}

/// The tokens after a run of inline content.
pub open spec fn inlines_tokens(
    e: EnvV,
    s: Seq<InlineV>,
    style: Style,
    link: Option<usize>,
    t: TokensV,
) -> TokensV
    decreases s,
{
    if s.len() == 0 {
        t
    } else {
        inline_tokens_of(e, s.last(), style, link, inlines_tokens(e, s.drop_last(), style, link, t))
    }
}

/// The tokens after one inline element.
pub open spec fn inline_tokens_of(
    e: EnvV,
    i: InlineV,
    style: Style,
    link: Option<usize>,
    t: TokensV,
) -> TokensV
    decreases i,
{
    match i {
        InlineV::Text(s) => TokensV { out: tokenized(s, style, link, t.out), ..t },
        // Inline code keeps its interior spaces, so it is one token.
        InlineV::Code(s) => and_token(
            t,
            word_token(s, style.merged(e.theme.inline_code), link),
        ),
        InlineV::Emph(c) => inlines_tokens(e, c, style.merged(e.theme.emphasis), link, t),
        InlineV::Strong(c) => inlines_tokens(e, c, style.merged(e.theme.strong), link, t),
        InlineV::Strike(c) => inlines_tokens(e, c, style.merged(e.theme.strikethrough), link, t),
        InlineV::Superscript(c) => inlines_tokens(
            e,
            c,
            style,
            link,
            and_token(t, word_token("^"@, e.theme.muted, link)),
        ),
        InlineV::Subscript(c) => inlines_tokens(
            e,
            c,
            style,
            link,
            and_token(t, word_token("_"@, e.theme.muted, link)),
        ),
        InlineV::Math { text, .. } => and_token(
            t,
            word_token(math_shown(e, text), style.merged(e.theme.math), link),
        ),
        InlineV::Html(_) => t,
        InlineV::SoftBreak => and_token(t, space_token(style)),
        InlineV::HardBreak => and_token(t, break_token()),
        InlineV::FootnoteRef(label) => and_token(
            t,
            word_token(footnote_mark(e, label), e.theme.footnote_ref, link),
        ),
        // An image inside a sentence becomes its alt text: there is nowhere to put a
        // picture mid-line without breaking the flow.
        InlineV::Image(img) => and_token(
            TokensV { st: with_link(t.st, img.url), ..t },
            word_token(
                e.opts.glyphs.image_marker@ + seq![' '] + (if img.alt.len() == 0 {
                    "image"@
                } else {
                    img.alt
                }),
                style.merged(e.theme.caption),
                link_if(use_osc8(e), link_id_of(t.st, img.url)),
            ),
        ),
        InlineV::Link { dest, content, .. } => with_destination(
            e,
            dest,
            plain(content),
            style,
            inlines_tokens(
                e,
                content,
                style.merged(e.theme.link_text),
                link_if(use_osc8(e), link_id_of(t.st, dest)),
                TokensV { st: with_link(t.st, dest), ..t },
            ),
        ),
    }
}

/// The tokens of inline content on its own.
pub open spec fn tokens_of(e: EnvV, s: Seq<InlineV>, base: Style, st: StateV) -> TokensV {
    inlines_tokens(e, s, base, None, TokensV { out: Seq::empty(), st })
}

/// Converts inline content into styled tokens.
pub fn inline_tokens(
    inlines: &Vec<Inline>,
    env: &Env<'_>,
    st: &mut State,
    base: Style,
) -> (r: Vec<Token>)
    ensures
        (TokensV { out: tokens_view(r@), st: final(st)@ }) == tokens_of(
            env@,
            inlines_view(*inlines),
            base,
            old(st)@,
        ),
{
    let mut out: Vec<Token> = Vec::new();
    assert(tokens_view(out@) =~= Seq::empty());
    push_inlines(inlines, env, st, base, None, &mut out);
    out
}

fn push_inlines(
    inlines: &Vec<Inline>,
    env: &Env<'_>,
    st: &mut State,
    style: Style,
    link: Option<usize>,
    out: &mut Vec<Token>,
)
    ensures
        (TokensV { out: tokens_view(final(out)@), st: final(st)@ }) == inlines_tokens(
            env@,
            inlines_view(*inlines),
            style,
            link,
            TokensV { out: tokens_view(old(out)@), st: old(st)@ },
        ),
    decreases inlines, 0int,
{
    let ghost e = env@;
    let ghost v = inlines_view(*inlines);
    let ghost start = TokensV { out: tokens_view(out@), st: st@ };
    let n: usize = inlines.len();
    assert(v.take(0) =~= Seq::empty());
    for i in 0..n
        invariant
            n == inlines.len(),
            e == env@,
            v == inlines_view(*inlines),
            (TokensV { out: tokens_view(out@), st: st@ }) == inlines_tokens(
                e,
                v.take(i as int),
                style,
                link,
                start,
            ),
    {
        assert(v[i as int] == inline_view(inlines@[i as int]));
        assert(v.take(i + 1).drop_last() =~= v.take(i as int));
        assert(v.take(i + 1).last() == v[i as int]);
        push_inline(&inlines[i], env, st, style, link, out);
    }
    assert(v.take(n as int) =~= v);
}

fn push_inline(
    inline: &Inline,
    env: &Env<'_>,
    st: &mut State,
    style: Style,
    link: Option<usize>,
    out: &mut Vec<Token>,
)
    ensures
        (TokensV { out: tokens_view(final(out)@), st: final(st)@ }) == inline_tokens_of(
            env@,
            inline_view(*inline),
            style,
            link,
            TokensV { out: tokens_view(old(out)@), st: old(st)@ },
        ),
    decreases inline, 1int,
{
    let theme = env.theme;
    match inline {
        Inline::Text(t) => tokenize_text(t, style, link, out),
        Inline::Code(t) => {
            push_token(out, Token::word(t.clone(), style.merge(theme.inline_code), link));
        },
        Inline::Emph(c) => {
            push_inlines(c, env, st, style.merge(theme.emphasis), link, out);
        },
        Inline::Strong(c) => {
            push_inlines(c, env, st, style.merge(theme.strong), link, out);
        },
        Inline::Strike(c) => {
            push_inlines(c, env, st, style.merge(theme.strikethrough), link, out);
        },
        Inline::Superscript(c) => {
            push_token(out, Token::word(text::owned("^"), theme.muted, link));
            push_inlines(c, env, st, style, link, out);
        },
        Inline::Subscript(c) => {
            push_token(out, Token::word(text::owned("_"), theme.muted, link));
            push_inlines(c, env, st, style, link, out);
        },
        Inline::Math { text, .. } => {
            let shown = show_math(text, env);
            push_token(out, Token::word(shown, style.merge(theme.math), link));
        },
        Inline::Html(_) => {},
        Inline::SoftBreak => push_token(out, Token::space(style)),
        Inline::HardBreak => push_token(out, Token::hard_break()),
        Inline::FootnoteRef(label) => {
            let mut mark = text::owned("[");
            proof {
                reveal_strlit("[");
                reveal_strlit("]");
            }
            match env.footnote_numbers.get(label) {
                Some(n) => text::push_decimal(&mut mark, n as u64),
                None => mark.push_str(label),
            }
            mark.push(']');
            assert(mark@ =~= footnote_mark(env@, label@));
            push_token(out, Token::word(mark, theme.footnote_ref, link));
        },
        Inline::Image(img) => {
            let id = st.link_id(&img.url);
            let mut label = text::owned(env.opts.glyphs.image_marker);
            label.push(' ');
            if img.alt.as_str().is_empty() {
                label.push_str("image");
            } else {
                label.push_str(&img.alt);
            }
            assert(label@ =~= env.opts.glyphs.image_marker@ + seq![' '] + (if img.alt@.len() == 0 {
                "image"@
            } else {
                img.alt@
            }));
            let target = if env.use_osc8() {
                Some(id)
            } else {
                None
            };
            push_token(out, Token::word(label, style.merge(theme.caption), target));
        },
        Inline::Link { dest, content, .. } => {
            let id = st.link_id(dest);
            let target = if env.use_osc8() {
                Some(id)
            } else {
                None
            };
            push_inlines(content, env, st, style.merge(theme.link_text), target, out);
            let shown = plain_text(content);
            push_destination(dest, &shown, env, st, style, out);
        },
    }
}

fn show_math(t: &str, env: &Env<'_>) -> (r: String)
    ensures
        r@ == math_shown(env@, t@),
{
    if env.caps.unicode == UnicodeLevel::Ascii {
        text::owned(t)
    } else {
        math::to_unicode(t)
    }
}

/// `open`, the text, `close`.
pub(crate) fn enclosed(open: char, t: &str, close: char) -> (r: String)
    ensures
        r@ == seq![open] + t@ + seq![close],
{
    let mut out: String = String::new();
    out.push(open);
    out.push_str(t);
    out.push(close);
    assert(out@ =~= seq![open] + t@ + seq![close]);
    out
}

fn push_destination(
    dest: &str,
    shown: &str,
    env: &Env<'_>,
    st: &mut State,
    style: Style,
    out: &mut Vec<Token>,
)
    ensures
        (TokensV { out: tokens_view(final(out)@), st: final(st)@ }) == with_destination(
            env@,
            dest@,
            shown@,
            style,
            TokensV { out: tokens_view(old(out)@), st: old(st)@ },
        ),
{
    let mut mail = text::owned("mailto:");
    mail.push_str(shown);
    let repeats = text::same(shown, dest) || text::same(&mail, dest) || dest.is_empty();
    match env.opts.links {
        LinkMode::Hide | LinkMode::Hyperlink => {},
        LinkMode::Auto | LinkMode::Inline => {
            if !((env.opts.links == LinkMode::Auto && env.caps.hyperlinks) || repeats) {
                push_token(out, Token::space(style));
                push_token(
                    out,
                    Token::word(enclosed('(', dest, ')'), env.theme.link_url, None),
                );
            }
        },
        LinkMode::Reference => {
            if !repeats {
                let ghost v = text::views(st.references@);
                let number = st.references.len().saturating_add(1);
                let url = text::owned(dest);
                st.references.push(url);
                assert(text::views(st.references@) =~= v.push(dest@));
                let mut digits: String = String::new();
                text::push_decimal(&mut digits, number as u64);
                assert(digits@ =~= text::decimal(number as nat));
                push_token(
                    out,
                    Token::word(enclosed('[', &digits, ']'), env.theme.link_url, None),
                );
            }
        },
    }
}

// --- helpers on lines ---------------------------------------------------------------

/// Lines with `marker` on the first, padded to `width`, and the rest under its text.
pub open spec fn marked(
    lines: Seq<LineV>,
    marker: Seq<char>,
    style: Style,
    width: int,
) -> Seq<LineV> {
    let pad = minus(width, text_width(marker) as int);
    let first = seq![span_of(marker, style)];
    prefixed_all(
        lines,
        if pad > 0 {
            first.push(plain_span(text::spaces(pad as nat)))
        } else {
            first
        },
        seq![plain_span(text::spaces(width as nat))],
    )
}

/// Puts `marker` on the first line and aligns the rest under the text.
pub(crate) fn prefix_first_line(lines: &mut Vec<Line>, marker: String, style: Style, width: usize)
    ensures
        lines_view(final(lines)@) == marked(
            lines_view(old(lines)@),
            marker@,
            style,
            width as int,
        ),
{
    let pad = width.saturating_sub(display_width(&marker));
    let mut first = one_span(Span::new(marker, style, None));
    if pad > 0 {
        push_span(&mut first, Span::plain(text::spaces_string(pad)));
    }
    let rest = one_span(Span::plain(text::spaces_string(width)));
    prefix_all(lines, &first, &rest);
}

/// Lines moved right by `by` columns.
pub open spec fn indented(lines: Seq<LineV>, by: nat) -> Seq<LineV> {
    prefixed_all(lines, seq![plain_span(text::spaces(by))], seq![plain_span(text::spaces(by))])
}

fn indent(lines: &mut Vec<Line>, by: usize)
    ensures
        lines_view(final(lines)@) == indented(lines_view(old(lines)@), by as nat),
{
    let pad = one_span(Span::plain(text::spaces_string(by)));
    prefix_all(lines, &pad, &pad);
}

/// A style tinted by another: text without a colour takes the whole style, text that
/// has one keeps it and takes the attributes.
pub open spec fn tinted_style(s: Style, tint: Style) -> Style {
    if s.fg == Color::Default {
        s.merged(tint)
    } else {
        s.merged(Style { fg: Color::Default, bg: Color::Default, ..tint })
    }
}

pub open spec fn tinted_spans(s: Seq<SpanV>, style: Style) -> Seq<SpanV> {
    s.map_values(|x: SpanV| SpanV { style: tinted_style(x.style, style), ..x })
}

/// Lines with a colour applied to the spans that do not have one.
pub open spec fn tinted(lines: Seq<LineV>, style: Style) -> Seq<LineV> {
    lines.map_values(|l: LineV| LineV { spans: tinted_spans(l.spans, style), ..l })
}

fn tint_line(line: &mut Line, style: Style)
    ensures
        final(line)@ == (LineV {
            spans: tinted_spans(old(line)@.spans, style),
            ..old(line)@
        }),
{
    let ghost v = spans_view(line.spans@);
    let ghost all = tinted_spans(v, style);
    let n: usize = line.spans.len();
    for i in 0..n
        invariant
            n == line.spans.len(),
            n == v.len(),
            all == tinted_spans(v, style),
            line.image == old(line).image,
            line.image_filler == old(line).image_filler,
            line.anchor == old(line).anchor,
            line.code == old(line).code,
            forall|k: int| 0 <= k < i ==> (#[trigger] line.spans@[k])@ == all[k],
            forall|k: int| i <= k < n ==> (#[trigger] line.spans@[k])@ == v[k],
    {
        assert(line.spans@[i as int]@ == v[i as int]);
        let current = line.spans[i].style;
        let next = if current.fg == Color::Default {
            current.merge(style)
        } else {
            // Keep the colour, adopt the attributes.
            current.merge(Style { fg: Color::Default, bg: Color::Default, ..style })
        };
        line.spans[i].style = next;
    }
    assert(spans_view(line.spans@) =~= all);
}

/// Applies a colour to spans that do not have one, leaving styled runs alone.
///
/// Used for quote bodies and completed tasks, where the whole block should read as
/// muted without flattening the colours of code spans or links inside it.
fn tint(lines: &mut Vec<Line>, style: Style)
    ensures
        lines_view(final(lines)@) == tinted(lines_view(old(lines)@), style),
{
    let ghost v = lines_view(lines@);
    let ghost all = tinted(v, style);
    let n: usize = lines.len();
    for i in 0..n
        invariant
            n == lines.len(),
            n == v.len(),
            all == tinted(v, style),
            forall|k: int| 0 <= k < i ==> (#[trigger] lines@[k])@ == all[k],
            forall|k: int| i <= k < n ==> (#[trigger] lines@[k])@ == v[k],
    {
        assert(lines@[i as int]@ == v[i as int]);
        tint_line(&mut lines[i], style);
    }
    assert(lines_view(lines@) =~= all);
}

/// Lines that draw part of a code block.
pub open spec fn coded(lines: Seq<LineV>, index: usize) -> Seq<LineV> {
    lines.map_values(|l: LineV| LineV { code: Some(index), ..l })
}

fn mark_code(lines: &mut Vec<Line>, index: usize)
    ensures
        lines_view(final(lines)@) == coded(lines_view(old(lines)@), index),
{
    let ghost v = lines_view(lines@);
    let ghost all = coded(v, index);
    let n: usize = lines.len();
    for i in 0..n
        invariant
            n == lines.len(),
            n == v.len(),
            all == coded(v, index),
            forall|k: int| 0 <= k < i ==> (#[trigger] lines@[k])@ == all[k],
            forall|k: int| i <= k < n ==> (#[trigger] lines@[k])@ == v[k],
    {
        assert(lines@[i as int]@ == v[i as int]);
        lines[i].code = Some(index);
    }
    assert(lines_view(lines@) =~= all);
}

pub(crate) fn no_lines() -> (r: Vec<Line>)
    ensures
        lines_view(r@) == Seq::<LineV>::empty(),
{
    let r: Vec<Line> = Vec::new();
    assert(lines_view(r@) =~= Seq::empty());
    r
}

pub(crate) fn one_line(l: Line) -> (r: Vec<Line>)
    ensures
        lines_view(r@) == seq![l@],
{
    let mut r = no_lines();
    push_line(&mut r, l);
    assert(lines_view(r@) =~= seq![l@]);
    r
}

fn no_tokens() -> (r: Vec<Token>)
    ensures
        tokens_view(r@) == Seq::<TokenV>::empty(),
{
    let r: Vec<Token> = Vec::new();
    assert(tokens_view(r@) =~= Seq::empty());
    r
}

pub(crate) fn one_token(t: Token) -> (r: Vec<Token>)
    ensures
        tokens_view(r@) == seq![t@],
{
    let mut r = no_tokens();
    push_token(&mut r, t);
    assert(tokens_view(r@) =~= seq![t@]);
    r
}

// --- headings -----------------------------------------------------------------------

/// Inline content as plain text, formulas as the page shows them.
pub open spec fn shown(e: EnvV, s: Seq<InlineV>) -> Seq<char>
    decreases s,
{
    if s.len() == 0 {
        Seq::empty()
    } else {
        shown(e, s.drop_last()) + shown_inline(e, s.last())
    }
}

pub open spec fn shown_inline(e: EnvV, i: InlineV) -> Seq<char>
    decreases i,
{
    match i {
        InlineV::Text(t) | InlineV::Code(t) => t,
        InlineV::Math { text, .. } => math_shown(e, text),
        InlineV::Emph(c) | InlineV::Strong(c) | InlineV::Strike(c) => shown(e, c),
        InlineV::Superscript(c) | InlineV::Subscript(c) => shown(e, c),
        InlineV::Link { content, .. } => shown(e, content),
        InlineV::Image(img) => img.alt,
        InlineV::SoftBreak | InlineV::HardBreak => seq![' '],
        InlineV::FootnoteRef(label) => seq!['['] + label + seq![']'],
        InlineV::Html(_) => Seq::empty(),
    }
}

fn push_shown(inlines: &Vec<Inline>, env: &Env<'_>, out: &mut String)
    ensures
        final(out)@ == old(out)@ + shown(env@, inlines_view(*inlines)),
    decreases inlines,
{
    let n: usize = inlines.len();
    let ghost v = inlines_view(*inlines);
    assert(v.take(0) =~= Seq::empty());
    assert(out@ + shown(env@, v.take(0)) =~= out@);
    for i in 0..n
        invariant
            n == inlines@.len(),
            v == inlines_view(*inlines),
            out@ == old(out)@ + shown(env@, v.take(i as int)),
    {
        let ghost before = out@;
        assert(v[i as int] == inline_view(inlines@[i as int]));
        match &inlines[i] {
            Inline::Text(t) | Inline::Code(t) => out.push_str(t),
            Inline::Math { text, .. } => out.push_str(&show_math(text, env)),
            Inline::Emph(c) | Inline::Strong(c) | Inline::Strike(c) => push_shown(c, env, out),
            Inline::Superscript(c) | Inline::Subscript(c) => push_shown(c, env, out),
            Inline::Link { content, .. } => push_shown(content, env, out),
            Inline::Image(img) => out.push_str(&img.alt),
            Inline::SoftBreak | Inline::HardBreak => out.push(' '),
            Inline::FootnoteRef(label) => out.push_str(&enclosed('[', label, ']')),
            Inline::Html(_) => {},
        }
        assert(v.take(i + 1).drop_last() =~= v.take(i as int));
        assert(v.take(i + 1).last() == v[i as int]);
        assert(out@ =~= before + shown_inline(env@, v[i as int]));
        assert(out@ =~= old(out)@ + shown(env@, v.take(i + 1)));
    }
    assert(v.take(n as int) =~= v);
}

/// The widest of the first `k` lines.
pub open spec fn widest_line(lines: Seq<LineV>, k: int) -> int
    decreases k,
{
    if k <= 0 {
        0
    } else {
        at_least(widest_line(lines, k - 1), sat(spans_width(lines[k - 1].spans)))
    }
}

/// The widest of a run of lines.
pub fn widest_of_lines(lines: &Vec<Line>) -> (r: usize)
    ensures
        r == widest_line(lines_view(lines@), lines@.len() as int),
{
    let ghost v = lines_view(lines@);
    let mut widest: usize = 0;
    for k in 0..lines.len()
        invariant
            v == lines_view(lines@),
            widest == widest_line(v, k as int),
    {
        assert(v[k as int] == lines@[k as int]@);
        let w = lines[k].width();
        if widest < w {
            widest = w;
        }
    }
    widest
}

/// The marks in front of a heading.
pub open spec fn heading_marks(level: u8) -> Seq<char> {
    text::repeated("#"@, level as nat) + " "@
}

/// The lines of a heading without its rule.
pub open spec fn heading_lines(e: EnvV, level: u8, tokens: Seq<TokenV>, index: usize, width: int)
    -> Seq<LineV> {
    let marks = heading_marks(level);
    let mark_width = text_width(marks) as int;
    let lines = prefixed_all(
        wrapped(tokens, at_least(minus(width, mark_width), 4), Align::Left),
        seq![span_of(marks, e.theme.muted.merged(plain_style()))],
        seq![plain_span(text::spaces(mark_width as nat))],
    );
    lines.update(0, LineV { anchor: Some(index), ..lines[0] })
}

/// A heading. A rule under the top two levels gives the page a visible spine when
/// scrolling.
#[verifier::opaque]
pub open spec fn heading_drawn(
    e: EnvV,
    level: u8,
    id: Seq<char>,
    content: Seq<InlineV>,
    width: int,
    st: StateV,
) -> DrawnV {
    let t = tokens_of(e, content, e.theme.headings@[heading_index(level)], st);
    let lines = heading_lines(e, level, t.out, t.st.headings.len() as usize, width);
    let rule_width = at_most(widest_line(lines, lines.len() as int), width);
    DrawnV {
        lines: if e.opts.heading_rules && level <= 2 && rule_width > 0 {
            lines.push(
                line_of(
                    seq![
                        span_of(
                            text::repeated(e.opts.glyphs.heading_rule@, rule_width as nat),
                            e.theme.heading_rule,
                        ),
                    ],
                ),
            )
        } else {
            lines
        },
        st: StateV {
            headings: t.st.headings.push(
                HeadingV { level, text: shown(e, content), id, line: 0 },
            ),
            ..t.st
        },
    }
}

fn heading(
    level: u8,
    id: &str,
    content: &Vec<Inline>,
    env: &Env<'_>,
    st: &mut State,
    width: usize,
) -> (r: Vec<Line>)
    ensures
        (DrawnV { lines: lines_view(r@), st: final(st)@ }) == heading_drawn(
            env@,
            level,
            id@,
            inlines_view(*content),
            width as int,
            old(st)@,
        ),
{
    proof {
        reveal(heading_drawn);
    }
    let style = env.theme.heading(level);
    let mut marks: String = String::new();
    text::push_repeated(&mut marks, "#", level as usize);
    marks.push_str(" ");
    assert(marks@ =~= heading_marks(level));
    let mark_width = display_width(&marks);
    let text_columns = max_of(width.saturating_sub(mark_width), 4);

    let tokens = inline_tokens(content, env, st, style);
    let mut lines = wrap(&tokens, text_columns, Align::Left);

    let index: usize = st.headings.len();
    let mut name: String = String::new();
    push_shown(content, env, &mut name);
    assert(name@ =~= shown(env@, inlines_view(*content)));
    let ghost heads = headings_view(st.headings@);
    let entry = HeadingEntry { level, text: name, id: text::owned(id), line: 0 };
    let ghost ev = entry@;
    st.headings.push(entry);
    assert(headings_view(st.headings@) =~= heads.push(ev));

    let first = one_span(Span::new(marks, env.theme.muted.merge(Style::plain()), None));
    let rest = one_span(Span::plain(text::spaces_string(mark_width)));
    prefix_all(&mut lines, &first, &rest);
    let ghost before = lines_view(lines@);
    assert(before.len() > 0);
    assert(lines@[0]@ == before[0]);
    lines[0].anchor = Some(index);
    assert(lines_view(lines@) =~= before.update(0, LineV { anchor: Some(index), ..before[0] }));

    if env.opts.heading_rules && level <= 2 {
        let widest = widest_of_lines(&lines);
        let rule_width: usize = if widest > width {
            width
        } else {
            widest
        };
        if rule_width > 0 {
            let mut rule: String = String::new();
            text::push_repeated(&mut rule, env.opts.glyphs.heading_rule, rule_width);
            assert(rule@ =~= text::repeated(env.opts.glyphs.heading_rule@, rule_width as nat));
            push_line(
                &mut lines,
                Line::from_spans(one_span(Span::new(rule, env.theme.heading_rule, None))),
            );
        }
    }
    lines
}

// --- code ---------------------------------------------------------------------------

/// `s[i..]` behind `out`, at column `col`, with tabs turned into spaces up to the next
/// stop. Without stops a tab takes no room.
pub open spec fn expanded_from(
    s: Seq<char>,
    i: int,
    col: int,
    tab_width: int,
    out: Seq<char>,
) -> Seq<char>
    decreases s.len() - i,
{
    if i < 0 || i >= s.len() {
        out
    } else if s[i] == '\t' {
        let n = if tab_width == 0 {
            0
        } else {
            tab_width - col % tab_width
        };
        expanded_from(s, i + 1, sat(col + n), tab_width, out + text::spaces(n as nat))
    } else {
        expanded_from(
            s,
            i + 1,
            if s[i] == '\n' {
                0
            } else {
                sat(col + text_width(seq![s[i]]))
            },
            tab_width,
            out.push(s[i]),
        )
    }
}

pub open spec fn expanded(s: Seq<char>, tab_width: int) -> Seq<char> {
    expanded_from(s, 0, 0, tab_width, Seq::empty())
}

/// Turns tabs into spaces up to the next multiple of `tab_width`.
pub fn expand_tabs(s: &str, tab_width: usize) -> (r: String)
    ensures
        r@ == expanded(s@, tab_width as int),
{
    let v = text::chars_of(s);
    let mut out: String = String::new();
    let mut col: usize = 0;
    let mut i: usize = 0;
    while i < v.len()
        invariant
            v@ == s@,
            i <= v.len(),
            expanded_from(v@, i as int, col as int, tab_width as int, out@) == expanded(
                s@,
                tab_width as int,
            ),
        decreases v.len() - i,
    {
        let c = v[i];
        if c == '\t' {
            let n: usize = if tab_width == 0 {
                0
            } else {
                tab_width - col % tab_width
            };
            text::push_spaces(&mut out, n);
            col = col.saturating_add(n);
        } else {
            out.push(c);
            if c == '\n' {
                col = 0;
            } else {
                let mut one: String = String::new();
                one.push(c);
                assert(one@ =~= seq![c]);
                col = col.saturating_add(display_width(&one));
            }
        }
        i = i + 1;
    }
    out
}

/// A line of code being filled, and the lines before it.
pub struct PackV {
    pub lines: Seq<LineV>,
    pub spans: Seq<SpanV>,
    pub used: int,
}

/// The lines after the first `k` tokens of code, which are not re-flowed like prose.
pub open spec fn pack_steps(tokens: Seq<TokenV>, k: int, width: int) -> PackV
    decreases k,
{
    if k <= 0 {
        PackV { lines: Seq::empty(), spans: Seq::empty(), used: 0 }
    } else {
        let before = pack_steps(tokens, k - 1, width);
        let t = tokens[k - 1];
        let w = text_width(t.text) as int;
        let ready = if before.used + w > width && before.used > 0 {
            PackV {
                lines: before.lines.push(line_of(before.spans)),
                spans: Seq::empty(),
                used: 0,
            }
        } else {
            before
        };
        PackV {
            spans: ready.spans.push(span_of(t.text, t.style)),
            used: sat(ready.used + w),
            ..ready
        }
    }
}

/// A line of code in as many lines as it takes. There is always at least one.
pub open spec fn packed(tokens: Seq<TokenV>, width: int) -> Seq<LineV> {
    let p = pack_steps(tokens, tokens.len() as int, width);
    if p.spans.len() > 0 || p.lines.len() == 0 {
        p.lines.push(line_of(p.spans))
    } else {
        p.lines
    }
}

/// Lays out already-sized code tokens without re-flowing them like prose.
fn pack_code_line(tokens: &Vec<Token>, width: usize) -> (r: Vec<Line>)
    ensures
        lines_view(r@) == packed(tokens_view(tokens@), width as int),
        r@.len() > 0,
{
    let ghost v = tokens_view(tokens@);
    let mut lines = no_lines();
    let mut spans: Vec<Span> = Vec::new();
    let mut used: usize = 0;
    assert(spans_view(spans@) =~= Seq::empty());
    for k in 0..tokens.len()
        invariant
            v == tokens_view(tokens@),
            (PackV { lines: lines_view(lines@), spans: spans_view(spans@), used: used as int })
                == pack_steps(v, k as int, width as int),
    {
        assert(v[k as int] == tokens@[k as int]@);
        let t = &tokens[k];
        let w = t.width();
        if used > 0 && (used > width || w > width - used) {
            let full = spans;
            push_line(&mut lines, Line::from_spans(full));
            spans = Vec::new();
            assert(spans_view(spans@) =~= Seq::empty());
            used = 0;
        }
        push_span(&mut spans, Span::new(t.text.clone(), t.style, None));
        used = used.saturating_add(w);
    }
    if spans.len() > 0 || lines.len() == 0 {
        push_line(&mut lines, Line::from_spans(spans));
    }
    assert(lines_view(lines@).len() == lines@.len());
    lines
}

/// The style behind code.
pub open spec fn code_base(e: EnvV) -> Style {
    match e.theme.code_block_bg {
        Some(c) => Style { bg: Color::Rgb(c), ..plain_style() },
        None => plain_style(),
    }
}

/// The style of a piece of code.
pub open spec fn code_style(e: EnvV, s: Style) -> Style {
    if e.theme.code_block_bg is Some {
        code_base(e).merged(s)
    } else {
        s
    }
}

/// The tokens of the first `k` pieces of a line of code, each cut to the width.
pub open spec fn code_tokens(e: EnvV, pieces: StyledLine, k: int, width: int) -> Seq<TokenV>
    decreases k,
{
    if k <= 0 {
        Seq::empty()
    } else {
        code_tokens(e, pieces, k - 1, width) + chunk_tokens(
            chunks(pieces[k - 1].1, width),
            code_style(e, pieces[k - 1].0),
        )
    }
}

pub open spec fn chunk_tokens(cs: Seq<Seq<char>>, style: Style) -> Seq<TokenV> {
    cs.map_values(|c: Seq<char>| word_token(c, style, None))
}

fn tokens_of_code(pieces: &Vec<(Style, String)>, env: &Env<'_>, width: usize) -> (r: Vec<Token>)
    ensures
        tokens_view(r@) == code_tokens(
            env@,
            styled_view(*pieces),
            pieces@.len() as int,
            width as int,
        ),
{
    let ghost p = styled_view(*pieces);
    let mut out = no_tokens();
    let base = base_style(env);
    for k in 0..pieces.len()
        invariant
            p == styled_view(*pieces),
            base == code_base(env@),
            tokens_view(out@) == code_tokens(env@, p, k as int, width as int),
    {
        assert(p[k as int] == (pieces@[k as int].0, pieces@[k as int].1@));
        let style = if env.theme.code_block_bg.is_some() {
            base.merge(pieces[k].0)
        } else {
            pieces[k].0
        };
        let parts = split_to_width(&pieces[k].1, width);
        let ghost cs = text::views(parts@);
        let ghost before = tokens_view(out@);
        assert(before + chunk_tokens(cs.take(0), style) =~= before);
        for j in 0..parts.len()
            invariant
                cs == text::views(parts@),
                tokens_view(out@) == before + chunk_tokens(cs.take(j as int), style),
        {
            assert(cs[j as int] == parts@[j as int]@);
            push_token(&mut out, Token::word(parts[j].clone(), style, None));
            assert(tokens_view(out@) =~= before + chunk_tokens(cs.take(j + 1), style));
        }
        assert(cs.take(parts@.len() as int) =~= cs);
    }
    out
}

fn base_style(env: &Env<'_>) -> (r: Style)
    ensures
        r == code_base(env@),
{
    match env.theme.code_block_bg {
        Some(c) => Style::plain().bg(Color::Rgb(c)),
        None => Style::plain(),
    }
}

/// The columns of the line numbers beside `n` lines of code.
pub open spec fn gutter_width(e: EnvV, n: nat) -> int {
    if e.opts.line_numbers {
        sat(text_width(text::decimal(n)) + 1)
    } else {
        0
    }
}

/// What stands before line `j` of the drawing of line `i` of the code: its number on
/// the first, and a mark on those that continue it.
pub open spec fn code_prefix(e: EnvV, gutter: int, i: int, j: int) -> Seq<SpanV> {
    let label = if j == 0 {
        text::decimal((i + 1) as nat)
    } else {
        Seq::empty()
    };
    let edge = if j == 0 {
        span_of(" "@, code_base(e))
    } else {
        span_of(e.opts.glyphs.continuation@, code_base(e).merged(e.theme.code_gutter))
    };
    if gutter > 0 {
        let pad = minus(gutter, sat(text_width(label) + 1));
        seq![
            span_of(
                text::spaces(pad as nat) + label + " "@,
                code_base(e).merged(e.theme.code_gutter),
            ),
            edge,
        ]
    } else {
        seq![edge]
    }
}

/// The drawing of one line of code.
pub open spec fn code_line_drawn(
    e: EnvV,
    pieces: StyledLine,
    gutter: int,
    i: int,
    text_columns: int,
    width: int,
) -> Seq<LineV> {
    let lines = packed(
        code_tokens(e, pieces, pieces.len() as int, text_columns),
        text_columns,
    );
    Seq::new(
        lines.len(),
        |j: int|
            filled(prefixed(lines[j], code_prefix(e, gutter, i, j)), width, code_base(e)),
    )
}

/// The drawing of the first `k` lines of code.
pub open spec fn code_lines_drawn(
    e: EnvV,
    rows: Seq<StyledLine>,
    k: int,
    gutter: int,
    text_columns: int,
    width: int,
) -> Seq<LineV>
    decreases k,
{
    if k <= 0 {
        Seq::empty()
    } else {
        code_lines_drawn(e, rows, k - 1, gutter, text_columns, width) + code_line_drawn(
            e,
            rows[k - 1],
            gutter,
            k - 1,
            text_columns,
            width,
        )
    }
}

/// A code block: its lines, and above them the name of the language if it could be
/// coloured.
#[verifier::opaque]
pub open spec fn code_drawn(
    e: EnvV,
    language: Option<Seq<char>>,
    code: Seq<char>,
    width: int,
    st: StateV,
) -> DrawnV {
    let rows = e.highlighter.highlighted(expanded(code, e.opts.tab_width as int), language);
    let gutter = gutter_width(e, rows.len());
    // One column of padding on each side keeps text off the background edge.
    let text_columns = at_least(minus(width, sat(gutter + 2)), 8);
    let drawn = code_lines_drawn(e, rows, rows.len() as int, gutter, text_columns, width);
    let body = if drawn.len() == 0 {
        seq![filled(blank_line(), width, code_base(e))]
    } else {
        drawn
    };
    let all = match language {
        Some(lang) => if e.highlighter.colors(code, language) {
            seq![
                aligned(line_of(seq![span_of(lang, e.theme.muted)]), width, Align::Right),
            ] + body
        } else {
            body
        },
        None => body,
    };
    DrawnV {
        lines: coded(all, st.code_blocks.len() as usize),
        st: StateV { code_blocks: st.code_blocks.push(code), ..st },
    }
}

fn gutter_span(env: &Env<'_>, gutter: usize, i: usize, j: usize) -> (r: Vec<Span>)
    requires
        i < usize::MAX,
    ensures
        spans_view(r@) == code_prefix(env@, gutter as int, i as int, j as int),
{
    let base = base_style(env);
    let mut spans: Vec<Span> = Vec::new();
    assert(spans_view(spans@) =~= Seq::empty());
    if gutter > 0 {
        let mut label: String = String::new();
        if j == 0 {
            text::push_decimal(&mut label, i as u64 + 1);
            assert(label@ =~= text::decimal((i + 1) as nat));
        }
        let pad = gutter.saturating_sub(display_width(&label).saturating_add(1));
        let mut cell = text::spaces_string(pad);
        cell.push_str(&label);
        cell.push_str(" ");
        push_span(&mut spans, Span::new(cell, base.merge(env.theme.code_gutter), None));
    }
    if j == 0 {
        push_span(&mut spans, Span::new(text::owned(" "), base, None));
    } else {
        push_span(
            &mut spans,
            Span::new(
                text::owned(env.opts.glyphs.continuation),
                base.merge(env.theme.code_gutter),
                None,
            ),
        );
    }
    assert(spans_view(spans@) =~= code_prefix(env@, gutter as int, i as int, j as int));
    spans
}

fn code_line(
    pieces: &Vec<(Style, String)>,
    env: &Env<'_>,
    gutter: usize,
    i: usize,
    text_columns: usize,
    width: usize,
) -> (r: Vec<Line>)
    requires
        i < usize::MAX,
    ensures
        lines_view(r@) == code_line_drawn(
            env@,
            styled_view(*pieces),
            gutter as int,
            i as int,
            text_columns as int,
            width as int,
        ),
{
    let tokens = tokens_of_code(pieces, env, text_columns);
    let mut lines = pack_code_line(&tokens, text_columns);
    let ghost v = lines_view(lines@);
    let ghost all = code_line_drawn(
        env@,
        styled_view(*pieces),
        gutter as int,
        i as int,
        text_columns as int,
        width as int,
    );
    let base = base_style(env);
    let n: usize = lines.len();
    for j in 0..n
        invariant
            n == lines.len(),
            n == v.len(),
            i < usize::MAX,
            base == code_base(env@),
            all.len() == n,
            forall|k: int|
                0 <= k < n ==> #[trigger] all[k] == filled(
                    prefixed(v[k], code_prefix(env@, gutter as int, i as int, k)),
                    width as int,
                    base,
                ),
            forall|k: int| 0 <= k < j ==> (#[trigger] lines@[k])@ == all[k],
            forall|k: int| j <= k < n ==> (#[trigger] lines@[k])@ == v[k],
    {
        assert(lines@[j as int]@ == v[j as int]);
        let prefix = gutter_span(env, gutter, i, j);
        lines[j].prefix(prefix);
        pad_line_background(&mut lines[j], width, base);
        assert(lines@[j as int]@ == all[j as int]);
    }
    assert(lines_view(lines@) =~= all);
    lines
}

fn code_block(
    language: Option<&str>,
    code: &str,
    env: &Env<'_>,
    st: &mut State,
    width: usize,
) -> (r: Vec<Line>)
    ensures
        (DrawnV { lines: lines_view(r@), st: final(st)@ }) == code_drawn(
            env@,
            opt_str(language),
            code@,
            width as int,
            old(st)@,
        ),
{
    proof {
        reveal(code_drawn);
    }
    let tabless = expand_tabs(code, env.opts.tab_width);
    let highlighted = env.highlighter.highlight(&tabless, language);
    let ghost rows = all_styled_view(highlighted);
    let n: usize = highlighted.len();
    let gutter: usize = if env.opts.line_numbers {
        let mut digits: String = String::new();
        text::push_decimal(&mut digits, n as u64);
        assert(digits@ =~= text::decimal(n as nat));
        display_width(&digits).saturating_add(1)
    } else {
        0
    };
    let text_columns = max_of(width.saturating_sub(gutter.saturating_add(2)), 8);
    let mut out = no_lines();
    for i in 0..n
        invariant
            n == highlighted.len(),
            rows == all_styled_view(highlighted),
            lines_view(out@) == code_lines_drawn(
                env@,
                rows,
                i as int,
                gutter as int,
                text_columns as int,
                width as int,
            ),
    {
        assert(rows[i as int] == styled_view(highlighted@[i as int]));
        // A highlighted line may be wider than the block; wrap it rather than cutting
        // code off, and mark continuations so the wrap is visible.
        push_lines(
            &mut out,
            code_line(&highlighted[i], env, gutter, i, text_columns, width),
        );
    }
    if out.len() == 0 {
        let mut blank = Line::default();
        pad_line_background(&mut blank, width, base_style(env));
        out = one_line(blank);
    }
    let ghost body = lines_view(out@);
    // A dim language tag above the block, where it cannot be selected along with the
    // code itself.
    match language {
        Some(lang) => {
            if env.highlighter.can_highlight(language, code) {
                let mut tag = Line::from_spans(
                    one_span(Span::new(text::owned(lang), env.theme.muted, None)),
                );
                tag.align(width, Align::Right);
                let ghost tv = tag@;
                out.insert(0, tag);
                assert(lines_view(out@) =~= seq![tv] + body);
            }
        },
        None => {},
    }
    let index: usize = st.code_blocks.len();
    mark_code(&mut out, index);
    let ghost blocks = text::views(st.code_blocks@);
    st.code_blocks.push(text::owned(code));
    assert(text::views(st.code_blocks@) =~= blocks.push(code@));
    out
}

// --- figures ------------------------------------------------------------------------

/// How many cells an image of `px` pixels should occupy: its natural size, shrunk to
/// fit both limits without distorting it, in whole cells.
pub open spec fn image_cells(
    px: (u32, u32),
    cell: (u16, u16),
    width: int,
    max_rows: u16,
    graphics: GraphicsProtocol,
) -> Option<(u16, u16)> {
    if px.0 == 0 || px.1 == 0 {
        None
    } else {
        let size = binary64::fitted_size(
            px.0 as int,
            px.1 as int,
            at_least(cell.0 as int, 1),
            at_least(cell.1 as int, 1),
            at_least(width, 1),
            at_least(max_rows as int, 1),
        );
        let c = at_least(size.0, 1) as u16;
        let r = at_least(size.1, 1) as u16;
        // The blocks backend packs two pixel rows into one cell, so it needs at least
        // two rows to show anything at all.
        if graphics == GraphicsProtocol::Blocks && r < 2 {
            Some((c, 2))
        } else {
            Some((at_most(c as int, width % 0x10000) as u16, r))
        }
    }
}

/// Works out how many cells an image should occupy.
///
/// Terminals address pixels through cells, so this is the one place that has to reason
/// in both units: scale by pixel size, then round to whole cells and clamp to the
/// space available.
pub fn measure_cells(
    px: (u32, u32),
    cell: (u16, u16),
    width: usize,
    max_rows: u16,
    graphics: GraphicsProtocol,
) -> (r: Option<(u16, u16)>)
    ensures
        r == image_cells(px, cell, width as int, max_rows, graphics),
{
    if px.0 == 0 || px.1 == 0 {
        return None;
    }
    let cell_w: u64 = if cell.0 < 1 {
        1
    } else {
        cell.0 as u64
    };
    let cell_h: u64 = if cell.1 < 1 {
        1
    } else {
        cell.1 as u64
    };
    let max_cols: u64 = if width < 1 {
        1
    } else {
        width as u64
    };
    let most_rows: u64 = if max_rows < 1 {
        1
    } else {
        max_rows as u64
    };
    // Natural size in cells, then shrink to fit both limits without distorting.
    let (cols, rows) = binary64::fit_size(
        px.0 as u64,
        px.1 as u64,
        cell_w,
        cell_h,
        max_cols,
        most_rows,
    );
    let cols: u16 = if cols < 1 {
        1
    } else {
        cols as u16
    };
    let rows: u16 = if rows < 1 {
        1
    } else {
        rows as u16
    };
    if graphics == GraphicsProtocol::Blocks && rows < 2 {
        return Some((cols, 2));
    }
    let limit: u16 = (width % 0x10000) as u16;
    Some(
        (
            if cols > limit {
                limit
            } else {
                cols
            },
            rows,
        ),
    )
}

/// The cells reserved for a figure: none where images are off or the image cannot be
/// had.
pub open spec fn figure_cells(e: EnvV, pics: Pictures, image: ImageRefV, width: int) -> Option<
    (u16, u16),
> {
    if e.opts.images {
        match (pics.measure)(image) {
            Some(px) => image_cells(
                px,
                cell_or_guess(e.caps.cell_px),
                width,
                e.opts.max_image_rows,
                e.caps.graphics,
            ),
            None => None,
        }
    } else {
        None
    }
}

/// What stands where a picture cannot: a marker, the alt text or the URL, and why.
pub open spec fn placeholder(e: EnvV, pics: Pictures, image: ImageRefV, st: StateV) -> TokensV {
    let alt = if image.alt.len() == 0 {
        image.url
    } else {
        image.alt
    };
    let base = seq![
        word_token(e.opts.glyphs.image_marker@ + " "@, e.theme.caption, None),
        word_token(
            alt,
            e.theme.link_text,
            link_if(use_osc8(e), link_id_of(st, image.url)),
        ),
    ];
    // With images off there is no failure to explain, and asking could start a download
    // nobody wanted.
    let out = if e.opts.images {
        match (pics.problem)(image) {
            Some(reason) => base.push(space_token(e.theme.muted)).push(
                word_token(seq!['('] + reason + seq![')'], e.theme.muted, None),
            ),
            None => base,
        }
    } else if !use_osc8(e) {
        base.push(space_token(e.theme.muted)).push(
            word_token(seq!['('] + image.url + seq![')'], e.theme.link_url, None),
        )
    } else {
        base
    };
    TokensV { out, st: with_link(st, image.url) }
}

/// The line that anchors a picture.
pub open spec fn anchor_line(image: ImageRefV, cols: u16, rows: u16, indent: u16) -> LineV {
    LineV { image: Some(PlacementV { image, cols, rows, indent }), ..blank_line() }
}

/// A line that a picture covers.
pub open spec fn filler_line() -> LineV {
    LineV { image_filler: true, ..blank_line() }
}

/// A picture with room for it, or a labelled, clickable placeholder.
#[verifier::opaque]
pub open spec fn figure_drawn(
    e: EnvV,
    pics: Pictures,
    image: ImageRefV,
    caption: Seq<InlineV>,
    width: int,
    st: StateV,
) -> DrawnV {
    match figure_cells(e, pics, image, width) {
        None => {
            let t = placeholder(e, pics, image, st);
            DrawnV { lines: wrapped(t.out, width, Align::Left), st: t.st }
        },
        Some((cols, rows)) => {
            let indent = if e.opts.center_figures {
                ((minus(width, cols as int) / 2) % 0x10000) as u16
            } else {
                0
            };
            let picture = seq![anchor_line(image, cols, rows, indent)] + Seq::new(
                minus(rows as int, 1) as nat,
                |i: int| filler_line(),
            );
            if caption.len() > 0 {
                let t = tokens_of(e, caption, e.theme.caption, st);
                let align = if e.opts.center_figures {
                    Align::Center
                } else {
                    Align::Left
                };
                DrawnV { lines: picture + wrapped(t.out, width, align), st: t.st }
            } else {
                DrawnV { lines: picture, st }
            }
        },
    }
}

fn placeholder_tokens<P: ImageProvider>(
    image: &ImageRef,
    env: &Env<'_>,
    st: &mut State,
    images: &mut P,
) -> (r: Vec<Token>)
    ensures
        (TokensV { out: tokens_view(r@), st: final(st)@ }) == placeholder(
            env@,
            old(images).pictures(),
            image@,
            old(st)@,
        ),
        final(images).pictures() == old(images).pictures(),
{
    let link = st.link_id(&image.url);
    let mut marker = text::owned(env.opts.glyphs.image_marker);
    marker.push_str(" ");
    let mut tokens = one_token(Token::word(marker, env.theme.caption, None));
    let alt = if image.alt.as_str().is_empty() {
        image.url.clone()
    } else {
        image.alt.clone()
    };
    let target = if env.use_osc8() {
        Some(link)
    } else {
        None
    };
    push_token(&mut tokens, Token::word(alt, env.theme.link_text, target));
    let ghost base = seq![
        word_token(env.opts.glyphs.image_marker@ + " "@, env.theme.caption, None),
        word_token(
            if image@.alt.len() == 0 {
                image@.url
            } else {
                image@.alt
            },
            env.theme.link_text,
            link_if(use_osc8(env@), link_id_of(old(st)@, image@.url)),
        ),
    ];
    assert(tokens_view(tokens@) =~= base);
    if env.opts.images {
        match images.problem(image) {
            Some(reason) => {
                push_token(&mut tokens, Token::space(env.theme.muted));
                push_token(
                    &mut tokens,
                    Token::word(enclosed('(', &reason, ')'), env.theme.muted, None),
                );
            },
            None => {},
        }
    } else if !env.use_osc8() {
        push_token(&mut tokens, Token::space(env.theme.muted));
        push_token(
            &mut tokens,
            Token::word(enclosed('(', &image.url, ')'), env.theme.link_url, None),
        );
    }
    tokens
}

fn figure<P: ImageProvider>(
    image: &ImageRef,
    caption: &Vec<Inline>,
    env: &Env<'_>,
    st: &mut State,
    images: &mut P,
    width: usize,
) -> (r: Vec<Line>)
    ensures
        (DrawnV { lines: lines_view(r@), st: final(st)@ }) == figure_drawn(
            env@,
            old(images).pictures(),
            image@,
            inlines_view(*caption),
            width as int,
            old(st)@,
        ),
        final(images).pictures() == old(images).pictures(),
{
    proof {
        reveal(figure_drawn);
    }
    let size = if env.opts.images {
        match images.measure(image) {
            Some(px) => measure_cells(
                px,
                env.caps.cell_px_or_guess(),
                width,
                env.opts.max_image_rows,
                env.caps.graphics,
            ),
            None => None,
        }
    } else {
        None
    };
    assert(size == figure_cells(env@, old(images).pictures(), image@, width as int));
    let (cols, rows) = match size {
        Some(size) => size,
        None => {
            let tokens = placeholder_tokens(image, env, st, images);
            return wrap(&tokens, width, Align::Left);
        },
    };
    let indent: u16 = if env.opts.center_figures {
        ((width.saturating_sub(cols as usize) / 2) % 0x10000) as u16
    } else {
        0
    };
    let mut anchor = Line::default();
    anchor.image = Some(ImagePlacement { image: image.clone(), cols, rows, indent });
    let mut out = one_line(anchor);
    assert(lines_view(out@) =~= seq![anchor_line(image@, cols, rows, indent)] + Seq::new(
        0,
        |i: int| filler_line(),
    ));
    let mut k: u16 = 1;
    while k < rows
        invariant
            1 <= k,
            k <= rows || rows == 0,
            rows == 0 ==> k == 1,
            lines_view(out@) == seq![anchor_line(image@, cols, rows, indent)] + Seq::new(
                (k - 1) as nat,
                |i: int| filler_line(),
            ),
        decreases rows - k,
    {
        let mut filler = Line::default();
        filler.image_filler = true;
        push_line(&mut out, filler);
        assert(lines_view(out@) =~= seq![anchor_line(image@, cols, rows, indent)] + Seq::new(
            k as nat,
            |i: int| filler_line(),
        ));
        k = k + 1;
    }
    assert(Seq::new((k - 1) as nat, |i: int| filler_line()) =~= Seq::new(
        minus(rows as int, 1) as nat,
        |i: int| filler_line(),
    ));
    if caption.len() > 0 {
        let tokens = inline_tokens(caption, env, st, env.theme.caption);
        let align = if env.opts.center_figures {
            Align::Center
        } else {
            Align::Left
        };
        push_lines(&mut out, wrap(&tokens, width, align));
    }
    out
}

// --- formulas -----------------------------------------------------------------------

/// The first `k` lines of a displayed formula, each centred.
pub open spec fn formula_drawn(e: EnvV, lines: Seq<Seq<char>>, k: int, width: int) -> Seq<LineV>
    decreases k,
{
    if k <= 0 {
        Seq::empty()
    } else {
        formula_drawn(e, lines, k - 1, width) + wrapped(
            seq![word_token(math_shown(e, text::trim(lines[k - 1])), e.theme.math, None)],
            width,
            Align::Center,
        )
    }
}

fn display_math(t: &str, env: &Env<'_>, width: usize) -> (r: Vec<Line>)
    ensures
        lines_view(r@) == formula_drawn(
            env@,
            text::lines(text::trim(t@)),
            text::lines(text::trim(t@)).len() as int,
            width as int,
        ),
{
    let rows = text::lines_of(&text::trimmed(t));
    let ghost v = text::views(rows@);
    let mut out = no_lines();
    for k in 0..rows.len()
        invariant
            v == text::views(rows@),
            lines_view(out@) == formula_drawn(env@, v, k as int, width as int),
    {
        assert(v[k as int] == rows@[k as int]@);
        let shown_row = show_math(&text::trimmed(&rows[k]), env);
        let tokens = one_token(Token::word(shown_row, env.theme.math, None));
        push_lines(&mut out, wrap(&tokens, width, Align::Center));
    }
    out
}

// --- blocks -------------------------------------------------------------------------

/// Lines so far, with a block's lines after them and a blank line between if asked for.
/// A block that draws nothing changes nothing.
pub open spec fn joined(d: DrawnV, r: DrawnV, spaced: bool) -> DrawnV {
    if r.lines.len() == 0 {
        DrawnV { lines: d.lines, st: r.st }
    } else if d.lines.len() > 0 && spaced {
        DrawnV { lines: d.lines.push(blank_line()) + r.lines, st: r.st }
    } else {
        DrawnV { lines: d.lines + r.lines, st: r.st }
    }
}

/// A sequence of blocks, separated by blank lines.
pub open spec fn blocks_drawn(e: EnvV, pics: Pictures, s: Seq<BlockV>, width: int, st: StateV)
    -> DrawnV
    decreases s,
{
    if s.len() == 0 {
        DrawnV { lines: Seq::empty(), st }
    } else {
        let d = blocks_drawn(e, pics, s.drop_last(), width, st);
        joined(d, block_drawn(e, pics, s.last(), width, d.st), true)
    }
}

/// The next deeper kind of bullet; there are three.
pub open spec fn deeper(depth: int) -> int {
    (depth + 1) % 3
}

/// The blocks of one list item. A nested list follows its parent item directly; other
/// blocks get air.
pub open spec fn item_blocks_drawn(
    e: EnvV,
    pics: Pictures,
    s: Seq<BlockV>,
    width: int,
    depth: int,
    st: StateV,
) -> DrawnV
    decreases s,
{
    if s.len() == 0 {
        DrawnV { lines: Seq::empty(), st }
    } else {
        let d = item_blocks_drawn(e, pics, s.drop_last(), width, depth, st);
        match s.last() {
            BlockV::List(nested) => joined(
                d,
                list_drawn(e, pics, nested, width, deeper(depth), d.st),
                false,
            ),
            _ => joined(d, block_drawn(e, pics, s.last(), width, d.st), true),
        }
    }
}

pub open spec fn sat64(n: int) -> int {
    if n > u64::MAX {
        u64::MAX as int
    } else {
        n
    }
}

/// The number of the last item of an ordered list.
pub open spec fn last_number(start: u64, items: nat) -> int {
    minus(sat64(start + items), 1)
}

/// The columns reserved for a list's markers. Ordered lists reserve room for their
/// widest number so the text of every item starts in the same column.
pub open spec fn marker_width(e: EnvV, start: Option<u64>, items: nat, depth: int) -> int {
    match start {
        Some(n) => sat(text_width(text::decimal(last_number(n, items) as nat) + "."@) + 1),
        None => sat(text_width(e.opts.glyphs.bullets@[depth]@) + 1),
    }
}

/// The lines of one item with its marker.
pub open spec fn item_marked(
    e: EnvV,
    lines: Seq<LineV>,
    task: Option<bool>,
    start: Option<u64>,
    index: int,
    depth: int,
    marker_columns: int,
) -> Seq<LineV> {
    match task {
        Some(done) => {
            let glyph = if done {
                e.opts.glyphs.task_done
            } else {
                e.opts.glyphs.task_todo
            };
            marked(
                if done {
                    tinted(lines, e.theme.task_done_text)
                } else {
                    lines
                },
                "["@ + glyph@ + "] "@,
                if done {
                    e.theme.task_done
                } else {
                    e.theme.task_todo
                },
                text_width("[x] "@) as int,
            )
        },
        None => match start {
            Some(n) => marked(
                lines,
                text::decimal(sat64(n + index) as nat) + ". "@,
                e.theme.number,
                marker_columns,
            ),
            None => marked(
                lines,
                e.opts.glyphs.bullets@[depth]@ + " "@,
                e.theme.bullet,
                marker_columns,
            ),
        },
    }
}

/// The items of a list, with blank lines between them unless the list is tight.
pub open spec fn items_drawn(
    e: EnvV,
    pics: Pictures,
    start: Option<u64>,
    tight: bool,
    s: Seq<ListItemV>,
    width: int,
    depth: int,
    marker_columns: int,
    st: StateV,
) -> DrawnV
    decreases s,
{
    if s.len() == 0 {
        DrawnV { lines: Seq::empty(), st }
    } else {
        let d = items_drawn(
            e,
            pics,
            start,
            tight,
            s.drop_last(),
            width,
            depth,
            marker_columns,
            st,
        );
        let r = item_blocks_drawn(e, pics, s.last().blocks, width, depth, d.st);
        let lines = item_marked(
            e,
            r.lines,
            s.last().task,
            start,
            s.len() - 1,
            depth,
            marker_columns,
        );
        DrawnV {
            lines: (if d.lines.len() > 0 && !tight {
                d.lines.push(blank_line())
            } else {
                d.lines
            }) + lines,
            st: r.st,
        }
    }
}

/// A list at a nesting depth.
pub open spec fn list_drawn(
    e: EnvV,
    pics: Pictures,
    list: ListV,
    width: int,
    depth: int,
    st: StateV,
) -> DrawnV
    decreases list,
{
    let columns = marker_width(e, list.start, list.items.len(), depth);
    items_drawn(
        e,
        pics,
        list.start,
        list.tight,
        list.items,
        at_least(minus(width, columns), 8),
        depth,
        columns,
        st,
    )
}

/// The definitions of one term, each indented.
pub open spec fn bodies_drawn(e: EnvV, pics: Pictures, s: Seq<Seq<BlockV>>, width: int, d: DrawnV)
    -> DrawnV
    decreases s,
{
    if s.len() == 0 {
        d
    } else {
        let before = bodies_drawn(e, pics, s.drop_last(), width, d);
        let r = blocks_drawn(e, pics, s.last(), minus(width, 4), before.st);
        DrawnV { lines: before.lines + indented(r.lines, 4), st: r.st }
    }
}

/// Terms and their definitions.
pub open spec fn terms_drawn(
    e: EnvV,
    pics: Pictures,
    s: Seq<(Seq<InlineV>, Seq<Seq<BlockV>>)>,
    width: int,
    st: StateV,
) -> DrawnV
    decreases s,
{
    if s.len() == 0 {
        DrawnV { lines: Seq::empty(), st }
    } else {
        let before = terms_drawn(e, pics, s.drop_last(), width, st);
        let t = tokens_of(e, s.last().0, e.theme.strong, before.st);
        bodies_drawn(
            e,
            pics,
            s.last().1,
            width,
            DrawnV {
                lines: (if before.lines.len() > 0 {
                    before.lines.push(blank_line())
                } else {
                    before.lines
                }) + wrapped(t.out, width, Align::Left),
                st: t.st,
            },
        )
    }
}

/// The style of a quote's bar.
pub open spec fn bar_style(e: EnvV, kind: Option<AlertKind>) -> Style {
    match kind {
        Some(k) => e.theme.alerts@[alert_index(k)],
        None => e.theme.quote_bar,
    }
}

/// The lines of a quote or a callout, with its bar: a callout starts with its label, a
/// quote is tinted.
pub open spec fn quote_barred(e: EnvV, kind: Option<AlertKind>, lines: Seq<LineV>) -> Seq<LineV> {
    let inner = match kind {
        Some(k) => seq![line_of(seq![span_of(alert_label(k), bar_style(e, kind))])] + lines,
        None => tinted(lines, e.theme.quote_text),
    };
    let bar = seq![span_of(e.opts.glyphs.quote_bar@, bar_style(e, kind)), plain_span(" "@)];
    prefixed_all(inner, bar, bar)
}

/// One block.
pub open spec fn block_drawn(e: EnvV, pics: Pictures, b: BlockV, width: int, st: StateV) -> DrawnV
    decreases b,
{
    match b {
        BlockV::Heading { level, id, content } => heading_drawn(e, level, id, content, width, st),
        BlockV::Paragraph(inlines) => {
            let t = tokens_of(e, inlines, e.theme.text, st);
            DrawnV { lines: wrapped(t.out, width, Align::Left), st: t.st }
        },
        BlockV::CodeBlock { language, code } => code_drawn(e, language, code, width, st),
        BlockV::BlockQuote { kind, blocks } => {
            let bar = sat(text_width(e.opts.glyphs.quote_bar@) + 1);
            let r = blocks_drawn(e, pics, blocks, at_least(minus(width, bar), 8), st);
            DrawnV { lines: quote_barred(e, kind, r.lines), st: r.st }
        },
        BlockV::List(list) => list_drawn(e, pics, list, width, 0, st),
        BlockV::Table(t) => table::table_drawn(e, t, width, st),
        BlockV::Figure { image, caption } => figure_drawn(e, pics, image, caption, width, st),
        BlockV::Rule => DrawnV {
            lines: seq![
                line_of(
                    seq![
                        span_of(
                            text::repeated(e.opts.glyphs.rule@, width as nat),
                            e.theme.rule,
                        ),
                    ],
                ),
            ],
            st,
        },
        BlockV::Html(raw) => DrawnV {
            lines: wrapped(
                seq![word_token(text::trim(raw), e.theme.muted, None)],
                width,
                Align::Left,
            ),
            st,
        },
        BlockV::DisplayMath(t) => {
            let rows = text::lines(text::trim(t));
            DrawnV { lines: formula_drawn(e, rows, rows.len() as int, width), st }
        },
        BlockV::DefinitionList(items) => terms_drawn(e, pics, items, width, st),
        BlockV::FootnoteDefinition { label, blocks } => {
            let r = blocks_drawn(e, pics, blocks, minus(width, 4), st);
            DrawnV {
                lines: seq![
                    line_of(
                        seq![span_of(seq!['['] + label + seq![']'], e.theme.footnote_ref)],
                    ),
                ] + indented(r.lines, 4),
                st: r.st,
            }
        },
    }
}

/// Adds a block's lines, with a blank line before them if asked for.
fn join(out: &mut Vec<Line>, rendered: Vec<Line>, spaced: bool, Ghost(st): Ghost<StateV>)
    ensures
        (DrawnV { lines: lines_view(final(out)@), st }) == joined(
            DrawnV { lines: lines_view(old(out)@), st },
            DrawnV { lines: lines_view(rendered@), st },
            spaced,
        ),
{
    if rendered.len() == 0 {
        return;
    }
    if out.len() > 0 && spaced {
        push_line(out, Line::default());
    }
    push_lines(out, rendered);
}

/// Renders a sequence of blocks, separating them with blank lines.
pub(crate) fn render_blocks<P: ImageProvider>(
    blocks: &Vec<Block>,
    env: &Env<'_>,
    st: &mut State,
    images: &mut P,
    width: usize,
) -> (r: Vec<Line>)
    ensures
        (DrawnV { lines: lines_view(r@), st: final(st)@ }) == blocks_drawn(
            env@,
            old(images).pictures(),
            blocks_view(*blocks),
            width as int,
            old(st)@,
        ),
        final(images).pictures() == old(images).pictures(),
    decreases blocks, 0int,
{
    let ghost pics = images.pictures();
    let ghost v = blocks_view(*blocks);
    let ghost start = st@;
    let n: usize = blocks.len();
    let mut out = no_lines();
    assert(v.take(0) =~= Seq::empty());
    for i in 0..n
        invariant
            n == blocks.len(),
            v == blocks_view(*blocks),
            pics == old(images).pictures(),
            images.pictures() == pics,
            start == old(st)@,
            (DrawnV { lines: lines_view(out@), st: st@ }) == blocks_drawn(
                env@,
                pics,
                v.take(i as int),
                width as int,
                start,
            ),
    {
        assert(v[i as int] == block_view(blocks@[i as int]));
        assert(v.take(i + 1).drop_last() =~= v.take(i as int));
        assert(v.take(i + 1).last() == v[i as int]);
        let rendered = render_block(&blocks[i], env, st, images, width);
        join(&mut out, rendered, true, Ghost(st@));
    }
    assert(v.take(n as int) =~= v);
    out
}

#[verifier::spinoff_prover]
#[verifier::rlimit(60)]
fn render_block<P: ImageProvider>(
    block: &Block,
    env: &Env<'_>,
    st: &mut State,
    images: &mut P,
    width: usize,
) -> (r: Vec<Line>)
    ensures
        (DrawnV { lines: lines_view(r@), st: final(st)@ }) == block_drawn(
            env@,
            old(images).pictures(),
            block_view(*block),
            width as int,
            old(st)@,
        ),
        final(images).pictures() == old(images).pictures(),
    decreases block, 0int,
{
    match block {
        Block::Heading { level, id, content } => heading(*level, id, content, env, st, width),
        Block::Paragraph(inlines) => {
            let tokens = inline_tokens(inlines, env, st, env.theme.text);
            wrap(&tokens, width, Align::Left)
        },
        Block::CodeBlock { language, code } => {
            let lang = match language {
                Some(l) => Some(l.as_str()),
                None => None,
            };
            code_block(lang, code, env, st, width)
        },
        Block::BlockQuote { kind, blocks } => quote(*kind, blocks, env, st, images, width),
        Block::List(list) => render_list(list, env, st, images, width, 0),
        Block::Table(t) => table::render(t, env, st, width),
        Block::Figure { image, caption } => figure(image, caption, env, st, images, width),
        Block::Rule => {
            let mut rule: String = String::new();
            text::push_repeated(&mut rule, env.opts.glyphs.rule, width);
            assert(rule@ =~= text::repeated(env.opts.glyphs.rule@, width as nat));
            one_line(Line::from_spans(one_span(Span::new(rule, env.theme.rule, None))))
        },
        Block::Html(raw) => {
            let tokens = one_token(Token::word(text::trimmed(raw), env.theme.muted, None));
            wrap(&tokens, width, Align::Left)
        },
        Block::DisplayMath(t) => display_math(t, env, width),
        Block::DefinitionList(items) => definition_list(items, env, st, images, width),
        Block::FootnoteDefinition { label, blocks } => {
            // Only reached for footnote syntax that could not be lifted out; render in
            // place rather than dropping the content.
            let mut lines = render_blocks(blocks, env, st, images, width.saturating_sub(4));
            indent(&mut lines, 4);
            let mut out = one_line(
                Line::from_spans(
                    one_span(Span::new(enclosed('[', label, ']'), env.theme.footnote_ref, None)),
                ),
            );
            push_lines(&mut out, lines);
            out
        },
    }
}

fn quote<P: ImageProvider>(
    kind: Option<AlertKind>,
    blocks: &Vec<Block>,
    env: &Env<'_>,
    st: &mut State,
    images: &mut P,
    width: usize,
) -> (r: Vec<Line>)
    ensures
        ({
            let bar = sat(text_width(env@.opts.glyphs.quote_bar@) + 1);
            let d = blocks_drawn(
                env@,
                old(images).pictures(),
                blocks_view(*blocks),
                at_least(minus(width as int, bar), 8),
                old(st)@,
            );
            lines_view(r@) == quote_barred(env@, kind, d.lines) && final(st)@ == d.st
        }),
        final(images).pictures() == old(images).pictures(),
    decreases blocks, 1int,
{
    let bar = env.opts.glyphs.quote_bar;
    let bar_columns = display_width(bar).saturating_add(1);
    let inner_width = max_of(width.saturating_sub(bar_columns), 8);
    let mut lines = render_blocks(blocks, env, st, images, inner_width);
    let style = match kind {
        Some(k) => {
            let style = env.theme.alert(k);
            let ghost body = lines_view(lines@);
            let mut labelled = one_line(
                Line::from_spans(one_span(Span::new(text::owned(k.label()), style, None))),
            );
            push_lines(&mut labelled, lines);
            lines = labelled;
            style
        },
        None => {
            tint(&mut lines, env.theme.quote_text);
            env.theme.quote_bar
        },
    };
    let mut prefix = one_span(Span::new(text::owned(bar), style, None));
    push_span(&mut prefix, Span::plain(text::owned(" ")));
    assert(spans_view(prefix@) =~= seq![span_of(bar@, style), plain_span(" "@)]);
    prefix_all(&mut lines, &prefix, &prefix);
    lines
}

fn marker_columns(env: &Env<'_>, start: Option<u64>, items: usize, depth: usize) -> (r: usize)
    requires
        depth < 3,
    ensures
        r == marker_width(env@, start, items as nat, depth as int),
{
    match start {
        Some(n) => {
            let last = n.saturating_add(items as u64).saturating_sub(1);
            let mut label: String = String::new();
            text::push_decimal(&mut label, last);
            label.push_str(".");
            assert(label@ =~= text::decimal(last as nat) + "."@);
            display_width(&label).saturating_add(1)
        },
        None => display_width(env.opts.glyphs.bullet(depth)).saturating_add(1),
    }
}

fn mark_item(
    lines: &mut Vec<Line>,
    env: &Env<'_>,
    task: Option<bool>,
    start: Option<u64>,
    index: usize,
    depth: usize,
    columns: usize,
)
    requires
        depth < 3,
    ensures
        lines_view(final(lines)@) == item_marked(
            env@,
            lines_view(old(lines)@),
            task,
            start,
            index as int,
            depth as int,
            columns as int,
        ),
{
    match task {
        Some(done) => {
            let g = env.opts.glyphs;
            if done {
                tint(lines, env.theme.task_done_text);
            }
            let mut marker = text::owned("[");
            marker.push_str(
                if done {
                    g.task_done
                } else {
                    g.task_todo
                },
            );
            marker.push_str("] ");
            let style = if done {
                env.theme.task_done
            } else {
                env.theme.task_todo
            };
            prefix_first_line(lines, marker, style, display_width("[x] "));
        },
        None => {
            match start {
                Some(n) => {
                    let mut marker: String = String::new();
                    text::push_decimal(&mut marker, n.saturating_add(index as u64));
                    marker.push_str(". ");
                    assert(marker@ =~= text::decimal(sat64(n + index) as nat) + ". "@);
                    prefix_first_line(lines, marker, env.theme.number, columns);
                },
                None => {
                    let mut marker = text::owned(env.opts.glyphs.bullet(depth));
                    marker.push_str(" ");
                    prefix_first_line(lines, marker, env.theme.bullet, columns);
                },
            }
        },
    }
}

fn render_list<P: ImageProvider>(
    list: &List,
    env: &Env<'_>,
    st: &mut State,
    images: &mut P,
    width: usize,
    depth: usize,
) -> (r: Vec<Line>)
    requires
        depth < 3,
    ensures
        (DrawnV { lines: lines_view(r@), st: final(st)@ }) == list_drawn(
            env@,
            old(images).pictures(),
            list_view(*list),
            width as int,
            depth as int,
            old(st)@,
        ),
        final(images).pictures() == old(images).pictures(),
    decreases list, 0int,
{
    let ghost pics = images.pictures();
    let ghost v = items_view(list.items);
    let ghost start_st = st@;
    let n: usize = list.items.len();
    let columns = marker_columns(env, list.start, n, depth);
    let inner_width = max_of(width.saturating_sub(columns), 8);
    let mut out = no_lines();
    assert(v.take(0) =~= Seq::empty());
    for i in 0..n
        invariant
            n == list.items.len(),
            depth < 3,
            v == items_view(list.items),
            pics == old(images).pictures(),
            images.pictures() == pics,
            start_st == old(st)@,
            (DrawnV { lines: lines_view(out@), st: st@ }) == items_drawn(
                env@,
                pics,
                list.start,
                list.tight,
                v.take(i as int),
                inner_width as int,
                depth as int,
                columns as int,
                start_st,
            ),
    {
        assert(v[i as int] == item_view(list.items@[i as int]));
        assert(v.take(i + 1).drop_last() =~= v.take(i as int));
        assert(v.take(i + 1).last() == v[i as int]);
        let mut lines = render_item_blocks(
            &list.items[i].blocks,
            env,
            st,
            images,
            inner_width,
            depth,
        );
        mark_item(&mut lines, env, list.items[i].task, list.start, i, depth, columns);
        if out.len() > 0 && !list.tight {
            push_line(&mut out, Line::default());
        }
        push_lines(&mut out, lines);
    }
    assert(v.take(n as int) =~= v);
    out
}

/// Renders the blocks of one list item, keeping nested lists at the right depth.
fn render_item_blocks<P: ImageProvider>(
    blocks: &Vec<Block>,
    env: &Env<'_>,
    st: &mut State,
    images: &mut P,
    width: usize,
    depth: usize,
) -> (r: Vec<Line>)
    requires
        depth < 3,
    ensures
        (DrawnV { lines: lines_view(r@), st: final(st)@ }) == item_blocks_drawn(
            env@,
            old(images).pictures(),
            blocks_view(*blocks),
            width as int,
            depth as int,
            old(st)@,
        ),
        final(images).pictures() == old(images).pictures(),
    decreases blocks, 0int,
{
    let ghost pics = images.pictures();
    let ghost v = blocks_view(*blocks);
    let ghost start = st@;
    let n: usize = blocks.len();
    let mut out = no_lines();
    assert(v.take(0) =~= Seq::empty());
    for i in 0..n
        invariant
            n == blocks.len(),
            depth < 3,
            v == blocks_view(*blocks),
            pics == old(images).pictures(),
            images.pictures() == pics,
            start == old(st)@,
            (DrawnV { lines: lines_view(out@), st: st@ }) == item_blocks_drawn(
                env@,
                pics,
                v.take(i as int),
                width as int,
                depth as int,
                start,
            ),
    {
        assert(v[i as int] == block_view(blocks@[i as int]));
        assert(v.take(i + 1).drop_last() =~= v.take(i as int));
        assert(v.take(i + 1).last() == v[i as int]);
        match &blocks[i] {
            Block::List(nested) => {
                let next: usize = if depth == 2 {
                    0
                } else {
                    depth + 1
                };
                assert(next == deeper(depth as int));
                let rendered = render_list(nested, env, st, images, width, next);
                join(&mut out, rendered, false, Ghost(st@));
            },
            _ => {
                let rendered = render_block(&blocks[i], env, st, images, width);
                join(&mut out, rendered, true, Ghost(st@));
            },
        }
    }
    assert(v.take(n as int) =~= v);
    out
}

fn definition_list<P: ImageProvider>(
    items: &Vec<(Vec<Inline>, Vec<Vec<Block>>)>,
    env: &Env<'_>,
    st: &mut State,
    images: &mut P,
    width: usize,
) -> (r: Vec<Line>)
    ensures
        (DrawnV { lines: lines_view(r@), st: final(st)@ }) == terms_drawn(
            env@,
            old(images).pictures(),
            definitions_view(*items),
            width as int,
            old(st)@,
        ),
        final(images).pictures() == old(images).pictures(),
    decreases items, 0int,
{
    let ghost pics = images.pictures();
    let ghost v = definitions_view(*items);
    let ghost start = st@;
    let n: usize = items.len();
    let mut out = no_lines();
    assert(v.take(0) =~= Seq::empty());
    for i in 0..n
        invariant
            n == items.len(),
            v == definitions_view(*items),
            pics == old(images).pictures(),
            images.pictures() == pics,
            start == old(st)@,
            (DrawnV { lines: lines_view(out@), st: st@ }) == terms_drawn(
                env@,
                pics,
                v.take(i as int),
                width as int,
                start,
            ),
    {
        assert(v[i as int] == definition_view(items@[i as int]));
        assert(v.take(i + 1).drop_last() =~= v.take(i as int));
        assert(v.take(i + 1).last() == v[i as int]);
        if out.len() > 0 {
            push_line(&mut out, Line::default());
        }
        let tokens = inline_tokens(&items[i].0, env, st, env.theme.strong);
        push_lines(&mut out, wrap(&tokens, width, Align::Left));
        render_bodies(&items[i].1, env, st, images, width, &mut out);
    }
    assert(v.take(n as int) =~= v);
    out
}

fn render_bodies<P: ImageProvider>(
    bodies: &Vec<Vec<Block>>,
    env: &Env<'_>,
    st: &mut State,
    images: &mut P,
    width: usize,
    out: &mut Vec<Line>,
)
    ensures
        (DrawnV { lines: lines_view(final(out)@), st: final(st)@ }) == bodies_drawn(
            env@,
            old(images).pictures(),
            bodies_view(*bodies),
            width as int,
            DrawnV { lines: lines_view(old(out)@), st: old(st)@ },
        ),
        final(images).pictures() == old(images).pictures(),
    decreases bodies, 0int,
{
    let ghost pics = images.pictures();
    let ghost v = bodies_view(*bodies);
    let ghost d = DrawnV { lines: lines_view(out@), st: st@ };
    let n: usize = bodies.len();
    assert(v.take(0) =~= Seq::empty());
    for i in 0..n
        invariant
            n == bodies.len(),
            v == bodies_view(*bodies),
            pics == old(images).pictures(),
            images.pictures() == pics,
            (DrawnV { lines: lines_view(out@), st: st@ }) == bodies_drawn(
                env@,
                pics,
                v.take(i as int),
                width as int,
                d,
            ),
    {
        assert(v[i as int] == blocks_view(bodies@[i as int]));
        assert(v.take(i + 1).drop_last() =~= v.take(i as int));
        assert(v.take(i + 1).last() == v[i as int]);
        let mut lines = render_blocks(&bodies[i], env, st, images, width.saturating_sub(4));
        indent(&mut lines, 4);
        push_lines(out, lines);
    }
    assert(v.take(n as int) =~= v);
}

} // verus!
