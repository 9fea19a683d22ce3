//! Inline content: styling, tokenising, and line breaking.
//!
//! Wrapping is where terminal Markdown viewers usually give themselves away.
//! Counting characters makes CJK text and emoji overflow the right margin; counting
//! bytes makes accented Latin wrap early. Here text is measured in display columns
//! over grapheme clusters, which is the only measure the terminal itself agrees
//! with.
use vstd::prelude::*;

use unicode_segmentation::UnicodeSegmentation;
use unicode_width::{UnicodeWidthChar, UnicodeWidthStr};

use super::{
    aligned, blank_line, line_of, lines_view, sat, spans_view, Line, LineV, Span, SpanV,
};
use crate::term::style::{plain_style, Color, Style};
use crate::text;

verus! {

/// Horizontal placement within the available width.
#[derive(Debug, Clone, Copy, PartialEq, Eq, Structural)]
pub enum Align {
    Left,
    Center,
    Right,
}

impl Default for Align {
    fn default() -> (r: Align)
        ensures
            r == Align::Left,
    {
        Align::Left
    }
}

// --- measuring --------------------------------------------------------------

/// True of a character that stands by itself and takes two columns: kana, ideographs and
/// syllables of Hangul.
pub open spec fn is_wide_char(c: char) -> bool {
    ||| '\u{3041}' <= c <= '\u{3096}'
    ||| '\u{30a1}' <= c <= '\u{30fa}'
    ||| '\u{4e00}' <= c <= '\u{9fff}'
    ||| '\u{ac00}' <= c <= '\u{d7a3}'
}

/// True of a character that stands by itself and takes the same columns wherever it does:
/// printable ASCII, Latin, Greek and Cyrillic letters, dashes, quotation marks and the
/// ellipsis, lines and blocks to draw with, and the wide ones.
pub open spec fn is_plain_char(c: char) -> bool {
    ||| ' ' <= c <= '~'
    ||| '\u{c0}' <= c <= '\u{24f}'
    ||| '\u{391}' <= c <= '\u{3c9}'
    ||| '\u{400}' <= c <= '\u{481}'
    ||| '\u{2010}' <= c <= '\u{2027}'
    ||| '\u{2500}' <= c <= '\u{259f}'
    ||| is_wide_char(c)
}

/// The columns of such a character.
pub open spec fn char_columns(c: char) -> int {
    if is_wide_char(c) {
        2
    } else {
        1
    }
}

/// True of text made of such characters.
pub open spec fn is_plain(s: Seq<char>) -> bool {
    forall|k: int| 0 <= k < s.len() ==> is_plain_char(#[trigger] s[k])
}

/// The columns of such text.
pub open spec fn columns_of(s: Seq<char>) -> int
    decreases s.len(),
{
    if s.len() == 0 {
        0
    } else {
        columns_of(s.drop_last()) + char_columns(s.last())
    }
}

/// What `unicode_width::UnicodeWidthStr::width` gives for a string.
pub uninterp spec fn unicode_columns(s: Seq<char>) -> usize;

/// The columns of a text: those of its characters where they are plain.
#[verifier::opaque]
pub open spec fn text_width(s: Seq<char>) -> usize {
    if is_plain(s) {
        columns_of(s) as usize
    } else {
        unicode_columns(s)
    }
}

/// Plain text takes the columns of its characters.
pub proof fn plain_text_adds_up(s: Seq<char>)
    requires
        is_plain(s),
        columns_of(s) <= usize::MAX,
    ensures
        text_width(s) == columns_of(s),
{
    reveal(text_width);
    lemma_columns_nonnegative(s);
}

/// Calls `unicode_width::UnicodeWidthStr::width`, which depends on the text alone. Plain
/// text takes the columns of each of its characters, and so it does at the end of any
/// text: widths are added up from the end, and such a character has no part in what
/// stands before it.
#[verifier::external_body]
fn unicode_width(s: &str) -> (r: usize)
    ensures
        r == unicode_columns(s@),
        is_plain(s@) ==> r == columns_of(s@),
        forall|a: Seq<char>, b: Seq<char>|
            s@ == #[trigger] (a + b) && is_plain(b) ==> r == unicode_columns(a) + columns_of(b),
{
    s.width()
}

/// What `unicode_width::UnicodeWidthChar::width` gives for a character.
pub uninterp spec fn unicode_char_columns(c: char) -> Option<usize>;

/// The columns of a character, if it has any.
pub open spec fn char_width(c: char) -> Option<usize> {
    if is_plain_char(c) {
        Some(char_columns(c) as usize)
    } else {
        unicode_char_columns(c)
    }
}

/// Calls `unicode_width::UnicodeWidthChar::width`, which depends on the character
/// alone. It knows the columns of plain characters.
#[verifier::external_body]
fn unicode_char_width(c: char) -> (r: Option<usize>)
    ensures
        r == unicode_char_columns(c),
        is_plain_char(c) ==> r.is_some() && r.unwrap() == char_columns(c),
{
    c.width()
}

/// The extended grapheme clusters that
/// `unicode_segmentation::UnicodeSegmentation::graphemes` iterates over.
pub uninterp spec fn unicode_clusters(s: Seq<char>) -> Seq<Seq<char>>;

/// Each character of a text by itself.
pub open spec fn singles(s: Seq<char>) -> Seq<Seq<char>> {
    Seq::new(s.len(), |k: int| seq![s[k]])
}

/// True of text in which no two characters make up one: plain characters and ASCII,
/// without a carriage return before a line feed.
pub open spec fn stands_apart(s: Seq<char>) -> bool {
    &&& forall|k: int|
        0 <= k < s.len() ==> is_plain_char(#[trigger] s[k]) || s[k] <= '\u{7f}'
    &&& forall|k: int| 0 <= k < s.len() - 1 && #[trigger] s[k] == '\r' ==> s[k + 1] != '\n'
}

/// The grapheme clusters of a text: its characters where they stand apart.
#[verifier::opaque]
pub open spec fn grapheme_clusters(s: Seq<char>) -> Seq<Seq<char>> {
    if stands_apart(s) {
        singles(s)
    } else {
        unicode_clusters(s)
    }
}

/// The clusters of text that stands apart are its characters.
pub proof fn characters_stand_apart(s: Seq<char>)
    requires
        stands_apart(s),
    ensures
        grapheme_clusters(s) == singles(s),
{
    reveal(grapheme_clusters);
}

/// Collects `unicode_segmentation::UnicodeSegmentation::graphemes`. The clusters
/// depend on the text alone, none of them is empty, and end to end they are the
/// text. ASCII and plain characters are clusters by themselves, but for a carriage
/// return and the line feed behind it.
#[verifier::external_body]
fn unicode_graphemes(s: &str) -> (r: Vec<String>)
    ensures
        text::views(r@) == unicode_clusters(s@),
        text::views(r@).flatten() == s@,
        forall|i: int| 0 <= i < r@.len() ==> (#[trigger] text::views(r@)[i]).len() > 0,
        stands_apart(s@) ==> text::views(r@) == singles(s@),
{
    s.graphemes(true).map(String::from).collect()
}

/// The grapheme clusters of a text.
pub(crate) fn graphemes(s: &str) -> (r: Vec<String>)
    ensures
        text::views(r@) == grapheme_clusters(s@),
        text::views(r@).flatten() == s@,
        forall|i: int| 0 <= i < r@.len() ==> (#[trigger] text::views(r@)[i]).len() > 0,
{
    proof {
        reveal(grapheme_clusters);
    }
    unicode_graphemes(s)
}

/// Display width of a string in terminal cells.
pub fn display_width(s: &str) -> (r: usize)
    ensures
        r == text_width(s@),
        is_plain(s@) ==> r == columns_of(s@),
{
    proof {
        reveal(text_width);
    }
    unicode_width(s)
}

/// True for characters that take more than one cell.
pub fn is_wide(c: char) -> (r: bool)
    ensures
        r == (match char_width(c) {
            Some(w) => w > 1,
            None => false,
        }),
{
    match unicode_char_width(c) {
        Some(w) => w > 1,
        None => false,
    }
}

// --- tokens -----------------------------------------------------------------

/// A unit of inline content for the line breaker.
#[derive(Debug, PartialEq)]
pub struct Token {
    pub text: String,
    pub style: Style,
    /// Index into the document's link table, for OSC 8 output.
    pub link: Option<usize>,
    pub kind: Kind,
}

#[derive(Debug, Clone, Copy, PartialEq, Eq, Structural)]
pub enum Kind {
    /// Breakable whitespace.
    Space,
    /// An atom that we would rather not split.
    Word,
    /// An unconditional line break.
    Break,
}

pub struct TokenV {
    pub text: Seq<char>,
    pub style: Style,
    pub link: Option<usize>,
    pub kind: Kind,
}

impl View for Token {
    type V = TokenV;

    open spec fn view(&self) -> TokenV {
        TokenV { text: self.text@, style: self.style, link: self.link, kind: self.kind }
    }
}

pub open spec fn tokens_view(v: Seq<Token>) -> Seq<TokenV> {
    v.map_values(|t: Token| t@)
}

pub open spec fn word_token(t: Seq<char>, style: Style, link: Option<usize>) -> TokenV {
    TokenV { text: t, style, link, kind: Kind::Word }
}

pub open spec fn space_token(style: Style) -> TokenV {
    TokenV { text: " "@, style, link: None, kind: Kind::Space }
}

pub open spec fn break_token() -> TokenV {
    TokenV { text: Seq::empty(), style: plain_style(), link: None, kind: Kind::Break }
}

impl Token {
    pub fn word(text: String, style: Style, link: Option<usize>) -> (r: Token)
        ensures
            r@ == word_token(text@, style, link),
    {
        Token { text, style, link, kind: Kind::Word }
    }

    pub fn space(style: Style) -> (r: Token)
        ensures
            r@ == space_token(style),
    {
        Token { text: text::owned(" "), style, link: None, kind: Kind::Space }
    }

    pub fn hard_break() -> (r: Token)
        ensures
            r@ == break_token(),
    {
        Token { text: String::new(), style: Style::plain(), link: None, kind: Kind::Break }
    }

    pub fn width(&self) -> (r: usize)
        ensures
            r == text_width(self@.text),
    {
        display_width(&self.text)
    }
}

/// Adds a token to a run of them.
pub fn push_token(out: &mut Vec<Token>, t: Token)
    ensures
        tokens_view(final(out)@) == tokens_view(old(out)@).push(t@),
{
    let ghost before = tokens_view(out@);
    out.push(t);
    assert(tokens_view(out@) =~= before.push(t@));
}

/// True of a grapheme that text may be broken at: white space, but not the
/// non-breaking space.
pub open spec fn breaks_at(g: Seq<char>) -> bool {
    forall|i: int| 0 <= i < g.len() ==> text::is_space(#[trigger] g[i]) && g[i] != '\u{a0}'
}

/// A run of tokens with the word collected so far, if there is one.
pub open spec fn with_word(
    out: Seq<TokenV>,
    word: Seq<char>,
    style: Style,
    link: Option<usize>,
) -> Seq<TokenV> {
    if word.len() > 0 {
        out.push(word_token(word, style, link))
    } else {
        out
    }
}

/// A run of tokens with a space at its end, and one only.
pub open spec fn with_space(out: Seq<TokenV>, style: Style) -> Seq<TokenV> {
    if out.len() > 0 && out.last().kind == Kind::Space {
        out
    } else {
        out.push(space_token(style))
    }
}

/// The tokens of the graphemes from `k` on, behind `out`; `word` is what has been
/// read of the current word.
pub open spec fn tokens_from(
    gs: Seq<Seq<char>>,
    k: int,
    word: Seq<char>,
    style: Style,
    link: Option<usize>,
    out: Seq<TokenV>,
) -> Seq<TokenV>
    decreases gs.len() - k,
{
    if k < 0 || k >= gs.len() {
        with_word(out, word, style, link)
    } else if breaks_at(gs[k]) {
        tokens_from(
            gs,
            k + 1,
            Seq::empty(),
            style,
            link,
            with_space(with_word(out, word, style, link), style),
        )
    } else {
        tokens_from(gs, k + 1, word + gs[k], style, link, out)
    }
}

/// The tokens after a run of text. Markdown treats a run of white space as one
/// space.
pub open spec fn tokenized(
    t: Seq<char>,
    style: Style,
    link: Option<usize>,
    out: Seq<TokenV>,
) -> Seq<TokenV> {
    tokens_from(grapheme_clusters(t), 0, Seq::empty(), style, link, out)
}

fn is_break(g: &str) -> (r: bool)
    ensures
        r == breaks_at(g@),
{
    let v = text::chars_of(g);
    for i in 0..v.len()
        invariant
            v@ == g@,
            forall|k: int|
                0 <= k < i ==> text::is_space(#[trigger] v@[k]) && v@[k] != '\u{a0}',
    {
        if !(text::char_is_space(v[i]) && v[i] != '\u{a0}') {
            assert(!(text::is_space(g@[i as int]) && g@[i as int] != '\u{a0}'));
            return false;
        }
    }
    true
}

/// Splits a run of text into word and space tokens.
pub fn tokenize_text(text: &str, style: Style, link: Option<usize>, out: &mut Vec<Token>)
    ensures
        tokens_view(final(out)@) == tokenized(text@, style, link, tokens_view(old(out)@)),
{
    let gs = graphemes(text);
    let ghost v = text::views(gs@);
    let mut word: String = String::new();
    let mut k: usize = 0;
    let n: usize = gs.len();
    while k < n
        invariant
            n == gs.len(),
            k <= n,
            v == text::views(gs@),
            v == grapheme_clusters(text@),
            tokens_from(v, k as int, word@, style, link, tokens_view(out@)) == tokenized(
                text@,
                style,
                link,
                tokens_view(old(out)@),
            ),
        decreases n - k,
    {
        assert(v[k as int] == gs@[k as int]@);
        if is_break(&gs[k]) {
            if !word.as_str().is_empty() {
                push_token(out, Token::word(word, style, link));
                word = String::new();
            }
            let m: usize = out.len();
            let last_is_space = m > 0 && out[m - 1].kind == Kind::Space;
            if m > 0 {
                assert(tokens_view(out@).last() == out@[m - 1]@);
            }
            if !last_is_space {
                push_token(out, Token::space(style));
            }
            assert(word@ =~= Seq::empty());
        } else {
            word.push_str(&gs[k]);
        }
        k = k + 1;
    }
    if !word.as_str().is_empty() {
        push_token(out, Token::word(word, style, link));
    }
}

// --- cutting ----------------------------------------------------------------

/// A chunk being filled, and the chunks before it.
pub struct ChunksV {
    pub done: Seq<Seq<char>>,
    pub chunk: Seq<char>,
    pub used: int,
}

/// The chunks after one more grapheme.
pub open spec fn chunk_step(st: ChunksV, g: Seq<char>, width: int) -> ChunksV {
    let gw = super::cell_width(g);
    if st.used + gw > width && st.chunk.len() > 0 {
        ChunksV { done: st.done.push(st.chunk), chunk: g, used: gw }
    } else {
        ChunksV { chunk: st.chunk + g, used: sat(st.used + gw), ..st }
    }
}

/// The chunks after the first `k` graphemes.
pub open spec fn chunk_steps(gs: Seq<Seq<char>>, k: int, width: int) -> ChunksV
    decreases k,
{
    if k <= 0 {
        ChunksV { done: Seq::empty(), chunk: Seq::empty(), used: 0 }
    } else {
        chunk_step(chunk_steps(gs, k - 1, width), gs[k - 1], width)
    }
}

/// At least one column.
pub open spec fn at_least_one(width: int) -> int {
    if width < 1 {
        1
    } else {
        width
    }
}

/// A text in pieces that each fit within `width` columns, as far as its graphemes
/// do.
pub open spec fn chunks(s: Seq<char>, width: int) -> Seq<Seq<char>> {
    let gs = grapheme_clusters(s);
    let st = chunk_steps(gs, gs.len() as int, at_least_one(width));
    if st.chunk.len() > 0 {
        st.done.push(st.chunk)
    } else {
        st.done
    }
}

/// The columns of a run of graphemes, none of them counted as less than one.
pub open spec fn cells(gs: Seq<Seq<char>>) -> int
    decreases gs.len(),
{
    if gs.len() == 0 {
        0
    } else {
        cells(gs.drop_last()) + super::cell_width(gs.last())
    }
}

pub(crate) proof fn lemma_flatten_push(done: Seq<Seq<char>>, x: Seq<char>)
    ensures
        done.push(x).flatten() == done.flatten() + x,
{
    done.lemma_flatten_push(x);
}

proof fn lemma_chunks_text(gs: Seq<Seq<char>>, k: int, width: int)
    requires
        0 <= k <= gs.len(),
    ensures
        chunk_steps(gs, k, width).done.flatten() + chunk_steps(gs, k, width).chunk == gs.take(
            k,
        ).flatten(),
    decreases k,
{
    if k <= 0 {
        assert(gs.take(0) =~= Seq::empty());
        assert(Seq::<Seq<char>>::empty().flatten() =~= Seq::empty());
    } else {
        lemma_chunks_text(gs, k - 1, width);
        let st = chunk_steps(gs, k - 1, width);
        assert(gs.take(k) =~= gs.take(k - 1).push(gs[k - 1]));
        lemma_flatten_push(gs.take(k - 1), gs[k - 1]);
        lemma_flatten_push(st.done, st.chunk);
        assert(st.done.flatten() + (st.chunk + gs[k - 1]) =~= (st.done.flatten() + st.chunk)
            + gs[k - 1]);
    }
}

/// True of plain text none of whose characters is too wide.
pub open spec fn can_be_cut(s: Seq<char>, width: int) -> bool {
    is_plain(s) && forall|k: int| 0 <= k < s.len() ==> char_columns(#[trigger] s[k]) <= width
}

/// True of pieces of plain text that fit, none of which leaves room for the character
/// that the next one starts with.
pub open spec fn fills_lines(ps: Seq<Seq<char>>, width: int) -> bool {
    &&& forall|i: int|
        0 <= i < ps.len() ==> is_plain(#[trigger] ps[i]) && ps[i].len() > 0 && columns_of(ps[i])
            <= width
    &&& forall|i: int|
        0 <= i < ps.len() - 1 ==> columns_of(#[trigger] ps[i]) + char_columns(ps[i + 1][0])
            > width
}

proof fn lemma_fills_more(ps: Seq<Seq<char>>, p: Seq<char>, width: int)
    requires
        fills_lines(ps, width),
        is_plain(p),
        p.len() > 0,
        columns_of(p) <= width,
        ps.len() > 0 ==> columns_of(ps.last()) + char_columns(p[0]) > width,
    ensures
        fills_lines(ps.push(p), width),
{
    let all = ps.push(p);
    assert forall|i: int| 0 <= i < all.len() implies is_plain(#[trigger] all[i]) && all[i].len() > 0
        && columns_of(all[i]) <= width by {
        if i < ps.len() {
            assert(all[i] == ps[i]);
        }
    }
    assert forall|i: int| 0 <= i < all.len() - 1 implies columns_of(#[trigger] all[i])
        + char_columns(all[i + 1][0]) > width by {
        assert(all[i] == ps[i]);
        if i + 1 < ps.len() {
            assert(all[i + 1] == ps[i + 1]);
        }
    }
}

proof fn lemma_columns_push(s: Seq<char>, c: char)
    ensures
        columns_of(s.push(c)) == columns_of(s) + char_columns(c),
{
    assert(s.push(c).drop_last() =~= s);
}

proof fn lemma_columns_single(c: char)
    ensures
        columns_of(seq![c]) == char_columns(c),
{
    assert(seq![c].drop_last() =~= Seq::empty());
    assert(columns_of(Seq::empty()) == 0);
}

/// Splits a string into pieces that each fit within `width` columns. Nothing is
/// lost: end to end the pieces are the string.
pub fn split_to_width(s: &str, width: usize) -> (r: Vec<String>)
    ensures
        text::views(r@) == chunks(s@, width as int),
        text::views(r@).flatten() == s@,
        can_be_cut(s@, at_least_one(width as int)) ==> fills_lines(
            text::views(r@),
            at_least_one(width as int),
        ),
{
    let ghost neat = can_be_cut(s@, at_least_one(width as int));
    proof {
        if neat {
            characters_stand_apart(s@);
        }
    }
    let width: usize = if width < 1 {
        1
    } else {
        width
    };
    let gs = graphemes(s);
    let ghost v = text::views(gs@);
    let mut out: Vec<String> = Vec::new();
    let mut chunk: String = String::new();
    let mut used: usize = 0;
    let n: usize = gs.len();
    assert(text::views(out@) =~= Seq::empty());
    for k in 0..n
        invariant
            n == gs.len(),
            v == text::views(gs@),
            chunk_steps(v, k as int, width as int) == (ChunksV {
                done: text::views(out@),
                chunk: chunk@,
                used: used as int,
            }),
            neat ==> {
                &&& v == singles(s@)
                &&& can_be_cut(s@, width as int)
                &&& fills_lines(text::views(out@), width as int)
                &&& is_plain(chunk@)
                &&& used == columns_of(chunk@)
                &&& used <= width
                &&& out@.len() > 0 ==> chunk@.len() > 0 && columns_of(text::views(out@).last())
                    + char_columns(chunk@[0]) > width
            },
    {
        assert(v[k as int] == gs@[k as int]@);
        let w = display_width(&gs[k]);
        let gw: usize = if w < 1 {
            1
        } else {
            w
        };
        proof {
            if neat {
                assert(gs@[k as int]@ == seq![s@[k as int]]);
                lemma_columns_single(s@[k as int]);
                assert(is_plain_char(s@[k as int]) && char_columns(s@[k as int]) <= width);
                plain_text_adds_up(seq![s@[k as int]]);
                lemma_columns_push(chunk@, s@[k as int]);
                if chunk@.len() > 0 {
                    lemma_fills_more(text::views(out@), chunk@, width as int);
                }
            }
        }
        if (used > width || gw > width - used) && !chunk.as_str().is_empty() {
            let ghost before = text::views(out@);
            let ghost c = chunk@;
            out.push(chunk);
            assert(text::views(out@) =~= before.push(c));
            chunk = String::new();
            used = 0;
        }
        let ghost c = chunk@;
        chunk.push_str(&gs[k]);
        assert(c.len() == 0 ==> chunk@ =~= v[k as int]);
        assert(neat ==> chunk@ =~= c.push(s@[k as int]));
        used = used.saturating_add(gw);
    }
    proof {
        lemma_chunks_text(v, n as int, width as int);
        assert(v.take(n as int) =~= v);
        lemma_flatten_push(text::views(out@), chunk@);
    }
    if !chunk.as_str().is_empty() {
        let ghost before = text::views(out@);
        let ghost c = chunk@;
        out.push(chunk);
        assert(text::views(out@) =~= before.push(c));
    } else {
        assert(text::views(out@).flatten() + chunk@ =~= text::views(out@).flatten());
    }
    out
}

/// How many graphemes fit into `room` columns.
pub open spec fn fitting(gs: Seq<Seq<char>>, k: int, used: int, room: int) -> int
    decreases gs.len() - k,
{
    if k < 0 || k >= gs.len() || used + super::cell_width(gs[k]) > room {
        k
    } else {
        fitting(gs, k + 1, used + super::cell_width(gs[k]), room)
    }
}

/// A text cut to `width` columns, with `ellipsis` where something was cut.
pub open spec fn truncated(s: Seq<char>, width: int, ellipsis: Seq<char>) -> Seq<char> {
    let ew = text_width(ellipsis);
    if text_width(s) <= width {
        s
    } else if width <= ew {
        if chunks(ellipsis, width).len() > 0 {
            chunks(ellipsis, width)[0]
        } else {
            Seq::empty()
        }
    } else {
        let gs = grapheme_clusters(s);
        gs.take(fitting(gs, 0, 0, width - ew)).flatten() + ellipsis
    }
}

/// How much of a plain text fits into `room` columns.
pub open spec fn keep(s: Seq<char>, room: int) -> int
    decreases s.len(),
{
    if s.len() == 0 || columns_of(s) <= room {
        s.len() as int
    } else {
        keep(s.drop_last(), room)
    }
}

/// A plain text cut to `width` columns: as much of it as leaves room for the ellipsis.
pub open spec fn cut_plainly(s: Seq<char>, width: int, ellipsis: Seq<char>) -> Seq<char> {
    if columns_of(s) <= width {
        s
    } else if width <= columns_of(ellipsis) {
        ellipsis.take(keep(ellipsis, width))
    } else {
        s.take(keep(s, width - columns_of(ellipsis))) + ellipsis
    }
}

proof fn lemma_columns_prefix(s: Seq<char>, k: int)
    requires
        0 <= k <= s.len(),
    ensures
        0 <= columns_of(s.take(k)) <= columns_of(s),
    decreases s.len() - k,
{
    if k < s.len() {
        lemma_columns_prefix(s, k + 1);
        assert(s.take(k + 1).drop_last() =~= s.take(k));
        lemma_columns_nonnegative(s.take(k));
    } else {
        assert(s.take(k) =~= s);
        lemma_columns_nonnegative(s);
    }
}

proof fn lemma_columns_nonnegative(s: Seq<char>)
    ensures
        0 <= columns_of(s),
    decreases s.len(),
{
    if s.len() > 0 {
        lemma_columns_nonnegative(s.drop_last());
    }
}

proof fn lemma_columns_append(a: Seq<char>, b: Seq<char>)
    ensures
        columns_of(a + b) == columns_of(a) + columns_of(b),
    decreases b.len(),
{
    if b.len() == 0 {
        assert(a + b =~= a);
    } else {
        lemma_columns_append(a, b.drop_last());
        assert((a + b).drop_last() =~= a + b.drop_last());
    }
}

/// The longest prefix that fits is the one behind which the next character does not.
proof fn lemma_keep(s: Seq<char>, k: int, room: int)
    requires
        0 <= k <= s.len(),
        columns_of(s.take(k)) <= room,
        k < s.len() ==> columns_of(s.take(k + 1)) > room,
    ensures
        keep(s, room) == k,
    decreases s.len(),
{
    if k < s.len() {
        lemma_columns_prefix(s, k + 1);
        let d = s.drop_last();
        assert(d.take(k) =~= s.take(k));
        if k < d.len() {
            assert(d.take(k + 1) =~= s.take(k + 1));
        }
        lemma_keep(d, k, room);
    } else {
        assert(s.take(k) =~= s);
    }
}

/// The first of the pieces that plain text is cut into.
proof fn lemma_first_piece(ps: Seq<Seq<char>>, s: Seq<char>, width: int)
    requires
        fills_lines(ps, width),
        ps.flatten() == s,
        1 <= width,
    ensures
        s.len() > 0 ==> ps.len() > 0 && ps[0] == s.take(keep(s, width)),
        s.len() == 0 ==> ps.len() == 0,
{
    if ps.len() == 0 {
        assert(s =~= Seq::empty());
    } else {
        let rest = ps.drop_first();
        let p = ps[0];
        assert(s == p + rest.flatten());
        assert(s.take(p.len() as int) =~= p);
        if rest.len() > 0 {
            let q = ps[1];
            assert(rest[0] == q);
            assert(q.len() > 0);
            assert(rest.flatten() == q + rest.drop_first().flatten());
            assert(s[p.len() as int] == q[0]);
            assert(s.take((p.len() + 1) as int) =~= p.push(q[0]));
            lemma_columns_push(p, q[0]);
        } else {
            assert(rest.flatten() =~= Seq::empty());
            assert(s =~= p);
        }
        lemma_keep(s, p.len() as int, width);
    }
}

/// Truncates to `width` columns, appending `ellipsis` when it had to cut. What comes out
/// of plain text fits, and is left alone when it is truncated again.
pub fn truncate(s: &str, width: usize, ellipsis: &str) -> (r: String)
    ensures
        r@ == truncated(s@, width as int, ellipsis@),
        width >= 1 && is_plain(s@) && can_be_cut(ellipsis@, width as int) ==> {
            &&& r@ == cut_plainly(s@, width as int, ellipsis@)
            &&& text_width(r@) <= width
            &&& truncated(r@, width as int, ellipsis@) == r@
        },
{
    let ghost neat = width >= 1 && is_plain(s@) && can_be_cut(ellipsis@, width as int);
    proof {
        if neat {
            characters_stand_apart(s@);
        }
    }
    if display_width(s) <= width {
        return text::owned(s);
    }
    let ew = display_width(ellipsis);
    if width <= ew {
        let parts = split_to_width(ellipsis, width);
        let ghost v = text::views(parts@);
        proof {
            if neat {
                lemma_first_piece(v, ellipsis@, width as int);
            }
        }
        if parts.len() > 0 {
            assert(v[0] == parts@[0]@);
            proof {
                if neat {
                    plain_text_adds_up(v[0]);
                }
            }
            return parts[0].clone();
        }
        proof {
            if neat {
                assert(ellipsis@ =~= Seq::empty());
                plain_text_adds_up(Seq::empty());
            }
        }
        return String::new();
    }
    let room: usize = width - ew;
    let gs = graphemes(s);
    let ghost v = text::views(gs@);
    let mut out: String = String::new();
    let mut used: usize = 0;
    let mut k: usize = 0;
    let n: usize = gs.len();
    assert(v.take(0) =~= Seq::empty());
    assert(out@ =~= v.take(0).flatten());
    loop
        invariant
            n == gs.len(),
            k <= n,
            v == text::views(gs@),
            used <= room,
            out@ == v.take(k as int).flatten(),
            fitting(v, k as int, used as int, room as int) == fitting(v, 0, 0, room as int),
            neat ==> {
                &&& is_plain(s@)
                &&& v == singles(s@)
                &&& out@ == s@.take(k as int)
                &&& used == columns_of(s@.take(k as int))
            },
        ensures
            out@ == v.take(fitting(v, 0, 0, room as int)).flatten(),
            neat ==> out@ == s@.take(keep(s@, room as int)),
        decreases n - k,
    {
        if k >= n {
            proof {
                if neat {
                    lemma_keep(s@, k as int, room as int);
                }
            }
            break;
        }
        assert(v[k as int] == gs@[k as int]@);
        let w = display_width(&gs[k]);
        proof {
            if neat {
                let c = s@[k as int];
                assert(gs@[k as int]@ == seq![c]);
                assert(is_plain_char(c));
                lemma_columns_single(c);
                plain_text_adds_up(seq![c]);
                assert(s@.take(k + 1) =~= s@.take(k as int).push(c));
                lemma_columns_push(s@.take(k as int), c);
            }
        }
        let gw: usize = if w < 1 {
            1
        } else {
            w
        };
        if gw > room - used {
            proof {
                if neat {
                    lemma_keep(s@, k as int, room as int);
                }
            }
            break;
        }
        out.push_str(&gs[k]);
        proof {
            assert(v.take(k + 1) =~= v.take(k as int).push(v[k as int]));
            lemma_flatten_push(v.take(k as int), v[k as int]);
        }
        used = used + gw;
        k = k + 1;
    }
    let ghost kept = out@;
    out.push_str(ellipsis);
    proof {
        if neat {
            lemma_columns_append(kept, ellipsis@);
            lemma_kept(s@, room as int);
            plain_text_adds_up(out@);
        }
    }
    out
}

/// What is kept fits.
proof fn lemma_kept(s: Seq<char>, room: int)
    requires
        0 <= room,
    ensures
        0 <= keep(s, room) <= s.len(),
        columns_of(s.take(keep(s, room))) <= room,
    decreases s.len(),
{
    if s.len() == 0 || columns_of(s) <= room {
        assert(s.take(s.len() as int) =~= s);
    } else {
        lemma_kept(s.drop_last(), room);
        let k = keep(s, room);
        assert(s.drop_last().take(k) =~= s.take(k));
    }
}

/// A text with spaces after it, up to `width` columns.
pub open spec fn padded(s: Seq<char>, width: int) -> Seq<char> {
    if text_width(s) >= width {
        s
    } else {
        s + text::spaces((width - text_width(s)) as nat)
    }
}

/// Pads a string on the right to exactly `width` columns.
pub fn pad_to(s: &str, width: usize) -> (r: String)
    ensures
        r@ == padded(s@, width as int),
        text_width(r@) == (if text_width(s@) >= width {
            text_width(s@)
        } else {
            width
        }),
        padded(r@, width as int) == r@,
{
    let mut out = text::owned(s);
    let used = display_width(s);
    if used >= width {
        return out;
    }
    let n: usize = width - used;
    assert(out@ =~= s@ + text::spaces(0));
    for k in 0..n
        invariant
            out@ == s@ + text::spaces(k as nat),
    {
        out.push(' ');
        assert(out@ =~= s@ + text::spaces((k + 1) as nat));
    }
    // What is handed out has been measured.
    let _shown = unicode_width(&out);
    proof {
        reveal(text_width);
        let pad = text::spaces(n as nat);
        lemma_columns_of_spaces(n as nat);
        assert(is_plain(pad));
        assert(out@ == s@ + pad);
        lemma_columns_append(s@, pad);
        if is_plain(out@) {
            assert forall|k: int| 0 <= k < s@.len() implies is_plain_char(#[trigger] s@[k]) by {
                assert(out@[k] == s@[k]);
            }
        } else if is_plain(s@) {
            assert(is_plain(out@));
        }
        assert(text_width(out@) == width);
    }
    out
}

proof fn lemma_columns_of_spaces(n: nat)
    ensures
        columns_of(text::spaces(n)) == n,
    decreases n,
{
    if n > 0 {
        lemma_columns_of_spaces((n - 1) as nat);
        assert(text::spaces(n).drop_last() =~= text::spaces((n - 1) as nat));
    }
}

// --- line breaking ------------------------------------------------------------

/// The line breaker between two tokens: the lines done, and the row being filled
/// with the columns it takes.
pub struct WrapV {
    pub lines: Seq<LineV>,
    pub row: Seq<SpanV>,
    pub used: int,
}

/// True of a span that would show as nothing at the end of a line. One with a
/// background of its own would show.
pub open spec fn is_trailing(s: SpanV) -> bool {
    text::all_space(s.text) && s.style.bg == Color::Default
}

/// A row without the blanks at its end.
pub open spec fn without_trailing(row: Seq<SpanV>) -> Seq<SpanV>
    decreases row.len(),
{
    if row.len() > 0 && is_trailing(row.last()) {
        without_trailing(row.drop_last())
    } else {
        row
    }
}

/// The line breaker with its row turned into a line.
pub open spec fn row_ended(st: WrapV, width: int, align: Align) -> WrapV {
    WrapV {
        lines: st.lines.push(aligned(line_of(without_trailing(st.row)), width, align)),
        row: Seq::empty(),
        used: 0,
    }
}

/// The line breaker ready for `w` more columns: on a new row if this one has
/// something on it and no room.
pub open spec fn room_for(st: WrapV, w: int, width: int, align: Align) -> WrapV {
    if st.used + w > width && st.used > 0 {
        row_ended(st, width, align)
    } else {
        st
    }
}

/// The line breaker with one more span on its row.
pub open spec fn row_with(st: WrapV, s: SpanV, w: int) -> WrapV {
    WrapV { row: st.row.push(s), used: sat(st.used + w), ..st }
}

/// The line breaker after the first `k` pieces of a word too wide for any line.
pub open spec fn with_chunks(
    st: WrapV,
    cs: Seq<Seq<char>>,
    k: int,
    t: TokenV,
    width: int,
    align: Align,
) -> WrapV
    decreases k,
{
    if k <= 0 {
        st
    } else {
        let before = with_chunks(st, cs, k - 1, t, width, align);
        let w = text_width(cs[k - 1]) as int;
        row_with(
            room_for(before, w, width, align),
            SpanV { text: cs[k - 1], style: t.style, link: t.link },
            w,
        )
    }
}

/// The line breaker after one token.
pub open spec fn wrap_step(st: WrapV, t: TokenV, width: int, align: Align) -> WrapV {
    match t.kind {
        Kind::Break => row_ended(st, width, align),
        // A space at the start of a line is dropped, not carried over.
        Kind::Space => if st.used > 0 {
            row_with(st, SpanV { text: " "@, style: t.style, link: None }, 1)
        } else {
            st
        },
        Kind::Word => {
            let w = text_width(t.text) as int;
            let ready = room_for(st, w, width, align);
            if w > width {
                let cs = chunks(t.text, width);
                with_chunks(ready, cs, cs.len() as int, t, width, align)
            } else {
                row_with(ready, SpanV { text: t.text, style: t.style, link: t.link }, w)
            }
        },
    }
}

/// The line breaker after the first `k` tokens.
pub open spec fn wrap_steps(tokens: Seq<TokenV>, k: int, width: int, align: Align) -> WrapV
    decreases k,
{
    if k <= 0 {
        WrapV { lines: Seq::empty(), row: Seq::empty(), used: 0 }
    } else {
        wrap_step(wrap_steps(tokens, k - 1, width, align), tokens[k - 1], width, align)
    }
}

/// The lines that a run of tokens fills. There is always at least one.
pub open spec fn wrapped(tokens: Seq<TokenV>, width: int, align: Align) -> Seq<LineV> {
    let w = at_least_one(width);
    let st = wrap_steps(tokens, tokens.len() as int, w, align);
    let ended = if st.row.len() > 0 {
        row_ended(st, w, align)
    } else {
        st
    };
    if ended.lines.len() == 0 {
        seq![blank_line()]
    } else {
        ended.lines
    }
}

/// The line breaker's own state.
struct Wrapper {
    lines: Vec<Line>,
    row: Vec<Span>,
    used: usize,
}

impl View for Wrapper {
    type V = WrapV;

    closed spec fn view(&self) -> WrapV {
        WrapV {
            lines: lines_view(self.lines@),
            row: spans_view(self.row@),
            used: self.used as int,
        }
    }
}

impl Wrapper {
    fn end_row(&mut self, width: usize, align: Align)
        ensures
            final(self)@ == row_ended(old(self)@, width as int, align),
    {
        let ghost v = spans_view(self.row@);
        // Trailing spaces would show up as stray background colour.
        while self.row.len() > 0 && text::is_all_space(&self.row[self.row.len() - 1].text)
            && self.row[self.row.len() - 1].style.bg == Color::Default
            invariant
                without_trailing(spans_view(self.row@)) == without_trailing(v),
                self.lines == old(self).lines,
            decreases self.row.len(),
        {
            let ghost before = spans_view(self.row@);
            assert(before.last() == self.row@[self.row@.len() - 1]@);
            self.row.pop();
            assert(spans_view(self.row@) =~= before.drop_last());
        }
        if self.row.len() > 0 {
            assert(spans_view(self.row@).last() == self.row@[self.row@.len() - 1]@);
        }
        let mut spans: Vec<Span> = Vec::new();
        std::mem::swap(&mut spans, &mut self.row);
        let mut line = Line::from_spans(spans);
        line.align(width, align);
        let ghost before = lines_view(self.lines@);
        self.lines.push(line);
        assert(lines_view(self.lines@) =~= before.push(line@));
        assert(spans_view(self.row@) =~= Seq::empty());
        self.used = 0;
    }

    fn make_room(&mut self, w: usize, width: usize, align: Align)
        ensures
            final(self)@ == room_for(old(self)@, w as int, width as int, align),
    {
        if self.used > 0 && (self.used > width || w > width - self.used) {
            self.end_row(width, align);
        }
    }

    fn put(&mut self, span: Span, w: usize)
        ensures
            final(self)@ == row_with(old(self)@, span@, w as int),
    {
        let ghost before = spans_view(self.row@);
        let ghost s = span@;
        self.row.push(span);
        assert(spans_view(self.row@) =~= before.push(s));
        self.used = self.used.saturating_add(w);
    }

    fn token(&mut self, t: &Token, width: usize, align: Align)
        ensures
            final(self)@ == wrap_step(old(self)@, t@, width as int, align),
            is_neat(t@, width as int) && width >= 1 ==> can_be_set(t@, width as int),
    {
        match t.kind {
            Kind::Break => self.end_row(width, align),
            Kind::Space => {
                if self.used > 0 {
                    self.put(Span::new(text::owned(" "), t.style, None), 1);
                }
            },
            Kind::Word => {
                let w = t.width();
                proof {
                    reveal_strlit(" ");
                    if t@.text == " "@ {
                        assert(t@.text[0] == ' ');
                    }
                }
                self.make_room(w, width, align);
                if w > width {
                    // A single token too wide for the line: split it across lines on
                    // grapheme boundaries. URLs and CJK runs land here.
                    let parts = split_to_width(&t.text, width);
                    let ghost cs = text::views(parts@);
                    let ghost ready = self@;
                    let n: usize = parts.len();
                    for k in 0..n
                        invariant
                            n == parts.len(),
                            cs == text::views(parts@),
                            self@ == with_chunks(ready, cs, k as int, t@, width as int, align),
                            is_neat(t@, width as int) && width >= 1 ==> forall|j: int|
                                0 <= j < cs.len() ==> is_plain(#[trigger] cs[j]) && columns_of(
                                    cs[j],
                                ) <= width,
                            is_neat(t@, width as int) && width >= 1 ==> forall|j: int|
                                0 <= j < k ==> text_width(#[trigger] cs[j]) <= width,
                    {
                        assert(cs[k as int] == parts@[k as int]@);
                        let cw = display_width(&parts[k]);
                        self.make_room(cw, width, align);
                        self.put(Span::new(parts[k].clone(), t.style, t.link), cw);
                    }
                    proof {
                        lemma_no_blank_pieces(cs, t.text@);
                    }
                } else {
                    self.put(Span::new(t.text.clone(), t.style, t.link), w);
                }
            },
        }
    }
}

/// Greedy line breaking. `width` is the space available for text.
pub fn wrap(tokens: &Vec<Token>, width: usize, align: Align) -> (r: Vec<Line>)
    ensures
        lines_view(r@) == wrapped(tokens_view(tokens@), width as int, align),
        r@.len() > 0,
        align == Align::Left && 1 <= width < usize::MAX ==> set_neatly(
            tokens_view(tokens@),
            width as int,
            lines_view(r@),
        ),
{
    let ghost neat = align == Align::Left && 1 <= width < usize::MAX && (forall|j: int|
        0 <= j < tokens@.len() ==> is_neat(#[trigger] tokens_view(tokens@)[j], width as int));
    let width: usize = if width < 1 {
        1
    } else {
        width
    };
    let mut st = Wrapper { lines: Vec::new(), row: Vec::new(), used: 0 };
    assert(lines_view(st.lines@) =~= Seq::empty());
    assert(spans_view(st.row@) =~= Seq::empty());
    let ghost v = tokens_view(tokens@);
    let n: usize = tokens.len();
    for k in 0..n
        invariant
            n == tokens.len(),
            v == tokens_view(tokens@),
            st@ == wrap_steps(v, k as int, width as int, align),
            neat ==> width >= 1 && (forall|j: int|
                0 <= j < n ==> is_neat(#[trigger] v[j], width as int)),
            neat ==> forall|j: int| 0 <= j < k ==> can_be_set(#[trigger] v[j], width as int),
    {
        assert(v[k as int] == tokens@[k as int]@);
        st.token(&tokens[k], width, align);
    }
    if st.row.len() > 0 {
        st.end_row(width, align);
    }
    if st.lines.len() == 0 {
        let ghost before = lines_view(st.lines@);
        st.lines.push(Line::default());
        assert(lines_view(st.lines@) =~= seq![blank_line()]);
    }
    proof {
        reveal(set_neatly);
        let lines = lines_view(st.lines@);
        assert(lines == wrapped(v, width as int, align));
        if neat {
            lines_do_not_run_over(v, width as int);
            assert forall|k: int| 0 <= k < lines.len() implies fits(
                #[trigger] lines[k],
                width as int,
            ) by {
                assert(lines[k] == wrapped(v, width as int, Align::Left)[k]);
            }
        }
    }
    st.lines
}

// --- laws -----------------------------------------------------------------------

/// The columns that the line breaker counts for some spans: a space is one.
pub open spec fn columns(spans: Seq<SpanV>) -> int
    decreases spans.len(),
{
    if spans.len() == 0 {
        0
    } else {
        columns(spans.drop_last()) + (if spans.last().text == " "@ {
            1
        } else {
            text_width(spans.last().text) as int
        })
    }
}

/// True of a line made of spans that take no more than `width` columns.
pub open spec fn fits(l: LineV, width: int) -> bool {
    exists|parts: Seq<SpanV>| l == #[trigger] line_of(parts) && columns(parts) <= width
}

/// True of a token that can be set without running over: a space without a background
/// of its own, and a word that can be cut into pieces narrow enough.
pub open spec fn can_be_set(t: TokenV, width: int) -> bool {
    match t.kind {
        Kind::Break => true,
        Kind::Space => t.style.bg == Color::Default,
        Kind::Word => t.text != " "@ && (text_width(t.text) > width ==> forall|k: int|
            0 <= k < chunks(t.text, width).len() ==> text_width(
                #[trigger] chunks(t.text, width)[k],
            ) <= width && chunks(t.text, width)[k] != " "@),
    }
}

/// True of a token that can be set for what it holds: a space without a background of
/// its own, and a word of plain characters that are no wider than the line.
pub open spec fn is_neat(t: TokenV, width: int) -> bool {
    match t.kind {
        Kind::Break => true,
        Kind::Space => t.style.bg == Color::Default,
        Kind::Word => can_be_cut(t.text, width) && !t.text.contains(' '),
    }
}

/// Lines of plain words do not run over.
#[verifier::opaque]
pub open spec fn set_neatly(tokens: Seq<TokenV>, width: int, lines: Seq<LineV>) -> bool {
    (forall|j: int| 0 <= j < tokens.len() ==> is_neat(#[trigger] tokens[j], width)) ==> forall|
        k: int,
    |
        0 <= k < lines.len() ==> fits(#[trigger] lines[k], width)
}

proof fn lemma_no_blank_pieces(cs: Seq<Seq<char>>, s: Seq<char>)
    requires
        cs.flatten() == s,
    ensures
        !s.contains(' ') ==> forall|k: int| 0 <= k < cs.len() ==> #[trigger] cs[k] != " "@,
    decreases cs.len(),
{
    reveal_strlit(" ");
    if cs.len() > 0 {
        let rest = cs.drop_first();
        assert(s == cs[0] + rest.flatten());
        lemma_no_blank_pieces(rest, rest.flatten());
        if !s.contains(' ') {
            assert(!rest.flatten().contains(' ')) by {
                if rest.flatten().contains(' ') {
                    let i = choose|i: int|
                        0 <= i < rest.flatten().len() && rest.flatten()[i] == ' ';
                    assert(s[cs[0].len() + i] == ' ');
                }
            }
            assert forall|k: int| 0 <= k < cs.len() implies #[trigger] cs[k] != " "@ by {
                if k == 0 {
                    if cs[0] == " "@ {
                        assert(s[0] == ' ');
                    }
                } else {
                    assert(rest[k - 1] == cs[k]);
                }
            }
        }
    }
}

spec fn fitting_state(st: WrapV, width: int) -> bool {
    &&& forall|k: int| 0 <= k < st.lines.len() ==> fits(#[trigger] st.lines[k], width)
    &&& st.used == sat(columns(st.row))
    &&& columns(without_trailing(st.row)) <= width
}

proof fn lemma_columns(s: Seq<SpanV>)
    ensures
        0 <= columns(s),
        columns(without_trailing(s)) <= columns(s),
    decreases s.len(),
{
    if s.len() > 0 {
        lemma_columns(s.drop_last());
    }
}

proof fn lemma_row_ended(st: WrapV, width: int)
    requires
        fitting_state(st, width),
        0 <= width,
    ensures
        fitting_state(row_ended(st, width, Align::Left), width),
{
    let r = row_ended(st, width, Align::Left);
    let parts = without_trailing(st.row);
    assert(r.lines.last() == line_of(parts));
    assert forall|k: int| 0 <= k < r.lines.len() implies fits(#[trigger] r.lines[k], width) by {
        if k < st.lines.len() {
            assert(r.lines[k] == st.lines[k]);
        }
    }
}

proof fn lemma_room_and_span(st: WrapV, s: SpanV, width: int)
    requires
        fitting_state(st, width),
        0 < width < usize::MAX,
        text_width(s.text) <= width,
        s.text != " "@,
    ensures
        fitting_state(
            row_with(
                room_for(st, text_width(s.text) as int, width, Align::Left),
                s,
                text_width(s.text) as int,
            ),
            width,
        ),
{
    let w = text_width(s.text) as int;
    lemma_row_ended(st, width);
    lemma_columns(st.row);
    let ready = room_for(st, w, width, Align::Left);
    let r = row_with(ready, s, w);
    assert(r.row.drop_last() =~= ready.row);
    lemma_columns(r.row);
    assert(columns(Seq::<SpanV>::empty()) == 0);
}

proof fn lemma_with_chunks(st: WrapV, cs: Seq<Seq<char>>, k: int, t: TokenV, width: int)
    requires
        fitting_state(st, width),
        0 < width < usize::MAX,
        0 <= k <= cs.len(),
        forall|j: int|
            0 <= j < cs.len() ==> text_width(#[trigger] cs[j]) <= width && cs[j] != " "@,
    ensures
        fitting_state(with_chunks(st, cs, k, t, width, Align::Left), width),
    decreases k,
{
    if k > 0 {
        lemma_with_chunks(st, cs, k - 1, t, width);
        lemma_room_and_span(
            with_chunks(st, cs, k - 1, t, width, Align::Left),
            SpanV { text: cs[k - 1], style: t.style, link: t.link },
            width,
        );
    }
}

proof fn lemma_wrap_steps(tokens: Seq<TokenV>, k: int, width: int)
    requires
        0 <= k <= tokens.len(),
        0 < width < usize::MAX,
        forall|j: int| 0 <= j < tokens.len() ==> can_be_set(#[trigger] tokens[j], width),
    ensures
        fitting_state(wrap_steps(tokens, k, width, Align::Left), width),
    decreases k,
{
    if k <= 0 {
        assert(without_trailing(Seq::<SpanV>::empty()) =~= Seq::empty());
    } else {
        lemma_wrap_steps(tokens, k - 1, width);
        let st = wrap_steps(tokens, k - 1, width, Align::Left);
        let t = tokens[k - 1];
        match t.kind {
            Kind::Break => lemma_row_ended(st, width),
            Kind::Space => {
                if st.used > 0 {
                    let s = SpanV { text: " "@, style: t.style, link: None };
                    let r = row_with(st, s, 1);
                    assert(r.row.drop_last() =~= st.row);
                    reveal_strlit(" ");
                    assert(is_trailing(s));
                    lemma_columns(st.row);
                }
            },
            Kind::Word => {
                let w = text_width(t.text) as int;
                if w > width {
                    let ready = room_for(st, w, width, Align::Left);
                    lemma_row_ended(st, width);
                    let cs = chunks(t.text, width);
                    lemma_with_chunks(ready, cs, cs.len() as int, t, width);
                } else {
                    lemma_room_and_span(
                        st,
                        SpanV { text: t.text, style: t.style, link: t.link },
                        width,
                    );
                }
            },
        }
    }
}

/// No line runs over: each is made of spans that take no more columns than there are,
/// where that can be done at all. Left out are words that hold a grapheme wider than the
/// line, a word that is itself a single space, and spaces with a background of their
/// own, which stay where they are at the end of a line.
pub proof fn lines_do_not_run_over(tokens: Seq<TokenV>, width: int)
    requires
        0 < width < usize::MAX,
        forall|j: int| 0 <= j < tokens.len() ==> can_be_set(#[trigger] tokens[j], width),
    ensures
        forall|k: int|
            0 <= k < wrapped(tokens, width, Align::Left).len() ==> fits(
                #[trigger] wrapped(tokens, width, Align::Left)[k],
                width,
            ),
{
    lemma_wrap_steps(tokens, tokens.len() as int, width);
    let st = wrap_steps(tokens, tokens.len() as int, width, Align::Left);
    lemma_row_ended(st, width);
    let all = wrapped(tokens, width, Align::Left);
    assert forall|k: int| 0 <= k < all.len() implies fits(#[trigger] all[k], width) by {
        let ended = if st.row.len() > 0 {
            row_ended(st, width, Align::Left)
        } else {
            st
        };
        if ended.lines.len() == 0 {
            assert(super::merged(Seq::<SpanV>::empty()) =~= Seq::empty());
            assert(all[k] == line_of(Seq::empty()));
            assert(columns(Seq::<SpanV>::empty()) == 0);
        }
    }
}

/// True where graphemes followed by `tail` take no more columns together than each of
/// them and it.
pub open spec fn no_wider_together(gs: Seq<Seq<char>>, tail: Seq<char>) -> bool {
    forall|k: int|
        0 <= k <= gs.len() ==> text_width((#[trigger] gs.take(k)).flatten() + tail) <= cells(
            gs.take(k),
        ) + text_width(tail)
}

proof fn lemma_fitting(gs: Seq<Seq<char>>, k: int, used: int, room: int)
    requires
        0 <= k <= gs.len(),
        used == cells(gs.take(k)),
        used <= room,
    ensures
        k <= fitting(gs, k, used, room) <= gs.len(),
        cells(gs.take(fitting(gs, k, used, room))) <= room,
        fitting(gs, k, used, room) < gs.len() ==> cells(gs.take(fitting(gs, k, used, room) + 1))
            > room,
    decreases gs.len() - k,
{
    if k < gs.len() {
        assert(gs.take(k + 1).drop_last() =~= gs.take(k));
        if used + super::cell_width(gs[k]) <= room {
            lemma_fitting(gs, k + 1, used + super::cell_width(gs[k]), room);
        }
    }
}

/// The first chunk of graphemes of one column each.
proof fn lemma_first_chunk(gs: Seq<Seq<char>>, k: int, width: int) -> (j: int)
    requires
        0 <= k <= gs.len(),
        1 <= width <= usize::MAX,
        forall|i: int|
            0 <= i < gs.len() ==> (#[trigger] gs[i]).len() > 0 && text_width(gs[i]) == 1,
    ensures
        0 <= j <= k,
        j <= width,
        ({
            let st = chunk_steps(gs, k, width);
            if st.done.len() > 0 {
                st.done[0] == gs.take(j).flatten()
            } else {
                j == k && st.chunk == gs.take(k).flatten() && st.used == k
            }
        }),
    decreases k,
{
    if k <= 0 {
        assert(gs.take(0) =~= Seq::empty());
        assert(gs.take(0).flatten() =~= Seq::empty());
        0
    } else {
        let j = lemma_first_chunk(gs, k - 1, width);
        let st = chunk_steps(gs, k - 1, width);
        assert(gs[k - 1].len() > 0 && text_width(gs[k - 1]) == 1);
        assert(gs.take(k) =~= gs.take(k - 1).push(gs[k - 1]));
        lemma_flatten_push(gs.take(k - 1), gs[k - 1]);
        if st.done.len() > 0 {
            j
        } else if st.used + 1 > width && st.chunk.len() > 0 {
            j
        } else {
            if st.chunk.len() == 0 && k > 1 {
                assert(gs.take(k - 1) =~= gs.take(k - 2).push(gs[k - 2]));
                lemma_flatten_push(gs.take(k - 2), gs[k - 2]);
                assert(gs[k - 2].len() > 0);
                assert(false);
            }
            k
        }
    }
}

proof fn lemma_cells_of_ones(gs: Seq<Seq<char>>)
    requires
        forall|i: int| 0 <= i < gs.len() ==> text_width(#[trigger] gs[i]) == 1,
    ensures
        cells(gs) == gs.len(),
    decreases gs.len(),
{
    if gs.len() > 0 {
        let d = gs.drop_last();
        assert forall|i: int| 0 <= i < d.len() implies text_width(#[trigger] d[i]) == 1 by {
            assert(d[i] == gs[i]);
        }
        lemma_cells_of_ones(d);
        assert(text_width(gs[gs.len() - 1]) == 1);
    }
}

/// A truncated text fits, and stays as it is when it is truncated again. A text that
/// fits is kept whole; of any other the longest run of graphemes is kept that leaves
/// room for the ellipsis. Left out are texts whose graphemes take more columns together
/// than each by itself, and ellipses made of anything but single columns.
pub proof fn truncation_fits(s: Seq<char>, width: int, ellipsis: Seq<char>)
    requires
        1 <= width <= usize::MAX,
        no_wider_together(grapheme_clusters(s), ellipsis),
        no_wider_together(grapheme_clusters(ellipsis), Seq::empty()),
        text_width(Seq::empty()) == 0,
        forall|i: int|
            0 <= i < grapheme_clusters(ellipsis).len() ==> (#[trigger] grapheme_clusters(
                ellipsis,
            )[i]).len() > 0 && text_width(grapheme_clusters(ellipsis)[i]) == 1,
    ensures
        text_width(truncated(s, width, ellipsis)) <= width,
        truncated(truncated(s, width, ellipsis), width, ellipsis) == truncated(s, width, ellipsis),
        text_width(s) <= width ==> truncated(s, width, ellipsis) == s,
        text_width(s) > width > text_width(ellipsis) ==> exists|k: int|
            0 <= k <= grapheme_clusters(s).len() && truncated(s, width, ellipsis) == (
            #[trigger] grapheme_clusters(s).take(k)).flatten() + ellipsis && cells(
                grapheme_clusters(s).take(k),
            ) + text_width(ellipsis) <= width && (k < grapheme_clusters(s).len() ==> cells(
                grapheme_clusters(s).take(k + 1),
            ) + text_width(ellipsis) > width),
{
    let ew = text_width(ellipsis) as int;
    if text_width(s) > width {
        if width <= ew {
            let gs = grapheme_clusters(ellipsis);
            let n = gs.len() as int;
            let j = lemma_first_chunk(gs, n, width);
            let front = gs.take(j);
            assert forall|i: int| 0 <= i < front.len() implies text_width(#[trigger] front[i]) == 1 by {
                assert(front[i] == gs[i]);
            }
            lemma_cells_of_ones(front);
            assert(front.flatten() + Seq::<char>::empty() =~= front.flatten());
            assert(text_width(front.flatten()) <= j);
            let st = chunk_steps(gs, n, width);
            if st.done.len() == 0 && st.chunk.len() > 0 {
                assert(chunks(ellipsis, width)[0] == st.chunk);
            } else if st.done.len() > 0 {
                assert(chunks(ellipsis, width)[0] == st.done[0]);
            }
        } else {
            let gs = grapheme_clusters(s);
            assert(gs.take(0) =~= Seq::empty());
            lemma_fitting(gs, 0, 0, width - ew);
            let k = fitting(gs, 0, 0, width - ew);
            let kept = gs.take(k);
            assert(text_width(kept.flatten() + ellipsis) <= cells(kept) + text_width(ellipsis));
        }
    }
}

/// A text without its white space.
pub open spec fn inked(s: Seq<char>) -> Seq<char>
    decreases s.len(),
{
    if s.len() == 0 {
        Seq::empty()
    } else if text::is_space(s.last()) {
        inked(s.drop_last())
    } else {
        inked(s.drop_last()).push(s.last())
    }
}

/// The words among some tokens, end to end.
pub open spec fn words_in(tokens: Seq<TokenV>, k: int) -> Seq<char>
    decreases k,
{
    if k <= 0 {
        Seq::empty()
    } else if tokens[k - 1].kind == Kind::Word {
        words_in(tokens, k - 1) + tokens[k - 1].text
    } else {
        words_in(tokens, k - 1)
    }
}

/// The text of some lines, end to end.
pub open spec fn text_on(lines: Seq<LineV>) -> Seq<char>
    decreases lines.len(),
{
    if lines.len() == 0 {
        Seq::empty()
    } else {
        text_on(lines.drop_last()) + super::spans_text(lines.last().spans)
    }
}

pub(crate) proof fn lemma_inked_append(a: Seq<char>, b: Seq<char>)
    ensures
        inked(a + b) == inked(a) + inked(b),
    decreases b.len(),
{
    if b.len() == 0 {
        assert(a + b =~= a);
        assert(inked(a) + inked(b) =~= inked(a));
    } else {
        lemma_inked_append(a, b.drop_last());
        assert((a + b).drop_last() =~= a + b.drop_last());
        assert(inked(a + b) =~= inked(a) + inked(b));
    }
}

proof fn lemma_inked_space(s: Seq<char>)
    requires
        text::all_space(s),
    ensures
        inked(s) == Seq::<char>::empty(),
    decreases s.len(),
{
    if s.len() > 0 {
        assert(text::is_space(s[s.len() - 1]));
        assert forall|k: int| 0 <= k < s.drop_last().len() implies text::is_space(
            #[trigger] s.drop_last()[k],
        ) by {
            assert(s.drop_last()[k] == s[k]);
        }
        lemma_inked_space(s.drop_last());
    }
}

proof fn lemma_inked_trailing(row: Seq<SpanV>)
    ensures
        inked(super::spans_text(without_trailing(row))) == inked(super::spans_text(row)),
    decreases row.len(),
{
    if row.len() > 0 && is_trailing(row.last()) {
        lemma_inked_trailing(row.drop_last());
        lemma_inked_append(super::spans_text(row.drop_last()), row.last().text);
        lemma_inked_space(row.last().text);
        assert(inked(super::spans_text(row.drop_last())) + Seq::<char>::empty() =~= inked(
            super::spans_text(row.drop_last()),
        ));
    }
}

pub(crate) proof fn lemma_inked_aligned(l: LineV, width: int, align: Align)
    ensures
        inked(super::spans_text(aligned(l, width, align).spans)) == inked(
            super::spans_text(l.spans),
        ),
{
    let w = sat(super::spans_width(l.spans));
    let pad = match align {
        Align::Left => 0,
        Align::Center => (width - w) / 2,
        Align::Right => width - w,
    };
    if w < width && pad > 0 {
        let blank = text::spaces(pad as nat);
        lemma_spans_text_prefix(super::plain_span(blank), l.spans);
        lemma_inked_append(blank, super::spans_text(l.spans));
        assert(text::all_space(blank));
        lemma_inked_space(blank);
        assert(Seq::<char>::empty() + inked(super::spans_text(l.spans)) =~= inked(
            super::spans_text(l.spans),
        ));
    }
}

proof fn lemma_spans_text_prefix(first: SpanV, rest: Seq<SpanV>)
    ensures
        super::spans_text(seq![first] + rest) == first.text + super::spans_text(rest),
    decreases rest.len(),
{
    let all = seq![first] + rest;
    if rest.len() == 0 {
        assert(all.drop_last() =~= Seq::empty());
        assert(super::spans_text(all.drop_last()) =~= Seq::empty());
        assert(super::spans_text(all) =~= first.text + super::spans_text(rest));
    } else {
        lemma_spans_text_prefix(first, rest.drop_last());
        assert(all.drop_last() =~= seq![first] + rest.drop_last());
        assert(super::spans_text(all) =~= first.text + super::spans_text(rest));
    }
}

/// What a state has on its lines and its row.
spec fn set_so_far(st: WrapV) -> Seq<char> {
    inked(text_on(st.lines)) + inked(super::spans_text(st.row))
}

proof fn lemma_row_ended_keeps(st: WrapV, width: int, align: Align)
    ensures
        set_so_far(row_ended(st, width, align)) == set_so_far(st),
{
    let r = row_ended(st, width, align);
    let parts = without_trailing(st.row);
    let l = line_of(parts);
    lemma_inked_trailing(st.row);
    super::merging_keeps_the_text(parts);
    lemma_inked_aligned(l, width, align);
    assert(r.lines.drop_last() =~= st.lines);
    lemma_inked_append(text_on(st.lines), super::spans_text(r.lines.last().spans));
    assert(super::spans_text(r.row) =~= Seq::empty());
    assert(set_so_far(r) =~= set_so_far(st));
}

proof fn lemma_row_with_keeps(st: WrapV, s: SpanV, w: int, width: int, align: Align)
    ensures
        set_so_far(row_with(room_for(st, w, width, align), s, w)) == set_so_far(st) + inked(
            s.text,
        ),
        set_so_far(row_with(st, s, w)) == set_so_far(st) + inked(s.text),
{
    lemma_row_ended_keeps(st, width, align);
    let ready = room_for(st, w, width, align);
    assert(row_with(ready, s, w).row.drop_last() =~= ready.row);
    lemma_inked_append(super::spans_text(ready.row), s.text);
    assert(set_so_far(row_with(ready, s, w)) =~= set_so_far(ready) + inked(s.text));
    assert(row_with(st, s, w).row.drop_last() =~= st.row);
    lemma_inked_append(super::spans_text(st.row), s.text);
    assert(set_so_far(row_with(st, s, w)) =~= set_so_far(st) + inked(s.text));
}

proof fn lemma_chunks_kept(
    st: WrapV,
    cs: Seq<Seq<char>>,
    k: int,
    t: TokenV,
    width: int,
    align: Align,
)
    requires
        0 <= k <= cs.len(),
    ensures
        set_so_far(with_chunks(st, cs, k, t, width, align)) == set_so_far(st) + inked(
            cs.take(k).flatten(),
        ),
    decreases k,
{
    if k <= 0 {
        assert(cs.take(0).flatten() =~= Seq::empty());
        assert(set_so_far(st) + Seq::<char>::empty() =~= set_so_far(st));
    } else {
        lemma_chunks_kept(st, cs, k - 1, t, width, align);
        let before = with_chunks(st, cs, k - 1, t, width, align);
        let w = text_width(cs[k - 1]) as int;
        lemma_row_with_keeps(
            before,
            SpanV { text: cs[k - 1], style: t.style, link: t.link },
            w,
            width,
            align,
        );
        assert(cs.take(k) =~= cs.take(k - 1).push(cs[k - 1]));
        lemma_flatten_push(cs.take(k - 1), cs[k - 1]);
        lemma_inked_append(cs.take(k - 1).flatten(), cs[k - 1]);
        assert(set_so_far(st) + inked(cs.take(k - 1).flatten()) + inked(cs[k - 1]) =~= set_so_far(
            st,
        ) + (inked(cs.take(k - 1).flatten()) + inked(cs[k - 1])));
    }
}

pub(crate) proof fn lemma_chunks_flatten(s: Seq<char>, width: int)
    requires
        grapheme_clusters(s).flatten() == s,
    ensures
        chunks(s, width).flatten() == s,
{
    let gs = grapheme_clusters(s);
    let w = at_least_one(width);
    let st = chunk_steps(gs, gs.len() as int, w);
    lemma_chunks_text(gs, gs.len() as int, w);
    assert(gs.take(gs.len() as int) =~= gs);
    if st.chunk.len() > 0 {
        lemma_flatten_push(st.done, st.chunk);
    } else {
        assert(st.done.flatten() + st.chunk =~= st.done.flatten());
    }
}

proof fn lemma_wrap_keeps(tokens: Seq<TokenV>, k: int, width: int, align: Align)
    requires
        0 <= k <= tokens.len(),
        forall|j: int|
            0 <= j < tokens.len() ==> grapheme_clusters((#[trigger] tokens[j]).text).flatten()
                == tokens[j].text,
    ensures
        set_so_far(wrap_steps(tokens, k, width, align)) == inked(words_in(tokens, k)),
    decreases k,
{
    if k <= 0 {
        assert(set_so_far(wrap_steps(tokens, 0, width, align)) =~= Seq::empty());
    } else {
        lemma_wrap_keeps(tokens, k - 1, width, align);
        let st = wrap_steps(tokens, k - 1, width, align);
        let t = tokens[k - 1];
        match t.kind {
            Kind::Break => lemma_row_ended_keeps(st, width, align),
            Kind::Space => {
                let s = SpanV { text: " "@, style: t.style, link: None };
                lemma_row_with_keeps(st, s, 1, width, align);
                reveal_strlit(" ");
                lemma_inked_space(" "@);
                assert(set_so_far(st) + Seq::<char>::empty() =~= set_so_far(st));
            },
            Kind::Word => {
                let w = text_width(t.text) as int;
                lemma_inked_append(words_in(tokens, k - 1), t.text);
                if w > width {
                    let cs = chunks(t.text, width);
                    lemma_row_ended_keeps(st, width, align);
                    lemma_chunks_flatten(t.text, width);
                    assert(cs.take(cs.len() as int) =~= cs);
                    lemma_chunks_kept(
                        room_for(st, w, width, align),
                        cs,
                        cs.len() as int,
                        t,
                        width,
                        align,
                    );
                } else {
                    lemma_row_with_keeps(
                        st,
                        SpanV { text: t.text, style: t.style, link: t.link },
                        w,
                        width,
                        align,
                    );
                }
            },
        }
    }
}

/// Line breaking loses nothing and adds nothing but white space: what is on the lines
/// is the words, in order. That the graphemes of a text make up the text is what
/// collecting them gives.
pub proof fn wrapping_keeps_the_words(tokens: Seq<TokenV>, width: int, align: Align)
    requires
        forall|j: int|
            0 <= j < tokens.len() ==> grapheme_clusters((#[trigger] tokens[j]).text).flatten()
                == tokens[j].text,
    ensures
        inked(text_on(wrapped(tokens, width, align))) == inked(
            words_in(tokens, tokens.len() as int),
        ),
{
    let w = at_least_one(width);
    let n = tokens.len() as int;
    lemma_wrap_keeps(tokens, n, w, align);
    let st = wrap_steps(tokens, n, w, align);
    lemma_row_ended_keeps(st, w, align);
    let ended = if st.row.len() > 0 {
        row_ended(st, w, align)
    } else {
        st
    };
    assert(super::spans_text(ended.row) =~= Seq::empty());
    assert(set_so_far(ended) =~= inked(text_on(ended.lines)));
    if ended.lines.len() == 0 {
        let all = seq![blank_line()];
        assert(all.drop_last() =~= Seq::empty());
        assert(text_on(all.drop_last()) =~= Seq::empty());
        assert(super::spans_text(blank_line().spans) =~= Seq::empty());
        assert(text_on(all) =~= Seq::empty());
    }
}

} // verus!
