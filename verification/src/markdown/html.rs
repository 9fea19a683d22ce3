//! Just enough HTML understanding to not embarrass ourselves on real READMEs.
//!
//! A large fraction of Markdown in the wild contains raw HTML: `<img>` badges,
//! `<p align="center">` banners, `<br>`, `<details>` sections. Viewers that dump
//! the tags verbatim look broken, and viewers that drop the blocks silently lose
//! content. This does neither: it pulls out the parts that map onto something that
//! can be drawn and discards the scaffolding.
//!
//! This is deliberately not an HTML parser. It is a tag scanner with a short list
//! of tags it cares about, and anything it does not recognise becomes text.
use vstd::prelude::*;

use super::ir::{opt_text, ImageRef, ImageRefV};
use crate::text;

verus! {

/// A fragment of raw HTML reduced to something renderable.
#[derive(Debug, PartialEq)]
pub enum HtmlPiece {
    Text(String),
    Image(ImageRef),
    /// `<br>` and friends.
    Break,
    /// `<summary>` content, shown as the visible title of a `<details>`.
    Summary(String),
}

pub enum PieceV {
    Text(Seq<char>),
    Image(ImageRefV),
    Break,
    Summary(Seq<char>),
}

impl View for HtmlPiece {
    type V = PieceV;

    open spec fn view(&self) -> PieceV {
        match *self {
            HtmlPiece::Text(t) => PieceV::Text(t@),
            HtmlPiece::Image(img) => PieceV::Image(img@),
            HtmlPiece::Break => PieceV::Break,
            HtmlPiece::Summary(t) => PieceV::Summary(t@),
        }
    }
}

pub open spec fn pieces_view(v: Seq<HtmlPiece>) -> Seq<PieceV> {
    v.map_values(|p: HtmlPiece| p@)
}

// --- entities ---------------------------------------------------------------

/// How many bytes a character takes in UTF-8.
pub open spec fn utf8_len(c: char) -> int {
    if (c as u32) < 0x80 {
        1
    } else if (c as u32) < 0x800 {
        2
    } else if (c as u32) < 0x10000 {
        3
    } else {
        4
    }
}

/// The first semicolon at `k` or after it that ends within `room` bytes.
pub open spec fn semicolon(s: Seq<char>, k: int, room: int) -> Option<int>
    decreases s.len() - k,
{
    if k >= s.len() || utf8_len(s[k]) > room {
        None
    } else if s[k] == ';' {
        Some(k)
    } else {
        semicolon(s, k + 1, room - utf8_len(s[k]))
    }
}

/// The character with a number, where there is one.
pub open spec fn char_of(n: Option<int>) -> Option<char> {
    match n {
        Some(n) => if 0 <= n <= 0xD7FF || 0xE000 <= n <= 0x10FFFF {
            Some(n as char)
        } else {
            None
        },
        None => None,
    }
}

/// The character an entity stands for: one of the handful that actually show up in
/// Markdown files, or a number, which may have a plus sign.
pub open spec fn entity_char(e: Seq<char>) -> Option<char> {
    if e == "amp"@ {
        Some('&')
    } else if e == "lt"@ {
        Some('<')
    } else if e == "gt"@ {
        Some('>')
    } else if e == "quot"@ {
        Some('"')
    } else if e == "apos"@ || e == "#39"@ {
        Some('\'')
    } else if e == "nbsp"@ {
        Some('\u{a0}')
    } else if e == "hellip"@ {
        Some('…')
    } else if e == "mdash"@ {
        Some('—')
    } else if e == "ndash"@ {
        Some('–')
    } else if e.len() > 0 && e[0] == '#' {
        if e.len() > 1 && (e[1] == 'x' || e[1] == 'X') {
            char_of(text::parse_number(e.subrange(2, e.len() as int), 16, 0xffff_ffff))
        } else {
            char_of(text::parse_number(e.subrange(1, e.len() as int), 10, 0xffff_ffff))
        }
    } else {
        None
    }
}

/// `s[i..]` with its entities replaced. An entity is `&`, a name, and a semicolon
/// within twelve bytes of the start; anything else is text.
pub open spec fn decoded_from(s: Seq<char>, i: int) -> Seq<char>
    decreases s.len() - i,
{
    if i < 0 || i >= s.len() {
        Seq::empty()
    } else if s[i] != '&' {
        seq![s[i]] + decoded_from(s, i + 1)
    } else {
        match semicolon(s, i, 12) {
            Some(semi) => match entity_char(s.subrange(i + 1, semi)) {
                Some(c) => if i < semi < s.len() {
                    seq![c] + decoded_from(s, semi + 1)
                } else {
                    Seq::empty()
                },
                None => seq!['&'] + decoded_from(s, i + 1),
            },
            None => seq!['&'] + decoded_from(s, i + 1),
        }
    }
}

pub open spec fn decoded(s: Seq<char>) -> Seq<char> {
    decoded_from(s, 0)
}

/// Text without an ampersand is unchanged by decoding.
pub proof fn decoding_leaves_plain_text(s: Seq<char>)
    requires
        !s.contains('&'),
    ensures
        decoded(s) == s,
{
    lemma_decode_plain(s, 0);
    assert(s.subrange(0, s.len() as int) =~= s);
}

proof fn lemma_decode_plain(s: Seq<char>, i: int)
    requires
        !s.contains('&'),
        0 <= i <= s.len(),
    ensures
        decoded_from(s, i) == s.subrange(i, s.len() as int),
    decreases s.len() - i,
{
    if i < s.len() {
        assert(s.contains(s[i]));
        lemma_decode_plain(s, i + 1);
        assert(seq![s[i]] + s.subrange(i + 1, s.len() as int) =~= s.subrange(i, s.len() as int));
    }
}

fn char_bytes(c: char) -> (r: usize)
    ensures
        r == utf8_len(c),
{
    let n = c as u32;
    if n < 0x80 {
        1
    } else if n < 0x800 {
        2
    } else if n < 0x10000 {
        3
    } else {
        4
    }
}

fn find_semicolon(v: &Vec<char>, from: usize) -> (r: Option<usize>)
    requires
        from < v.len(),
        v@[from as int] == '&',
    ensures
        match r {
            Some(k) => semicolon(v@, from as int, 12) == Some(k as int) && from < k < v.len(),
            None => semicolon(v@, from as int, 12) is None,
        },
{
    let mut k: usize = from;
    let mut room: usize = 12;
    while k < v.len()
        invariant
            from <= k <= v.len(),
            v@[from as int] == '&',
            semicolon(v@, k as int, room as int) == semicolon(v@, from as int, 12),
        decreases v.len() - k,
    {
        let size = char_bytes(v[k]);
        if size > room {
            return None;
        }
        if v[k] == ';' {
            return Some(k);
        }
        room = room - size;
        k = k + 1;
    }
    None
}

fn numbered(v: &Vec<char>, from: usize, radix: u64) -> (r: Option<char>)
    requires
        from <= v.len(),
        2 <= radix <= 16,
    ensures
        r == char_of(
            text::parse_number(v@.subrange(from as int, v.len() as int), radix as int, 0xffff_ffff),
        ),
{
    match text::number_at(v, from, v.len(), radix, 0xffff_ffff) {
        Some(n) => char::from_u32(n as u32),
        None => None,
    }
}

fn decode_entity(e: &Vec<char>) -> (r: Option<char>)
    ensures
        r == entity_char(e@),
{
    let name = text::string_of(e);
    if text::same(&name, "amp") {
        Some('&')
    } else if text::same(&name, "lt") {
        Some('<')
    } else if text::same(&name, "gt") {
        Some('>')
    } else if text::same(&name, "quot") {
        Some('"')
    } else if text::same(&name, "apos") || text::same(&name, "#39") {
        Some('\'')
    } else if text::same(&name, "nbsp") {
        Some('\u{a0}')
    } else if text::same(&name, "hellip") {
        Some('…')
    } else if text::same(&name, "mdash") {
        Some('—')
    } else if text::same(&name, "ndash") {
        Some('–')
    } else if e.len() > 0 && e[0] == '#' {
        if e.len() > 1 && (e[1] == 'x' || e[1] == 'X') {
            numbered(e, 2, 16)
        } else {
            numbered(e, 1, 10)
        }
    } else {
        None
    }
}

fn decode_chars(v: &Vec<char>) -> (r: Vec<char>)
    ensures
        r@ == decoded(v@),
{
    let mut out: Vec<char> = Vec::new();
    let mut i: usize = 0;
    assert(out@ + decoded_from(v@, 0) =~= decoded(v@));
    while i < v.len()
        invariant
            i <= v.len(),
            out@ + decoded_from(v@, i as int) == decoded(v@),
        decreases v.len() - i,
    {
        let ghost before = out@;
        let ghost at = i as int;
        if v[i] != '&' {
            out.push(v[i]);
            i = i + 1;
        } else {
            match find_semicolon(v, i) {
                Some(semi) => {
                    let entity = text::chars_range(v, i + 1, semi);
                    match decode_entity(&entity) {
                        Some(c) => {
                            out.push(c);
                            i = semi + 1;
                        },
                        None => {
                            out.push('&');
                            i = i + 1;
                        },
                    }
                },
                None => {
                    out.push('&');
                    i = i + 1;
                },
            }
        }
        assert(before + decoded_from(v@, at) =~= out@ + decoded_from(v@, i as int));
    }
    assert(out@ + decoded_from(v@, i as int) =~= out@);
    out
}

/// Decodes the handful of entities that actually show up in Markdown files.
pub fn decode_entities(s: &str) -> (r: String)
    ensures
        r@ == decoded(s@),
{
    text::string_of(&decode_chars(&text::chars_of(s)))
}

// --- tags -------------------------------------------------------------------

pub open spec fn is_ascii_space(c: char) -> bool {
    c == ' ' || c == '\t' || c == '\n' || c == '\u{c}' || c == '\r'
}

pub open spec fn ends_name(c: char) -> bool {
    text::is_space(c) || c == '/' || c == '>'
}

/// The first position in `i..` that ends a tag's name.
pub open spec fn name_end(s: Seq<char>, i: int) -> int
    decreases s.len() - i,
{
    if 0 <= i < s.len() && !ends_name(s[i]) {
        name_end(s, i + 1)
    } else {
        i
    }
}

/// The lowercased element name from inside `<...>`.
pub open spec fn tag_name_of(tag: Seq<char>) -> Seq<char> {
    let s = text::trim_start_char(tag, '/');
    text::lower(s.subrange(0, name_end(s, 0)))
}

pub fn tag_name(tag: &Vec<char>) -> (r: String)
    ensures
        r@ == tag_name_of(tag@),
{
    let n: usize = tag.len();
    let from = text::skip_char(tag, 0, n, '/');
    assert(tag@.subrange(0, n as int) =~= tag@);
    let s = text::chars_range(tag, from, n);
    let mut i: usize = 0;
    while i < s.len() && !(text::char_is_space(s[i]) || s[i] == '/' || s[i] == '>')
        invariant
            i <= s.len(),
            name_end(s@, i as int) == name_end(s@, 0),
        decreases s.len() - i,
    {
        i = i + 1;
    }
    text::string_of(&text::lowered(&text::chars_range(&s, 0, i)))
}

/// The first position in `i..` that holds white space, or the end.
pub open spec fn word_end(s: Seq<char>, i: int) -> int
    decreases s.len() - i,
{
    if 0 <= i < s.len() && !text::is_space(s[i]) {
        word_end(s, i + 1)
    } else {
        i
    }
}

/// An attribute's value: what is between the quotes, or the next word without the
/// slash that may end the tag.
pub open spec fn attr_value(value: Seq<char>) -> Seq<char> {
    if value.len() > 0 && (value[0] == '"' || value[0] == '\'') {
        value.subrange(1, text::index_of(value, value[0], 1))
    } else {
        text::trim_end_char(value.subrange(0, word_end(value, 0)), '/')
    }
}

/// The value of the attribute `name`, searched for from `from` on. The name counts
/// only after white space, so that `data-src` is not taken for `src`.
pub open spec fn attr_from(tag: Seq<char>, name: Seq<char>, from: int) -> Option<Seq<char>>
    decreases tag.len() + 1 - from,
{
    match text::find_from(text::lower(tag), name, from) {
        Some(at) => {
            let after = text::trim_start(tag.subrange(at + name.len(), tag.len() as int));
            if at > 0 && is_ascii_space(tag[at - 1]) && after.len() > 0 && after[0] == '=' {
                let v = attr_value(text::trim_start(after.drop_first()));
                if v.len() > 0 {
                    Some(decoded(v))
                } else {
                    None
                }
            } else if from < at + name.len() <= tag.len() {
                attr_from(tag, name, at + name.len() as int)
            } else {
                None
            }
        },
        None => None,
    }
}

fn char_is_ascii_space(c: char) -> (r: bool)
    ensures
        r == is_ascii_space(c),
{
    c == ' ' || c == '\t' || c == '\n' || c == '\u{c}' || c == '\r'
}

fn read_value(value: &Vec<char>) -> (r: Vec<char>)
    ensures
        r@ == attr_value(value@),
{
    let n: usize = value.len();
    if n > 0 && (value[0] == '"' || value[0] == '\'') {
        let end = text::find_char(value, value[0], 1);
        return text::chars_range(value, 1, end);
    }
    let mut i: usize = 0;
    while i < n && !text::char_is_space(value[i])
        invariant
            n == value.len(),
            i <= n,
            word_end(value@, i as int) == word_end(value@, 0),
        decreases n - i,
    {
        i = i + 1;
    }
    let end = text::skip_char_back(value, 0, i, '/');
    text::chars_range(value, 0, end)
}

/// Reads `name="value"`, `name='value'`, or a bare value.
pub fn attr(tag: &str, name: &str) -> (r: Option<String>)
    requires
        name@.len() > 0,
    ensures
        opt_text(r) == attr_from(tag@, name@, 0),
{
    attr_chars(&text::chars_of(tag), name)
}

fn attr_chars(tag: &Vec<char>, name: &str) -> (r: Option<String>)
    requires
        name@.len() > 0,
    ensures
        opt_text(r) == attr_from(tag@, name@, 0),
{
    let low = text::lowered(tag);
    let key = text::chars_of(name);
    let n: usize = tag.len();
    let m: usize = key.len();
    let mut from: usize = 0;
    loop
        invariant
            n == tag.len(),
            low@ == text::lower(tag@),
            key@ == name@,
            m == key.len(),
            m > 0,
            from <= n,
            attr_from(tag@, name@, from as int) == attr_from(tag@, name@, 0),
        decreases n - from,
    {
        proof {
            text::lemma_find_from(low@, key@, from as int);
        }
        match text::find_chars(&low, &key, from) {
            None => {
                return None;
            },
            Some(at) => {
                let start = text::trim_start_at(tag, at + m, n);
                let preceded_ok = at > 0 && char_is_ascii_space(tag[at - 1]);
                if preceded_ok && start < n && tag[start] == '=' {
                    let ghost after = tag@.subrange(start as int, n as int);
                    let value_at = text::trim_start_at(tag, start + 1, n);
                    assert(after.drop_first() =~= tag@.subrange(start + 1, n as int));
                    let v = read_value(&text::chars_range(tag, value_at, n));
                    if v.len() > 0 {
                        return Some(text::string_of(&decode_chars(&v)));
                    }
                    return None;
                }
                from = at + m;
            },
        }
    }
}

// --- text runs --------------------------------------------------------------

/// `s[i..]` behind `out`, with every run of white space collapsed to one space and
/// none at the start. `space` tells whether white space is waiting to be written.
pub open spec fn collapsed_from(s: Seq<char>, i: int, out: Seq<char>, space: bool) -> Seq<char>
    decreases s.len() - i,
{
    if i < 0 || i >= s.len() {
        out
    } else if text::is_space(s[i]) {
        collapsed_from(s, i + 1, out, true)
    } else if space && out.len() > 0 {
        collapsed_from(s, i + 1, out.push(' ').push(s[i]), false)
    } else {
        collapsed_from(s, i + 1, out.push(s[i]), false)
    }
}

pub open spec fn collapsed(s: Seq<char>) -> Seq<char> {
    collapsed_from(s, 0, Seq::empty(), false)
}

fn collapse_whitespace(v: &Vec<char>) -> (r: Vec<char>)
    ensures
        r@ == collapsed(v@),
{
    let mut out: Vec<char> = Vec::new();
    let mut space: bool = false;
    let mut i: usize = 0;
    while i < v.len()
        invariant
            i <= v.len(),
            collapsed_from(v@, i as int, out@, space) == collapsed(v@),
        decreases v.len() - i,
    {
        if text::char_is_space(v[i]) {
            space = true;
        } else {
            if space && out.len() > 0 {
                out.push(' ');
            }
            space = false;
            out.push(v[i]);
        }
        i = i + 1;
    }
    out
}

/// The pieces that a run of text gives: none if it is blank.
pub open spec fn flushed(s: Seq<char>, summary: bool) -> Seq<PieceV> {
    let t = text::trim(decoded(s));
    if t.len() == 0 {
        Seq::empty()
    } else if summary {
        seq![PieceV::Summary(t)]
    } else {
        seq![PieceV::Text(collapsed(t))]
    }
}

fn flush(run: &mut Vec<char>, out: &mut Vec<HtmlPiece>, summary: bool)
    ensures
        pieces_view(final(out)@) == pieces_view(old(out)@) + flushed(old(run)@, summary),
        final(run)@ == Seq::<char>::empty(),
{
    let all = decode_chars(run);
    let n: usize = all.len();
    assert(all@.subrange(0, n as int) =~= all@);
    let a = text::trim_start_at(&all, 0, n);
    let b = text::trim_end_at(&all, a, n);
    let t = text::chars_range(&all, a, b);
    if t.len() > 0 {
        if summary {
            out.push(HtmlPiece::Summary(text::string_of(&t)));
        } else {
            out.push(HtmlPiece::Text(text::string_of(&collapse_whitespace(&t))));
        }
    }
    run.clear();
    assert(pieces_view(out@) =~= pieces_view(old(out)@) + flushed(old(run)@, summary));
}

// --- the scanner ------------------------------------------------------------

/// The scanner between two characters.
pub struct ScanV {
    pub out: Seq<PieceV>,
    /// Text seen since the last piece.
    pub run: Seq<char>,
    pub summary: bool,
    /// How many elements are open whose content is machinery, not prose.
    pub skip: nat,
}

/// The elements whose end is the end of a line.
pub open spec fn is_line_element(name: Seq<char>) -> bool {
    name == "p"@ || name == "div"@ || name == "tr"@ || name == "li"@ || name == "h1"@ || name
        == "h2"@ || name == "h3"@ || name == "h4"@ || name == "h5"@ || name == "h6"@ || name
        == "blockquote"@
}

/// The image that an `<img>` tag shows, if it names one.
pub open spec fn tag_image(tag: Seq<char>) -> Seq<PieceV> {
    match attr_from(tag, "src"@, 0) {
        Some(src) => seq![
            PieceV::Image(
                ImageRefV {
                    url: src,
                    alt: match attr_from(tag, "alt"@, 0) {
                        Some(alt) => alt,
                        None => Seq::empty(),
                    },
                    title: attr_from(tag, "title"@, 0),
                },
            ),
        ],
        None => Seq::empty(),
    }
}

/// The scanner with its text turned into pieces.
pub open spec fn scan_flushed(st: ScanV) -> ScanV {
    ScanV { out: st.out + flushed(st.run, st.summary), run: Seq::empty(), ..st }
}

/// The scanner after one tag.
pub open spec fn after_tag(st: ScanV, tag: Seq<char>) -> ScanV {
    let name = tag_name_of(tag);
    let closing = tag.len() > 0 && tag[0] == '/';
    if name == "script"@ || name == "style"@ {
        if closing {
            ScanV {
                skip: if st.skip > 0 {
                    (st.skip - 1) as nat
                } else {
                    0
                },
                ..st
            }
        } else if tag.len() > 0 && tag.last() == '/' {
            st
        } else {
            ScanV { skip: st.skip + 1, ..st }
        }
    } else if name == "br"@ {
        let f = scan_flushed(st);
        ScanV { out: f.out.push(PieceV::Break), ..f }
    } else if name == "img"@ && !closing {
        let f = scan_flushed(st);
        ScanV { out: f.out + tag_image(tag), ..f }
    } else if name == "summary"@ {
        ScanV { summary: !closing, ..scan_flushed(st) }
    } else if is_line_element(name) && closing {
        let f = scan_flushed(st);
        ScanV { out: f.out.push(PieceV::Break), ..f }
    } else {
        st
    }
}

/// What a fragment gives from `i` on.
pub open spec fn simplified_from(html: Seq<char>, i: int, st: ScanV) -> Seq<PieceV>
    decreases html.len() - i,
{
    if i < 0 || i >= html.len() {
        scan_flushed(st).out
    } else if html[i] == '<' {
        let end = text::index_of(html, '>', i);
        if i < end < html.len() {
            simplified_from(html, end + 1, after_tag(st, html.subrange(i + 1, end)))
        } else {
            simplified_from(html, i + 1, ScanV { run: st.run.push('<'), ..st })
        }
    } else if st.skip == 0 {
        simplified_from(html, i + 1, ScanV { run: st.run.push(html[i]), ..st })
    } else {
        simplified_from(html, i + 1, st)
    }
}

/// What a fragment of HTML gives.
pub open spec fn simplified(html: Seq<char>) -> Seq<PieceV> {
    simplified_from(
        html,
        0,
        ScanV { out: Seq::empty(), run: Seq::empty(), summary: false, skip: 0 },
    )
}

/// The scanner's own state.
struct Scan {
    out: Vec<HtmlPiece>,
    run: Vec<char>,
    summary: bool,
    skip: usize,
}

impl View for Scan {
    type V = ScanV;

    closed spec fn view(&self) -> ScanV {
        ScanV {
            out: pieces_view(self.out@),
            run: self.run@,
            summary: self.summary,
            skip: self.skip as nat,
        }
    }
}

impl Scan {
    fn flush(&mut self)
        ensures
            final(self)@ == scan_flushed(old(self)@),
            final(self).skip == old(self).skip,
    {
        flush(&mut self.run, &mut self.out, self.summary);
    }

    fn push(&mut self, piece: HtmlPiece)
        ensures
            final(self)@ == (ScanV { out: old(self)@.out.push(piece@), ..old(self)@ }),
            final(self).skip == old(self).skip,
    {
        self.out.push(piece);
        assert(pieces_view(self.out@) =~= pieces_view(old(self).out@).push(piece@));
    }

    fn tag(&mut self, tag: &Vec<char>)
        requires
            old(self).skip < usize::MAX,
        ensures
            final(self)@ == after_tag(old(self)@, tag@),
            final(self).skip <= old(self).skip + 1,
    {
        let name = tag_name(tag);
        let closing = tag.len() > 0 && tag[0] == '/';
        if text::same(&name, "script") || text::same(&name, "style") {
            if closing {
                if self.skip > 0 {
                    self.skip = self.skip - 1;
                }
            } else if !(tag.len() > 0 && tag[tag.len() - 1] == '/') {
                self.skip = self.skip + 1;
            }
        } else if text::same(&name, "br") {
            self.flush();
            self.push(HtmlPiece::Break);
        } else if text::same(&name, "img") && !closing {
            self.flush();
            proof {
                reveal_strlit("src");
                reveal_strlit("alt");
                reveal_strlit("title");
            }
            match attr_chars(tag, "src") {
                Some(src) => {
                    let alt = match attr_chars(tag, "alt") {
                        Some(alt) => alt,
                        None => String::new(),
                    };
                    self.push(
                        HtmlPiece::Image(
                            ImageRef { url: src, alt, title: attr_chars(tag, "title") },
                        ),
                    );
                },
                None => {},
            }
            assert(self@.out =~= scan_flushed(old(self)@).out + tag_image(tag@));
        } else if text::same(&name, "summary") {
            self.flush();
            self.summary = !closing;
        } else if closing && (text::same(&name, "p") || text::same(&name, "div") || text::same(
            &name,
            "tr",
        ) || text::same(&name, "li") || text::same(&name, "h1") || text::same(&name, "h2")
            || text::same(&name, "h3") || text::same(&name, "h4") || text::same(&name, "h5")
            || text::same(&name, "h6") || text::same(&name, "blockquote")) {
            self.flush();
            self.push(HtmlPiece::Break);
        }
    }
}

/// Reduces an HTML fragment to renderable pieces.
pub fn simplify(html: &str) -> (r: Vec<HtmlPiece>)
    ensures
        pieces_view(r@) == simplified(html@),
{
    let v = text::chars_of(html);
    let n: usize = v.len();
    let mut st = Scan { out: Vec::new(), run: Vec::new(), summary: false, skip: 0 };
    assert(st@.out =~= Seq::empty());
    let mut i: usize = 0;
    while i < n
        invariant
            n == v.len(),
            v@ == html@,
            i <= n,
            st.skip <= i,
            simplified_from(html@, i as int, st@) == simplified(html@),
        decreases n - i,
    {
        if v[i] == '<' {
            let end = text::find_char(&v, '>', i);
            if end < n {
                let tag = text::chars_range(&v, i + 1, end);
                st.tag(&tag);
                i = end + 1;
            } else {
                // An unterminated '<' is just text.
                st.run.push('<');
                i = i + 1;
            }
        } else {
            if st.skip == 0 {
                st.run.push(v[i]);
            }
            i = i + 1;
        }
    }
    st.flush();
    st.out
}

} // verus!
