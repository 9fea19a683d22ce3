//! Syntax highlighting for fenced code blocks, via `syntect`.
//!
//! Loading Sublime grammars is not cheap, so a [`Highlighter`] is built once per
//! process and shared. Language lookup tries the fence's info string as a name and
//! as an extension, then falls back to sniffing the first line -- which is what
//! rescues the `#!/bin/sh` blocks that carry no fence language at all.
use vstd::prelude::*;

use syntect::highlighting::ThemeSet;
use syntect::parsing::SyntaxSet;

use super::syntax::{
    common_tokens, covers, embedded_themes, extended_grammars, extended_themes, grammar_names,
    has_extension, has_opening, has_token, known_extensions, known_openings, known_tokens,
    lines_with_endings, no_grammars, no_themes, piece_view, pieces_text, row_view, shade_by_extension,
    shade_by_opening, shade_by_token, shaded_view, shadings, syntax_names, theme_background,
    theme_backgrounds, theme_keys, theme_names, unfailed, GrammarV, Grammars, Palettes, ShadedLine,
};
pub use super::syntax::Shade;
use crate::term::style::{plain_style, Color, Rgb, Style};
use crate::render::inline::{inked, lemma_inked_append};
use crate::text;

verus! {

// --- colours --------------------------------------------------------------------

/// A syntax colour as a style colour.
///
/// Themes designed for terminals encode "use the user's colour N" as alpha 0 with
/// the index in the red channel, and "use the terminal default" as alpha 1.
pub open spec fn shade_color(s: Shade) -> Color {
    if s.a == 0 {
        Color::Indexed(s.r)
    } else if s.a == 1 {
        Color::Default
    } else {
        Color::Rgb(Rgb(s.r, s.g, s.b))
    }
}

/// A syntax style as a style. The font's bits are bold, underline and italic.
pub open spec fn shade_style(s: Shade) -> Style {
    Style {
        fg: shade_color(s),
        bold: s.font % 2 == 1,
        underline: (s.font as int / 2) % 2 == 1,
        italic: (s.font as int / 4) % 2 == 1,
        ..plain_style()
    }
}

/// Maps a syntax colour, honouring the palette convention used by ANSI themes.
pub fn convert_color(s: Shade) -> (r: Color)
    ensures
        r == shade_color(s),
{
    if s.a == 0 {
        Color::Indexed(s.r)
    } else if s.a == 1 {
        Color::Default
    } else {
        Color::Rgb(Rgb(s.r, s.g, s.b))
    }
}

/// Converts a syntax style to ours.
pub fn convert_style(s: Shade) -> (r: Style)
    ensures
        r == shade_style(s),
{
    Style {
        fg: convert_color(s),
        bold: s.font % 2 == 1,
        underline: (s.font / 2) % 2 == 1,
        italic: (s.font / 4) % 2 == 1,
        ..Style::plain()
    }
}

// --- lookup ---------------------------------------------------------------------

/// Names for languages that the grammars know under another one.
pub open spec fn alias_of(low: Seq<char>) -> Option<Seq<char>> {
    if low == "sh"@ || low == "shell"@ || low == "zsh"@ || low == "console"@ || low
        == "shell-session"@ || low == "shellsession"@ {
        Some("bash"@)
    } else if low == "js"@ || low == "jsx"@ || low == "node"@ {
        Some("javascript"@)
    } else if low == "ts"@ || low == "tsx"@ {
        Some("typescript"@)
    } else if low == "yml"@ {
        Some("yaml"@)
    } else if low == "rs"@ {
        Some("rust"@)
    } else if low == "py"@ || low == "python3"@ {
        Some("python"@)
    } else if low == "golang"@ {
        Some("go"@)
    } else if low == "cmd"@ || low == "batch"@ {
        Some("dosbatch"@)
    } else if low == "docker"@ || low == "containerfile"@ {
        Some("dockerfile"@)
    } else if low == "md"@ || low == "mdown"@ {
        Some("markdown"@)
    } else if low == "tf"@ || low == "hcl"@ {
        Some("terraform"@)
    } else {
        None
    }
}

fn language_alias(low: &str) -> (r: Option<&'static str>)
    ensures
        match r {
            Some(a) => alias_of(low@) == Some(a@),
            None => alias_of(low@) is None,
        },
{
    if text::same(low, "sh") || text::same(low, "shell") || text::same(low, "zsh") || text::same(
        low,
        "console",
    ) || text::same(low, "shell-session") || text::same(low, "shellsession") {
        Some("bash")
    } else if text::same(low, "js") || text::same(low, "jsx") || text::same(low, "node") {
        Some("javascript")
    } else if text::same(low, "ts") || text::same(low, "tsx") {
        Some("typescript")
    } else if text::same(low, "yml") {
        Some("yaml")
    } else if text::same(low, "rs") {
        Some("rust")
    } else if text::same(low, "py") || text::same(low, "python3") {
        Some("python")
    } else if text::same(low, "golang") {
        Some("go")
    } else if text::same(low, "cmd") || text::same(low, "batch") {
        Some("dosbatch")
    } else if text::same(low, "docker") || text::same(low, "containerfile") {
        Some("dockerfile")
    } else if text::same(low, "md") || text::same(low, "mdown") {
        Some("markdown")
    } else if text::same(low, "tf") || text::same(low, "hcl") {
        Some("terraform")
    } else {
        None
    }
}

/// The first line of a text, or nothing.
pub open spec fn first_line(code: Seq<char>) -> Seq<char> {
    if text::lines(code).len() > 0 {
        text::lines(code)[0]
    } else {
        Seq::empty()
    }
}

/// The grammar for a fence language, or for the first line where there is none.
pub open spec fn grammar_for(
    syntaxes: SyntaxSet,
    language: Option<Seq<char>>,
    code: Seq<char>,
) -> Option<GrammarV> {
    let lang = match language {
        Some(l) => text::trim(l),
        None => Seq::empty(),
    };
    if lang.len() > 0 {
        if known_tokens(syntaxes).contains(lang) {
            Some(GrammarV::Token(lang))
        } else {
            match alias_of(text::lower(lang)) {
                Some(a) => if known_tokens(syntaxes).contains(a) {
                    Some(GrammarV::Token(a))
                } else {
                    None
                },
                None => if known_extensions(syntaxes).contains(lang) {
                    Some(GrammarV::Extension(lang))
                } else {
                    None
                },
            }
        }
    } else if known_openings(syntaxes).contains(first_line(code)) {
        Some(GrammarV::Opening(first_line(code)))
    } else {
        None
    }
}

/// A grammar, by the way it was found.
enum Grammar {
    Token(String),
    Extension(String),
    Opening(String),
}

spec fn grammar_view(g: Grammar) -> GrammarV {
    match g {
        Grammar::Token(t) => GrammarV::Token(t@),
        Grammar::Extension(t) => GrammarV::Extension(t@),
        Grammar::Opening(t) => GrammarV::Opening(t@),
    }
}

/// Owns the grammar and theme sets.
pub struct Highlighter {
    grammars: Grammars,
    palettes: Palettes,
    theme: String,
}

impl Highlighter {
    /// The grammars it has.
    pub closed spec fn syntaxes(self) -> SyntaxSet {
        self.grammars@
    }

    /// The colour themes it has.
    pub closed spec fn themes(self) -> ThemeSet {
        self.palettes@
    }

    /// The name of the theme in use.
    pub closed spec fn theme(self) -> Seq<char> {
        self.theme@
    }
}

/// The first name in `names[k..]` that equals `wanted` in lower case.
pub open spec fn find_ignoring_case(names: Seq<Seq<char>>, k: int, wanted: Seq<char>) -> Option<
    Seq<char>,
>
    decreases names.len() - k,
{
    if k < 0 || k >= names.len() {
        None
    } else if text::lower(names[k]) == text::lower(wanted) {
        Some(names[k])
    } else {
        find_ignoring_case(names, k + 1, wanted)
    }
}

proof fn lemma_find_ignoring_case(names: Seq<Seq<char>>, k: int, wanted: Seq<char>)
    ensures
        find_ignoring_case(names, k, wanted) matches Some(name) ==> names.contains(name),
    decreases names.len() - k,
{
    if 0 <= k < names.len() {
        lemma_find_ignoring_case(names, k + 1, wanted);
    }
}

/// The theme to use when `wanted` is asked for: that one, one that differs in case
/// only, one of the usual ones, or the first there is.
pub open spec fn resolved_theme(names: Seq<Seq<char>>, wanted: Seq<char>) -> Seq<char> {
    if names.contains(wanted) {
        wanted
    } else {
        match find_ignoring_case(names, 0, wanted) {
            Some(name) => name,
            None => if names.contains("base16-ocean.dark"@) {
                "base16-ocean.dark"@
            } else if names.contains("Monokai Extended"@) {
                "Monokai Extended"@
            } else if names.contains("InspiredGitHub"@) {
                "InspiredGitHub"@
            } else if names.len() > 0 {
                names[0]
            } else {
                Seq::empty()
            },
        }
    }
}

fn holds_name(names: &Vec<String>, wanted: &str) -> (r: bool)
    ensures
        r == text::views(names@).contains(wanted@),
{
    let ghost v = text::views(names@);
    for i in 0..names.len()
        invariant
            v == text::views(names@),
            forall|k: int| 0 <= k < i ==> #[trigger] v[k] != wanted@,
    {
        assert(v[i as int] == names@[i as int]@);
        if text::same(&names[i], wanted) {
            assert(v[i as int] == wanted@);
            return true;
        }
    }
    false
}

/// Whether `a` comes before `b` in the order of their characters.
pub open spec fn before(a: Seq<char>, b: Seq<char>) -> bool
    decreases a.len(),
{
    if b.len() == 0 {
        false
    } else if a.len() == 0 {
        true
    } else if a[0] != b[0] {
        a[0] < b[0]
    } else {
        before(a.drop_first(), b.drop_first())
    }
}

/// True of a list in strictly ascending order.
pub open spec fn ascending(s: Seq<Seq<char>>) -> bool {
    forall|i: int, j: int| 0 <= i < j < s.len() ==> before(#[trigger] s[i], #[trigger] s[j])
}

proof fn lemma_before_transitive(a: Seq<char>, b: Seq<char>, c: Seq<char>)
    requires
        before(a, b),
        before(b, c),
    ensures
        before(a, c),
    decreases a.len(),
{
    if a.len() > 0 && b.len() > 0 && c.len() > 0 && a[0] == b[0] && b[0] == c[0] {
        lemma_before_transitive(a.drop_first(), b.drop_first(), c.drop_first());
    }
}

proof fn lemma_before_total(a: Seq<char>, b: Seq<char>)
    ensures
        before(a, b) || a == b || before(b, a),
    decreases a.len(),
{
    if a.len() == 0 && b.len() == 0 {
        assert(a =~= b);
    } else if a.len() > 0 && b.len() > 0 && a[0] == b[0] {
        lemma_before_total(a.drop_first(), b.drop_first());
        if a.drop_first() == b.drop_first() {
            assert(a =~= seq![a[0]] + a.drop_first());
            assert(b =~= seq![b[0]] + b.drop_first());
        }
    }
}

fn is_before(a: &str, b: &str) -> (r: bool)
    ensures
        r == before(a@, b@),
{
    let x = text::chars_of(a);
    let y = text::chars_of(b);
    let mut i: usize = 0;
    assert(x@.subrange(0, x@.len() as int) =~= x@);
    assert(y@.subrange(0, y@.len() as int) =~= y@);
    loop
        invariant
            i <= x.len(),
            i <= y.len(),
            before(x@.subrange(i as int, x.len() as int), y@.subrange(i as int, y.len() as int))
                == before(a@, b@),
        decreases x.len() - i,
    {
        if i >= y.len() {
            return false;
        }
        if i >= x.len() {
            return true;
        }
        if x[i] != y[i] {
            return x[i] < y[i];
        }
        assert(x@.subrange(i as int, x.len() as int).drop_first() =~= x@.subrange(
            i + 1,
            x.len() as int,
        ));
        assert(y@.subrange(i as int, y.len() as int).drop_first() =~= y@.subrange(
            i + 1,
            y.len() as int,
        ));
        i = i + 1;
    }
}

/// Puts a name where it belongs in an ascending list, unless it is there.
fn insert_sorted(list: &mut Vec<String>, name: String)
    requires
        ascending(text::views(old(list)@)),
    ensures
        ascending(text::views(final(list)@)),
        forall|x: Seq<char>|
            #![auto]
            text::views(final(list)@).contains(x) <==> text::views(old(list)@).contains(x) || x
                == name@,
{
    let ghost v = text::views(list@);
    let ghost key = name@;
    let mut i: usize = 0;
    while i < list.len() && is_before(&list[i], &name)
        invariant
            v == text::views(list@),
            ascending(v),
            key == name@,
            i <= list.len(),
            forall|k: int| 0 <= k < i ==> before(#[trigger] v[k], key),
        decreases list.len() - i,
    {
        assert(v[i as int] == list@[i as int]@);
        i = i + 1;
    }
    if i < list.len() && text::same(&list[i], &name) {
        assert(v[i as int] == key);
        return;
    }
    if i < list.len() {
        assert(v[i as int] == list@[i as int]@);
        proof {
            lemma_before_total(v[i as int], key);
        }
    }
    list.insert(i, name);
    let ghost w = text::views(list@);
    assert(w =~= v.insert(i as int, key));
    assert forall|p: int, q: int| 0 <= p < q < w.len() implies before(
        #[trigger] w[p],
        #[trigger] w[q],
    ) by {
        let vp = if p < i {
            p
        } else {
            p - 1
        };
        let vq = if q < i {
            q
        } else {
            q - 1
        };
        if p == i {
            assert(w[q] == v[q - 1]);
            assert(before(key, v[i as int]));
            if q - 1 > i {
                assert(before(v[i as int], v[q - 1]));
                lemma_before_transitive(key, v[i as int], v[q - 1]);
            }
        } else if q == i {
            assert(w[p] == v[p]);
        } else {
            assert(w[p] == v[vp]);
            assert(w[q] == v[vq]);
            assert(before(v[vp], v[vq]));
        }
    }
    assert forall|x: Seq<char>| #![auto] w.contains(x) <==> v.contains(x) || x == key by {
        if w.contains(x) {
            let p = choose|p: int| 0 <= p < w.len() && w[p] == x;
            if p < i {
                assert(v[p] == x);
            } else if p > i {
                assert(v[p - 1] == x);
            }
        }
        if v.contains(x) {
            let p = choose|p: int| 0 <= p < v.len() && v[p] == x;
            if p < i {
                assert(w[p] == x);
            } else {
                assert(w[p + 1] == x);
            }
        }
        assert(w[i as int] == key);
    }
}

/// The names of a list in ascending order, each once.
fn sorted_names(names: Vec<String>) -> (r: Vec<String>)
    ensures
        ascending(text::views(r@)),
        forall|x: Seq<char>|
            #![auto]
            text::views(r@).contains(x) <==> text::views(names@).contains(x),
{
    let mut out: Vec<String> = Vec::new();
    let ghost v = text::views(names@);
    for i in 0..names.len()
        invariant
            v == text::views(names@),
            ascending(text::views(out@)),
            forall|x: Seq<char>|
                #![auto]
                text::views(out@).contains(x) <==> v.take(i as int).contains(x),
    {
        let ghost was = text::views(out@);
        insert_sorted(&mut out, names[i].clone());
        assert(v[i as int] == names@[i as int]@);
        assert forall|x: Seq<char>|
            #![auto]
            text::views(out@).contains(x) <==> v.take(i + 1).contains(x) by {
            if v.take(i + 1).contains(x) {
                let t = v.take(i + 1);
                let p = choose|p: int| 0 <= p < t.len() && t[p] == x;
                if p < i {
                    assert(v.take(i as int)[p] == x);
                }
            }
            if v.take(i as int).contains(x) {
                let t = v.take(i as int);
                let p = choose|p: int| 0 <= p < t.len() && t[p] == x;
                assert(v.take(i + 1)[p] == x);
            }
            assert(v.take(i + 1)[i as int] == v[i as int]);
        }
    }
    assert(v.take(names@.len() as int) =~= v);
    out
}

// --- highlighting -----------------------------------------------------------------

/// `t` without the line endings at its end.
pub open spec fn without_ending(t: Seq<char>) -> Seq<char>
    decreases t.len(),
{
    if t.len() > 0 && (t.last() == '\n' || t.last() == '\r') {
        without_ending(t.drop_last())
    } else {
        t
    }
}

/// A line of styled pieces, as a value.
pub type StyledLine = Seq<(Style, Seq<char>)>;

/// The first `k` pieces of a line in our styles, without line endings and without
/// the pieces that hold nothing else.
pub open spec fn styled_pieces(p: Seq<(Shade, Seq<char>)>, k: int) -> StyledLine
    decreases k,
{
    if k <= 0 {
        Seq::empty()
    } else {
        let t = without_ending(p[k - 1].1);
        if t.len() == 0 {
            styled_pieces(p, k - 1)
        } else {
            styled_pieces(p, k - 1).push((shade_style(p[k - 1].0), t))
        }
    }
}

/// One line in our styles. A grammar that fails mid-file costs that line's colour,
/// not the whole block.
pub open spec fn styled_line(row: ShadedLine, line: Seq<char>) -> StyledLine {
    match row {
        Some(p) => styled_pieces(p, p.len() as int),
        None => seq![(plain_style(), text::trim_end(line))],
    }
}

/// The lines of a text without any colour.
pub open spec fn plain_lines(code: Seq<char>) -> Seq<StyledLine> {
    text::lines(code).map_values(|l: Seq<char>| seq![(plain_style(), l)])
}

/// The lines that a grammar coloured, in our styles.
pub open spec fn styled_lines(rows: Seq<ShadedLine>, code: Seq<char>) -> Seq<StyledLine> {
    Seq::new(rows.len(), |i: int| styled_line(rows[i], lines_with_endings(code, 0)[i]))
}

impl Highlighter {
    /// True when there is a theme to colour with.
    pub open spec fn has_theme(self) -> bool {
        theme_names(self.themes()).contains(self.theme())
    }

    /// What the grammar for a block makes of it.
    pub open spec fn shaded(self, code: Seq<char>, language: Option<Seq<char>>) -> Seq<ShadedLine> {
        shadings(self.syntaxes(), self.themes())[(
            grammar_for(self.syntaxes(), language, code).unwrap(),
            self.theme(),
            code,
        )]
    }

    /// What highlighting gives: one run of styled pieces per line, plain where no
    /// grammar matches.
    pub open spec fn highlighted(self, code: Seq<char>, language: Option<Seq<char>>) -> Seq<
        StyledLine,
    > {
        match grammar_for(self.syntaxes(), language, code) {
            Some(g) => {
                let rows = self.shaded(code, language);
                if self.has_theme() && rows.len() > 0 {
                    styled_lines(rows, code)
                } else {
                    plain_lines(code)
                }
            },
            None => plain_lines(code),
        }
    }

    /// True when there is a grammar and a theme for a block.
    pub open spec fn colors(self, code: Seq<char>, language: Option<Seq<char>>) -> bool {
        self.has_theme() && grammar_for(self.syntaxes(), language, code) is Some
    }
}

pub open spec fn opt_str(o: Option<&str>) -> Option<Seq<char>> {
    match o {
        Some(s) => Some(s@),
        None => None,
    }
}

pub open spec fn styled_view(v: Vec<(Style, String)>) -> StyledLine {
    v@.map_values(|p: (Style, String)| (p.0, p.1@))
}

pub open spec fn all_styled_view(v: Vec<Vec<(Style, String)>>) -> Seq<StyledLine> {
    v@.map_values(|l: Vec<(Style, String)>| styled_view(l))
}

fn trim_ending(s: &str) -> (r: String)
    ensures
        r@ == without_ending(s@),
{
    let v = text::chars_of(s);
    let mut n: usize = v.len();
    assert(v@.subrange(0, n as int) =~= v@);
    while n > 0 && (v[n - 1] == '\n' || v[n - 1] == '\r')
        invariant
            n <= v.len(),
            without_ending(v@.subrange(0, n as int)) == without_ending(v@),
        decreases n,
    {
        assert(v@.subrange(0, n as int).drop_last() =~= v@.subrange(0, n - 1));
        n = n - 1;
    }
    text::string_of_range(&v, 0, n)
}

fn style_pieces(p: &Vec<(Shade, String)>) -> (r: Vec<(Style, String)>)
    ensures
        ({
            let v = p@.map_values(|x: (Shade, String)| piece_view(x));
            styled_view(r) == styled_pieces(v, v.len() as int)
        }),
{
    let ghost v = p@.map_values(|x: (Shade, String)| piece_view(x));
    let mut out: Vec<(Style, String)> = Vec::new();
    assert(styled_view(out) =~= Seq::empty());
    for k in 0..p.len()
        invariant
            v == p@.map_values(|x: (Shade, String)| piece_view(x)),
            styled_view(out) == styled_pieces(v, k as int),
    {
        assert(v[k as int] == piece_view(p@[k as int]));
        let t = trim_ending(&p[k].1);
        if !t.as_str().is_empty() {
            let ghost was = styled_view(out);
            let ghost tv = t@;
            out.push((convert_style(p[k].0), t));
            assert(styled_view(out) =~= was.push((shade_style(v[k as int].0), tv)));
        }
    }
    out
}

fn one_piece(t: String) -> (r: Vec<(Style, String)>)
    ensures
        styled_view(r) == seq![(plain_style(), t@)],
{
    let mut line: Vec<(Style, String)> = Vec::new();
    let ghost tv = t@;
    line.push((Style::plain(), t));
    assert(styled_view(line) =~= seq![(plain_style(), tv)]);
    line
}

fn unstyled(code: &str) -> (r: Vec<Vec<(Style, String)>>)
    ensures
        all_styled_view(r) == plain_lines(code@),
{
    let lines = text::lines_of(code);
    let ghost v = text::views(lines@);
    let mut out: Vec<Vec<(Style, String)>> = Vec::new();
    for i in 0..lines.len()
        invariant
            v == text::views(lines@),
            all_styled_view(out) =~= v.take(i as int).map_values(
                |l: Seq<char>| seq![(plain_style(), l)],
            ),
    {
        assert(v[i as int] == lines@[i as int]@);
        let line = one_piece(lines[i].clone());
        let ghost one = styled_view(line);
        let ghost was = all_styled_view(out);
        out.push(line);
        assert(all_styled_view(out) =~= was.push(one));
    }
    assert(v.take(lines@.len() as int) =~= v);
    out
}

/// The lines of a text, each with its ending.
fn split_lines(code: &str) -> (r: Vec<String>)
    ensures
        text::views(r@) == lines_with_endings(code@, 0),
{
    let v = text::chars_of(code);
    let n: usize = v.len();
    let mut out: Vec<String> = Vec::new();
    let mut at: usize = 0;
    assert(text::views(out@) + lines_with_endings(v@, 0) =~= lines_with_endings(code@, 0));
    while at < n
        invariant
            n == v.len(),
            v@ == code@,
            at <= n,
            text::views(out@) + lines_with_endings(v@, at as int) == lines_with_endings(code@, 0),
        decreases n - at,
    {
        let end = text::find_char(&v, '\n', at);
        let ghost was = text::views(out@);
        let next: usize = if end < n {
            end + 1
        } else {
            n
        };
        out.push(text::string_of_range(&v, at, next));
        assert(text::views(out@) =~= was.push(v@.subrange(at as int, next as int)));
        assert(was + lines_with_endings(v@, at as int) =~= text::views(out@) + lines_with_endings(
            v@,
            next as int,
        ));
        at = next;
    }
    assert(text::views(out@) + lines_with_endings(v@, at as int) =~= text::views(out@));
    out
}

impl Highlighter {
    /// Builds a highlighter using the extended grammar set.
    pub fn new(theme_name: &str) -> (r: Highlighter)
        ensures
            theme_names(r.themes()) == embedded_themes(),
            r.theme() == resolved_theme(embedded_themes(), theme_name@),
            r.has_theme(),
            grammar_names(r.syntaxes()).contains("TOML"@),
            grammar_names(r.syntaxes()).contains("TypeScript"@),
            grammar_names(r.syntaxes()).contains("Dockerfile"@),
            forall|k: int|
                0 <= k < common_tokens().len() ==> known_tokens(r.syntaxes()).contains(
                    #[trigger] common_tokens()[k],
                ),
            known_extensions(r.syntaxes()).contains("toml"@),
    {
        let mut hl = Highlighter {
            grammars: extended_grammars(),
            palettes: extended_themes(),
            theme: String::new(),
        };
        let name = hl.resolve_theme_name(theme_name);
        hl.theme = name;
        proof {
            let names = embedded_themes();
            lemma_find_ignoring_case(names, 0, theme_name@);
            assert(names[24] == "base16-ocean.dark"@);
        }
        hl
    }

    /// A highlighter with no grammars, for tests and `--no-highlight`.
    pub fn plain() -> (r: Highlighter)
        ensures
            theme_names(r.themes()) == Seq::<Seq<char>>::empty(),
            grammar_names(r.syntaxes()) == Seq::<Seq<char>>::empty(),
            forall|code: Seq<char>, language: Option<Seq<char>>| #[trigger]
                r.highlighted(code, language) == plain_lines(code) && !r.colors(code, language),
            r.theme() == Seq::<char>::empty(),
    {
        Highlighter {
            grammars: no_grammars(),
            palettes: no_themes(),
            theme: String::new(),
        }
    }

    /// The theme actually in use, which may differ from the one requested.
    pub fn theme_name(&self) -> (r: &str)
        ensures
            r@ == self.theme(),
    {
        self.theme.as_str()
    }

    /// The themes there are, in order.
    pub fn theme_names(&self) -> (r: Vec<String>)
        ensures
            ascending(text::views(r@)),
            forall|x: Seq<char>|
                #![auto]
                text::views(r@).contains(x) <==> theme_names(self.themes()).contains(x),
    {
        sorted_names(theme_keys(&self.palettes))
    }

    /// The languages there are grammars for, in order, each once.
    pub fn language_names(&self) -> (r: Vec<String>)
        ensures
            ascending(text::views(r@)),
            forall|x: Seq<char>|
                #![auto]
                text::views(r@).contains(x) <==> grammar_names(self.syntaxes()).contains(x),
    {
        sorted_names(syntax_names(&self.grammars))
    }

    pub fn resolve_theme_name(&self, requested: &str) -> (r: String)
        ensures
            r@ == resolved_theme(theme_names(self.themes()), requested@),
    {
        resolve_among(&theme_keys(&self.palettes), requested)
    }

    /// The background colour the syntax theme wants, if it has one. An alpha of 0 or 1
    /// means the user's own colours.
    pub fn background(&self) -> (r: Option<Rgb>)
        ensures
            r == ({
                let table = theme_backgrounds(self.themes());
                if table.dom().contains(self.theme()) && table[self.theme()].3 > 1 {
                    let c = table[self.theme()];
                    Some(Rgb(c.0, c.1, c.2))
                } else {
                    None
                }
            }),
    {
        match theme_background(&self.palettes, &self.theme) {
            Some((r, g, b, a)) => {
                if a > 1 {
                    Some(Rgb(r, g, b))
                } else {
                    None
                }
            },
            None => None,
        }
    }

    fn syntax_for(&self, language: Option<&str>, code: &str) -> (r: Option<Grammar>)
        ensures
            match r {
                Some(g) => grammar_for(self.syntaxes(), opt_str(language), code@) == Some(
                    grammar_view(g),
                ),
                None => grammar_for(self.syntaxes(), opt_str(language), code@) is None,
            },
    {
        let lang = match language {
            Some(l) => text::trimmed(l),
            None => String::new(),
        };
        if !lang.as_str().is_empty() {
            if has_token(&self.grammars, &lang) {
                return Some(Grammar::Token(lang));
            }
            // `console`, `shell-session`, `text` and friends: common aliases the
            // grammar set does not know by that name.
            let low = text::string_of(&text::lowered(&text::chars_of(&lang)));
            return match language_alias(&low) {
                Some(alias) => {
                    if has_token(&self.grammars, alias) {
                        Some(Grammar::Token(text::owned(alias)))
                    } else {
                        None
                    }
                },
                None => {
                    if has_extension(&self.grammars, &lang) {
                        Some(Grammar::Extension(lang))
                    } else {
                        None
                    }
                },
            };
        }
        let lines = text::lines_of(code);
        let ghost v = text::views(lines@);
        let opening = if lines.len() > 0 {
            assert(v[0] == lines@[0]@);
            lines[0].clone()
        } else {
            String::new()
        };
        assert(opening@ =~= first_line(code@));
        if has_opening(&self.grammars, &opening) {
            Some(Grammar::Opening(opening))
        } else {
            None
        }
    }

    /// True when there is a grammar and a theme and something can be coloured.
    pub fn can_highlight(&self, language: Option<&str>, code: &str) -> (r: bool)
        ensures
            r == self.colors(code@, opt_str(language)),
    {
        holds_name(&theme_keys(&self.palettes), &self.theme) && self.syntax_for(
            language,
            code,
        ).is_some()
    }

    /// Highlights `code`, returning one vector of styled pieces per line.
    ///
    /// Falls back to a single unstyled piece per line when no grammar matches, so
    /// callers always get well-formed output.
    pub fn highlight(&self, code: &str, language: Option<&str>) -> (r: Vec<Vec<(Style, String)>>)
        ensures
            all_styled_view(r) == self.highlighted(code@, opt_str(language)),
            self.colors(code@, opt_str(language)) ==> covers(
                self.shaded(code@, opt_str(language)),
                code@,
            ) && keeps_the_text(
                all_styled_view(r),
                self.shaded(code@, opt_str(language)),
                code@,
            ),
    {
        let rows = match self.syntax_for(language, code) {
            None => None,
            Some(Grammar::Token(t)) => shade_by_token(
                &self.grammars,
                &self.palettes,
                &t,
                &self.theme,
                code,
            ),
            Some(Grammar::Extension(t)) => shade_by_extension(
                &self.grammars,
                &self.palettes,
                &t,
                &self.theme,
                code,
            ),
            Some(Grammar::Opening(t)) => shade_by_opening(
                &self.grammars,
                &self.palettes,
                &t,
                &self.theme,
                code,
            ),
        };
        let rows = match rows {
            Some(rows) => rows,
            None => {
                return unstyled(code);
            },
        };
        if rows.len() == 0 {
            let plain = unstyled(code);
            proof {
                lemma_keeps_nothing(all_styled_view(plain), shaded_view(rows), code@);
            }
            return plain;
        }
        proof {
            lemma_keeps_the_text(shaded_view(rows), code@);
        }
        style_rows(&rows, code)
    }
}

/// Turns the lines that a grammar coloured into our styles.
pub fn style_rows(rows: &Vec<Option<Vec<(Shade, String)>>>, code: &str) -> (r: Vec<
    Vec<(Style, String)>,
>)
    requires
        rows@.len() == lines_with_endings(code@, 0).len(),
    ensures
        all_styled_view(r) == styled_lines(shaded_view(*rows), code@),
{
    let lines = split_lines(code);
    let ghost v = text::views(lines@);
    let ghost s = shaded_view(*rows);
    let mut out: Vec<Vec<(Style, String)>> = Vec::new();
    for i in 0..rows.len()
        invariant
            v == text::views(lines@),
            v == lines_with_endings(code@, 0),
            s == shaded_view(*rows),
            rows@.len() == v.len(),
            all_styled_view(out) =~= styled_lines(s, code@).take(i as int),
    {
        assert(v[i as int] == lines@[i as int]@);
        assert(s[i as int] == row_view(rows@[i as int]));
        let ghost was = all_styled_view(out);
        let line = match &rows[i] {
            Some(p) => style_pieces(p),
            None => one_piece(text::trimmed_end(&lines[i])),
        };
        let ghost one = styled_view(line);
        assert(one == styled_line(s[i as int], v[i as int]));
        out.push(line);
        assert(all_styled_view(out) =~= was.push(one));
    }
    assert(styled_lines(s, code@).take(rows@.len() as int) =~= styled_lines(s, code@));
    out
}

/// Picks the theme to use out of those there are.
pub fn resolve_among(names: &Vec<String>, requested: &str) -> (r: String)
    ensures
        r@ == resolved_theme(text::views(names@), requested@),
{
    let ghost v = text::views(names@);
    if holds_name(names, requested) {
        return text::owned(requested);
    }
    // Case-insensitive second chance before giving up on the request.
    let wanted = text::string_of(&text::lowered(&text::chars_of(requested)));
    let mut k: usize = 0;
    while k < names.len()
        invariant
            v == text::views(names@),
            k <= names.len(),
            wanted@ == text::lower(requested@),
            !v.contains(requested@),
            find_ignoring_case(v, k as int, requested@) == find_ignoring_case(v, 0, requested@),
        decreases names.len() - k,
    {
        assert(v[k as int] == names@[k as int]@);
        let low = text::string_of(&text::lowered(&text::chars_of(&names[k])));
        if text::same(&low, &wanted) {
            return names[k].clone();
        }
        k = k + 1;
    }
    if holds_name(names, "base16-ocean.dark") {
        return text::owned("base16-ocean.dark");
    }
    if holds_name(names, "Monokai Extended") {
        return text::owned("Monokai Extended");
    }
    if holds_name(names, "InspiredGitHub") {
        return text::owned("InspiredGitHub");
    }
    if names.len() > 0 {
        assert(v[0] == names@[0]@);
        names[0].clone()
    } else {
        String::new()
    }
}

// --- laws -----------------------------------------------------------------------

/// The text of a line of styled pieces.
pub open spec fn line_text(l: StyledLine) -> Seq<char>
    decreases l.len(),
{
    if l.len() == 0 {
        Seq::empty()
    } else {
        line_text(l.drop_last()) + l.last().1
    }
}

proof fn lemma_ending_inked(t: Seq<char>)
    ensures
        inked(without_ending(t)) == inked(t),
    decreases t.len(),
{
    if t.len() > 0 && (t.last() == '\n' || t.last() == '\r') {
        lemma_ending_inked(t.drop_last());
    }
}

proof fn lemma_trim_end_inked(t: Seq<char>)
    ensures
        inked(text::trim_end(t)) == inked(t),
    decreases t.len(),
{
    if t.len() > 0 && text::is_space(t.last()) {
        lemma_trim_end_inked(t.drop_last());
    }
}

proof fn lemma_pieces_inked(p: Seq<(Shade, Seq<char>)>, k: int)
    requires
        0 <= k <= p.len(),
    ensures
        inked(line_text(styled_pieces(p, k))) == inked(pieces_text(p.take(k))),
    decreases k,
{
    if k <= 0 {
        assert(p.take(0) =~= Seq::empty());
    } else {
        lemma_pieces_inked(p, k - 1);
        let t = without_ending(p[k - 1].1);
        lemma_ending_inked(p[k - 1].1);
        assert(p.take(k).drop_last() =~= p.take(k - 1));
        lemma_inked_append(pieces_text(p.take(k - 1)), p[k - 1].1);
        let before = styled_pieces(p, k - 1);
        if t.len() == 0 {
            assert(inked(t) =~= Seq::empty());
            assert(inked(pieces_text(p.take(k - 1))) + inked(t) =~= inked(
                pieces_text(p.take(k - 1)),
            ));
        } else {
            let after = styled_pieces(p, k);
            assert(after.drop_last() =~= before);
            lemma_inked_append(line_text(before), t);
        }
    }
}

/// Highlighting keeps the text: what a line shows, white space apart, is what the line
/// of code holds, where its grammar failed on it or on no line before it.
pub proof fn highlighting_keeps_the_text(rows: Seq<ShadedLine>, code: Seq<char>, i: int)
    requires
        covers(rows, code),
        0 <= i < rows.len(),
        rows[i] is None || unfailed(rows, i),
    ensures
        styled_lines(rows, code).len() == lines_with_endings(code, 0).len(),
        inked(line_text(styled_lines(rows, code)[i])) == inked(lines_with_endings(code, 0)[i]),
{
    let line = lines_with_endings(code, 0)[i];
    match rows[i] {
        Some(p) => {
            lemma_pieces_inked(p, p.len() as int);
            assert(p.take(p.len() as int) =~= p);
        },
        None => {
            let l = styled_line(rows[i], line);
            assert(l.drop_last() =~= Seq::empty());
            assert(line_text(l.drop_last()) =~= Seq::empty());
            assert(line_text(l) =~= text::trim_end(line));
            lemma_trim_end_inked(line);
        },
    }
}

/// True when the lines show the text of the code, up to the first that comes behind a
/// failed one, and so does every line that failed itself.
#[verifier::opaque]
pub open spec fn keeps_the_text(lines: Seq<StyledLine>, rows: Seq<ShadedLine>, code: Seq<char>) -> bool {
    rows.len() > 0 ==> lines.len() == lines_with_endings(code, 0).len() && forall|i: int|
        0 <= i < lines.len() && (rows[i] is None || unfailed(rows, i)) ==> inked(
            line_text(#[trigger] lines[i]),
        ) == inked(lines_with_endings(code, 0)[i])
}

proof fn lemma_keeps_the_text(rows: Seq<ShadedLine>, code: Seq<char>)
    requires
        covers(rows, code),
    ensures
        keeps_the_text(styled_lines(rows, code), rows, code),
{
    reveal(keeps_the_text);
    let lines = styled_lines(rows, code);
    assert forall|i: int|
        0 <= i < lines.len() && (rows[i] is None || unfailed(rows, i)) implies inked(
        line_text(#[trigger] lines[i]),
    ) == inked(lines_with_endings(code, 0)[i]) by {
        highlighting_keeps_the_text(rows, code, i);
    }
}

proof fn lemma_keeps_nothing(lines: Seq<StyledLine>, rows: Seq<ShadedLine>, code: Seq<char>)
    requires
        rows.len() == 0,
    ensures
        keeps_the_text(lines, rows, code),
{
    reveal(keeps_the_text);
}

/// The lines of a text, with their endings, are the text.
pub proof fn the_lines_are_the_text(s: Seq<char>, from: int)
    requires
        0 <= from <= s.len(),
    ensures
        lines_with_endings(s, from).flatten() == s.subrange(from, s.len() as int),
    decreases s.len() - from,
{
    let all = lines_with_endings(s, from);
    if from >= s.len() {
        assert(s.subrange(from, s.len() as int) =~= Seq::empty());
        assert(all.flatten() =~= Seq::<char>::empty());
    } else {
        let end = text::index_of(s, '\n', from);
        if from <= end < s.len() {
            the_lines_are_the_text(s, end + 1);
            assert(all.drop_first() =~= lines_with_endings(s, end + 1));
            assert(all.flatten() == all.first() + all.drop_first().flatten());
            assert(s.subrange(from, end + 1) + s.subrange(end + 1, s.len() as int) =~= s.subrange(
                from,
                s.len() as int,
            ));
        } else {
            assert(all.drop_first() =~= Seq::empty());
            assert(all.drop_first().flatten() =~= Seq::<char>::empty());
            assert(all.flatten() == all.first() + all.drop_first().flatten());
            assert(all.flatten() =~= s.subrange(from, s.len() as int));
        }
    }
}

} // verus!
