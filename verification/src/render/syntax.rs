//! Grammars and colour themes, and what `syntect` makes of code with them.
//!
//! Everything that is believed of `syntect` and of the sets that `two_face` embeds is
//! stated here. The sets are reached through [`Grammars`] and [`Palettes`] alone.
use vstd::prelude::*;

use syntect::easy::HighlightLines;
use syntect::highlighting::{Style as SynStyle, ThemeSet};
use syntect::parsing::SyntaxSet;
use syntect::util::LinesWithEndings;

use crate::text;

verus! {

// --- what syntect knows -------------------------------------------------------

/// The grammars, as `syntect` holds them.
#[verifier::external_type_specification]
#[verifier::external_body]
pub struct ExSyntaxSet(syntect::parsing::SyntaxSet);

/// The colour themes, as `syntect` holds them.
#[verifier::external_type_specification]
#[verifier::external_body]
pub struct ExThemeSet(syntect::highlighting::ThemeSet);

/// The style of a piece of code, as `syntect` gives it.
#[verifier::external_type_specification]
#[verifier::external_body]
pub struct ExSynStyle(SynStyle);

/// The names in a set of themes, in the order of its map.
pub uninterp spec fn theme_names(themes: ThemeSet) -> Seq<Seq<char>>;

/// The names of the grammars in a set, in the order of its list.
pub uninterp spec fn grammar_names(syntaxes: SyntaxSet) -> Seq<Seq<char>>;

/// The tokens for which `SyntaxSet::find_syntax_by_token` finds a grammar.
pub uninterp spec fn known_tokens(syntaxes: SyntaxSet) -> Set<Seq<char>>;

/// The extensions for which `SyntaxSet::find_syntax_by_extension` finds a grammar.
pub uninterp spec fn known_extensions(syntaxes: SyntaxSet) -> Set<Seq<char>>;

/// The lines for which `SyntaxSet::find_syntax_by_first_line` finds a grammar.
pub uninterp spec fn known_openings(syntaxes: SyntaxSet) -> Set<Seq<char>>;

/// The background colours that the themes of a set have, by the theme's name.
pub uninterp spec fn theme_backgrounds(themes: ThemeSet) -> Map<Seq<char>, (u8, u8, u8, u8)>;

/// How a grammar was found.
pub enum GrammarV {
    Token(Seq<char>),
    Extension(Seq<char>),
    Opening(Seq<char>),
}

/// A colour and a font style: red, green, blue, alpha, and the bits of the font.
#[derive(Debug, Clone, Copy, PartialEq, Eq, Structural)]
pub struct Shade {
    pub r: u8,
    pub g: u8,
    pub b: u8,
    pub a: u8,
    pub font: u8,
}

/// One line as a grammar colours it; `None` where the grammar failed on it.
pub type ShadedLine = Option<Seq<(Shade, Seq<char>)>>;

/// What `HighlightLines::highlight_line` gives for each line of a text, by grammar,
/// theme and text.
pub uninterp spec fn shadings(syntaxes: SyntaxSet, themes: ThemeSet) -> Map<
    (GrammarV, Seq<char>, Seq<char>),
    Seq<ShadedLine>,
>;

/// The themes that `two_face` embeds, in the order of their names.
pub open spec fn embedded_themes() -> Seq<Seq<char>> {
    seq![
        "1337"@,
        "Coldark-Cold"@,
        "Coldark-Dark"@,
        "DarkNeon"@,
        "Dracula"@,
        "GitHub"@,
        "InspiredGitHub"@,
        "Monokai Extended"@,
        "Monokai Extended Bright"@,
        "Monokai Extended Light"@,
        "Monokai Extended Origin"@,
        "Nord"@,
        "OneHalfDark"@,
        "OneHalfLight"@,
        "Solarized (dark)"@,
        "Solarized (light)"@,
        "Sublime Snazzy"@,
        "TwoDark"@,
        "Visual Studio Dark+"@,
        "ansi"@,
        "base16"@,
        "base16-256"@,
        "base16-eighties.dark"@,
        "base16-mocha.dark"@,
        "base16-ocean.dark"@,
        "base16-ocean.light"@,
        "gruvbox-dark"@,
        "gruvbox-light"@,
        "zenburn"@,
    ]
}

/// Tokens of common languages among those that `two_face` lists.
pub open spec fn common_tokens() -> Seq<Seq<char>> {
    seq![
        "bash"@,
        "c"@,
        "css"@,
        "dockerfile"@,
        "go"@,
        "html"@,
        "java"@,
        "javascript"@,
        "json"@,
        "markdown"@,
        "python"@,
        "ruby"@,
        "rust"@,
        "sql"@,
        "terraform"@,
        "toml"@,
        "typescript"@,
        "xml"@,
        "yaml"@,
    ]
}

// --- the sets -----------------------------------------------------------------------

/// A set of grammars. There are two: the extended one and the empty one. A set from
/// elsewhere could hold a grammar on which `syntect` panics, so none can be made from
/// outside this module.
pub struct Grammars {
    set: SyntaxSet,
}

impl View for Grammars {
    type V = SyntaxSet;

    closed spec fn view(&self) -> SyntaxSet {
        self.set
    }
}

/// A set of colour themes: the extended one or the empty one.
pub struct Palettes {
    set: ThemeSet,
}

impl View for Palettes {
    type V = ThemeSet;

    closed spec fn view(&self) -> ThemeSet {
        self.set
    }
}

/// The lines of a text, each with the line feed that ends it.
pub open spec fn lines_with_endings(s: Seq<char>, from: int) -> Seq<Seq<char>>
    decreases s.len() - from,
{
    if from < 0 || from >= s.len() {
        Seq::empty()
    } else {
        let end = text::index_of(s, '\n', from);
        if from <= end < s.len() {
            seq![s.subrange(from, end + 1)] + lines_with_endings(s, end + 1)
        } else {
            seq![s.subrange(from, s.len() as int)]
        }
    }
}

/// The grammars of `two_face::syntax::extra_newlines`. They include the three that its
/// documentation looks up by name, and `SyntaxSet::find_syntax_by_token` finds common
/// languages that it lists. What else is in the set is left unsaid.
#[verifier::external_body]
pub(crate) fn extended_grammars() -> (r: Grammars)
    ensures
        grammar_names(r@).contains("TOML"@),
        grammar_names(r@).contains("TypeScript"@),
        grammar_names(r@).contains("Dockerfile"@),
        forall|k: int|
            0 <= k < common_tokens().len() ==> known_tokens(r@).contains(
                #[trigger] common_tokens()[k],
            ),
        known_extensions(r@).contains("toml"@),
{
    Grammars { set: two_face::syntax::extra_newlines() }
}

/// The themes of `two_face::theme::extra`: those that `EmbeddedThemeName` enumerates,
/// each under the name that `as_name` gives, in the order of the map that holds them.
#[verifier::external_body]
pub(crate) fn extended_themes() -> (r: Palettes)
    ensures
        theme_names(r@) == embedded_themes(),
{
    Palettes { set: two_face::theme::extra().into() }
}

/// An empty `SyntaxSet`: no token, extension or line has a grammar in it.
#[verifier::external_body]
pub(crate) fn no_grammars() -> (r: Grammars)
    ensures
        grammar_names(r@) == Seq::<Seq<char>>::empty(),
        known_tokens(r@) == Set::<Seq<char>>::empty(),
        known_extensions(r@) == Set::<Seq<char>>::empty(),
        known_openings(r@) == Set::<Seq<char>>::empty(),
{
    Grammars { set: SyntaxSet::new() }
}

/// An empty `ThemeSet`.
#[verifier::external_body]
pub(crate) fn no_themes() -> (r: Palettes)
    ensures
        theme_names(r@) == Seq::<Seq<char>>::empty(),
        theme_backgrounds(r@).dom() == Set::<Seq<char>>::empty(),
{
    Palettes { set: ThemeSet::new() }
}

/// The keys of `ThemeSet::themes`.
#[verifier::external_body]
pub(crate) fn theme_keys(palettes: &Palettes) -> (r: Vec<String>)
    ensures
        text::views(r@) == theme_names(palettes@),
{
    palettes.set.themes.keys().cloned().collect()
}

/// The names of `SyntaxSet::syntaxes`.
#[verifier::external_body]
pub(crate) fn syntax_names(grammars: &Grammars) -> (r: Vec<String>)
    ensures
        text::views(r@) == grammar_names(grammars@),
{
    grammars.set.syntaxes().iter().map(|s| s.name.clone()).collect()
}

/// Asks `SyntaxSet::find_syntax_by_token`.
#[verifier::external_body]
pub(crate) fn has_token(grammars: &Grammars, token: &str) -> (r: bool)
    ensures
        r == known_tokens(grammars@).contains(token@),
{
    grammars.set.find_syntax_by_token(token).is_some()
}

/// Asks `SyntaxSet::find_syntax_by_extension`.
#[verifier::external_body]
pub(crate) fn has_extension(grammars: &Grammars, extension: &str) -> (r: bool)
    ensures
        r == known_extensions(grammars@).contains(extension@),
{
    grammars.set.find_syntax_by_extension(extension).is_some()
}

/// Asks `SyntaxSet::find_syntax_by_first_line`. The patterns of the two sets compile.
#[verifier::external_body]
pub(crate) fn has_opening(grammars: &Grammars, line: &str) -> (r: bool)
    ensures
        r == known_openings(grammars@).contains(line@),
{
    grammars.set.find_syntax_by_first_line(line).is_some()
}

/// The `settings.background` of a theme in `ThemeSet::themes`.
#[verifier::external_body]
pub(crate) fn theme_background(palettes: &Palettes, name: &str) -> (r: Option<(u8, u8, u8, u8)>)
    ensures
        r == (if theme_backgrounds(palettes@).dom().contains(name@) {
            Some(theme_backgrounds(palettes@)[name@])
        } else {
            None
        }),
{
    let bg = palettes.set.themes.get(name)?.settings.background?;
    Some((bg.r, bg.g, bg.b, bg.a))
}

/// The text of the pieces of a line.
pub open spec fn pieces_text(p: Seq<(Shade, Seq<char>)>) -> Seq<char>
    decreases p.len(),
{
    if p.len() == 0 {
        Seq::empty()
    } else {
        pieces_text(p.drop_last()) + p.last().1
    }
}

/// True when no line before line `i` failed.
pub open spec fn unfailed(rows: Seq<ShadedLine>, i: int) -> bool {
    forall|j: int| 0 <= j < i && j < rows.len() ==> (#[trigger] rows[j]) is Some
}

/// True when there is a row for each line, the pieces of a row are the start of its
/// line, and they are the whole of it as long as no line has failed. Behind a failed
/// line a grammar may lose its way and leave the rest of a line out.
pub open spec fn covers(rows: Seq<ShadedLine>, code: Seq<char>) -> bool {
    &&& rows.len() == lines_with_endings(code, 0).len()
    &&& forall|i: int|
        0 <= i < rows.len() ==> (#[trigger] rows[i] matches Some(p) ==> {
            &&& pieces_text(p).is_prefix_of(lines_with_endings(code, 0)[i])
            &&& unfailed(rows, i) ==> pieces_text(p) == lines_with_endings(code, 0)[i]
        })
}

pub open spec fn piece_view(p: (Shade, String)) -> (Shade, Seq<char>) {
    (p.0, p.1@)
}

pub open spec fn row_view(r: Option<Vec<(Shade, String)>>) -> ShadedLine {
    match r {
        Some(p) => Some(p@.map_values(|x: (Shade, String)| piece_view(x))),
        None => None,
    }
}

pub open spec fn shaded_view(r: Vec<Option<Vec<(Shade, String)>>>) -> Seq<ShadedLine> {
    r@.map_values(|x: Option<Vec<(Shade, String)>>| row_view(x))
}

/// Takes over a piece that `HighlightLines::highlight_line` gives.
#[verifier::external_body]
fn convert_piece(piece: (SynStyle, &str)) -> (Shade, String) {
    let (s, t) = piece;
    let c = s.foreground;
    (Shade { r: c.r, g: c.g, b: c.b, a: c.a, font: s.font_style.bits() }, t.to_string())
}

/// Highlights with the grammar that `SyntaxSet::find_syntax_by_token` finds: runs
/// `HighlightLines::highlight_line` over each line of `LinesWithEndings`. It succeeds
/// exactly when grammar and theme are there, and its result depends on the text and on
/// them alone. The pieces of a line are its start: they are cut off one after the other.
/// They are the whole of it as long as no line before it failed; behind a failed line
/// `syntect` may stop early, where an operation no longer fits what came before. The
/// grammars of the two sets are believed not to make `syntect` panic.
#[verifier::external_body]
pub(crate) fn shade_by_token(
    grammars: &Grammars,
    palettes: &Palettes,
    token: &str,
    theme: &str,
    code: &str,
) -> (r: Option<Vec<Option<Vec<(Shade, String)>>>>)
    ensures
        r.is_some() == (known_tokens(grammars@).contains(token@) && theme_names(
            palettes@,
        ).contains(theme@)),
        r matches Some(rows) ==> shaded_view(rows) == shadings(grammars@, palettes@)[(
            GrammarV::Token(token@),
            theme@,
            code@,
        )],
        r matches Some(rows) ==> covers(shaded_view(rows), code@),
{
    let syntax = grammars.set.find_syntax_by_token(token)?;
    let mut h = HighlightLines::new(syntax, palettes.set.themes.get(theme)?);
    let rows = LinesWithEndings::from(code).map(|line| h.highlight_line(line, &grammars.set).ok());
    Some(rows.map(|row| row.map(|p| p.into_iter().map(convert_piece).collect())).collect())
}

/// Highlights with the grammar that `SyntaxSet::find_syntax_by_extension` finds, and
/// promises what `shade_by_token` does.
#[verifier::external_body]
pub(crate) fn shade_by_extension(
    grammars: &Grammars,
    palettes: &Palettes,
    extension: &str,
    theme: &str,
    code: &str,
) -> (r: Option<Vec<Option<Vec<(Shade, String)>>>>)
    ensures
        r.is_some() == (known_extensions(grammars@).contains(extension@) && theme_names(
            palettes@,
        ).contains(theme@)),
        r matches Some(rows) ==> shaded_view(rows) == shadings(grammars@, palettes@)[(
            GrammarV::Extension(extension@),
            theme@,
            code@,
        )],
        r matches Some(rows) ==> covers(shaded_view(rows), code@),
{
    let syntax = grammars.set.find_syntax_by_extension(extension)?;
    let mut h = HighlightLines::new(syntax, palettes.set.themes.get(theme)?);
    let rows = LinesWithEndings::from(code).map(|line| h.highlight_line(line, &grammars.set).ok());
    Some(rows.map(|row| row.map(|p| p.into_iter().map(convert_piece).collect())).collect())
}

/// Highlights with the grammar that `SyntaxSet::find_syntax_by_first_line` finds, and
/// promises what `shade_by_token` does.
#[verifier::external_body]
pub(crate) fn shade_by_opening(
    grammars: &Grammars,
    palettes: &Palettes,
    line: &str,
    theme: &str,
    code: &str,
) -> (r: Option<Vec<Option<Vec<(Shade, String)>>>>)
    ensures
        r.is_some() == (known_openings(grammars@).contains(line@) && theme_names(
            palettes@,
        ).contains(theme@)),
        r matches Some(rows) ==> shaded_view(rows) == shadings(grammars@, palettes@)[(
            GrammarV::Opening(line@),
            theme@,
            code@,
        )],
        r matches Some(rows) ==> covers(shaded_view(rows), code@),
{
    let syntax = grammars.set.find_syntax_by_first_line(line)?;
    let mut h = HighlightLines::new(syntax, palettes.set.themes.get(theme)?);
    let rows = LinesWithEndings::from(code).map(|line| h.highlight_line(line, &grammars.set).ok());
    Some(rows.map(|row| row.map(|p| p.into_iter().map(convert_piece).collect())).collect())
}

} // verus!
