//! Two drawing alphabets: one that assumes a capable terminal, one that assumes
//! nothing. Every glyph the renderer uses comes from here, so an ASCII-only
//! terminal degrades uniformly instead of ending up with half a box drawn.
use vstd::prelude::*;

use super::inline::{char_columns, columns_of, is_plain_char, plain_text_adds_up, text_width};
use crate::term::caps::UnicodeLevel;

verus! {

#[derive(Debug, Clone, Copy)]
pub struct Glyphs {
    pub bullets: [&'static str; 3],
    pub quote_bar: &'static str,
    pub rule: &'static str,
    pub heading_rule: &'static str,
    pub task_done: &'static str,
    pub task_todo: &'static str,
    pub ellipsis: &'static str,
    pub continuation: &'static str,

    // Table borders, in the order used by `table.rs`.
    pub h: &'static str,
    pub v: &'static str,
    pub top_left: &'static str,
    pub top_mid: &'static str,
    pub top_right: &'static str,
    pub mid_left: &'static str,
    pub mid_mid: &'static str,
    pub mid_right: &'static str,
    pub bottom_left: &'static str,
    pub bottom_mid: &'static str,
    pub bottom_right: &'static str,

    /// Marks an image we could not draw.
    pub image_marker: &'static str,
    pub link_marker: &'static str,
    /// Half block used by the blocks image backend.
    pub upper_half: &'static str,
}

/// The drawing alphabet of a capable terminal.
pub open spec fn unicode_glyphs() -> Glyphs {
    Glyphs {
        bullets: ["•", "◦", "▪"],
        quote_bar: "▌",
        rule: "─",
        heading_rule: "─",
        task_done: "✔",
        task_todo: "☐",
        ellipsis: "…",
        continuation: "↪",
        h: "─",
        v: "│",
        top_left: "┌",
        top_mid: "┬",
        top_right: "┐",
        mid_left: "├",
        mid_mid: "┼",
        mid_right: "┤",
        bottom_left: "└",
        bottom_mid: "┴",
        bottom_right: "┘",
        image_marker: "🖼",
        link_marker: "↗",
        upper_half: "▀",
    }
}

/// The drawing alphabet of any terminal at all.
pub open spec fn ascii_glyphs() -> Glyphs {
    Glyphs {
        bullets: ["*", "-", "+"],
        quote_bar: "|",
        rule: "-",
        heading_rule: "=",
        task_done: "x",
        task_todo: " ",
        ellipsis: "...",
        continuation: ">",
        h: "-",
        v: "|",
        top_left: "+",
        top_mid: "+",
        top_right: "+",
        mid_left: "+",
        mid_mid: "+",
        mid_right: "+",
        bottom_left: "+",
        bottom_mid: "+",
        bottom_right: "+",
        image_marker: "[img]",
        link_marker: "->",
        upper_half: "#",
    }
}

/// The drawing alphabet of a capable terminal.
pub fn unicode() -> (r: Glyphs)
    ensures
        r == unicode_glyphs(),
{
    Glyphs {
        bullets: ["•", "◦", "▪"],
        quote_bar: "▌",
        rule: "─",
        heading_rule: "─",
        task_done: "✔",
        task_todo: "☐",
        ellipsis: "…",
        continuation: "↪",
        h: "─",
        v: "│",
        top_left: "┌",
        top_mid: "┬",
        top_right: "┐",
        mid_left: "├",
        mid_mid: "┼",
        mid_right: "┤",
        bottom_left: "└",
        bottom_mid: "┴",
        bottom_right: "┘",
        image_marker: "🖼",
        link_marker: "↗",
        upper_half: "▀",
    }
}

/// The drawing alphabet of any terminal at all.
pub fn ascii() -> (r: Glyphs)
    ensures
        r == ascii_glyphs(),
{
    Glyphs {
        bullets: ["*", "-", "+"],
        quote_bar: "|",
        rule: "-",
        heading_rule: "=",
        task_done: "x",
        task_todo: " ",
        ellipsis: "...",
        continuation: ">",
        h: "-",
        v: "|",
        top_left: "+",
        top_mid: "+",
        top_right: "+",
        mid_left: "+",
        mid_mid: "+",
        mid_right: "+",
        bottom_left: "+",
        bottom_mid: "+",
        bottom_right: "+",
        image_marker: "[img]",
        link_marker: "->",
        upper_half: "#",
    }
}

/// The alphabet for a level. The extended set avoids emoji, which are double-width
/// and not universally available; only `Full` gets the picture frame.
pub open spec fn level_glyphs(level: UnicodeLevel) -> Glyphs {
    match level {
        UnicodeLevel::Ascii => ascii_glyphs(),
        UnicodeLevel::Extended => Glyphs { image_marker: "[image]", ..unicode_glyphs() },
        UnicodeLevel::Full => unicode_glyphs(),
    }
}

impl Glyphs {
    pub fn for_level(level: UnicodeLevel) -> (r: Glyphs)
        ensures
            r == level_glyphs(level),
    {
        match level {
            UnicodeLevel::Ascii => ascii(),
            UnicodeLevel::Extended => Glyphs { image_marker: "[image]", ..unicode() },
            UnicodeLevel::Full => unicode(),
        }
    }

    /// The bullet for a list nesting depth, cycling for deep nesting.
    pub fn bullet(&self, depth: usize) -> (r: &'static str)
        ensures
            r == self.bullets@[depth as int % 3],
    {
        self.bullets[depth % 3]
    }
}

/// True of text that any terminal can show.
pub open spec fn is_ascii_text(s: Seq<char>) -> bool {
    forall|k: int| 0 <= k < s.len() ==> ' ' <= #[trigger] s[k] <= '~'
}

/// The ASCII alphabet is ASCII, bullets and all.
pub proof fn ascii_glyphs_are_ascii()
    ensures
        ({
            let g = level_glyphs(UnicodeLevel::Ascii);
            &&& forall|k: int| 0 <= k < 3 ==> is_ascii_text((#[trigger] g.bullets@[k])@)
            &&& is_ascii_text(g.quote_bar@)
            &&& is_ascii_text(g.rule@)
            &&& is_ascii_text(g.heading_rule@)
            &&& is_ascii_text(g.task_done@)
            &&& is_ascii_text(g.task_todo@)
            &&& is_ascii_text(g.ellipsis@)
            &&& is_ascii_text(g.continuation@)
            &&& is_ascii_text(g.h@)
            &&& is_ascii_text(g.v@)
            &&& is_ascii_text(g.top_left@)
            &&& is_ascii_text(g.top_mid@)
            &&& is_ascii_text(g.top_right@)
            &&& is_ascii_text(g.mid_left@)
            &&& is_ascii_text(g.mid_mid@)
            &&& is_ascii_text(g.mid_right@)
            &&& is_ascii_text(g.bottom_left@)
            &&& is_ascii_text(g.bottom_mid@)
            &&& is_ascii_text(g.bottom_right@)
            &&& is_ascii_text(g.image_marker@)
            &&& is_ascii_text(g.link_marker@)
            &&& is_ascii_text(g.upper_half@)
        }),
{
    reveal_strlit("*");
    reveal_strlit("-");
    reveal_strlit("+");
    reveal_strlit("|");
    reveal_strlit("=");
    reveal_strlit("x");
    reveal_strlit(" ");
    reveal_strlit("...");
    reveal_strlit(">");
    reveal_strlit("[img]");
    reveal_strlit("->");
    reveal_strlit("#");
    let g = level_glyphs(UnicodeLevel::Ascii);
    assert(g.bullets@[0] == "*" && g.bullets@[1] == "-" && g.bullets@[2] == "+");
}

/// The extended alphabet differs from the full one in the mark of an image alone.
pub proof fn extended_avoids_the_picture_frame()
    ensures
        level_glyphs(UnicodeLevel::Extended) == (Glyphs {
            image_marker: "[image]",
            ..level_glyphs(UnicodeLevel::Full)
        }),
{
}

/// True of a glyph that is one character and takes one column.
pub open spec fn one_column(glyph: Seq<char>) -> bool {
    glyph.len() == 1 && text_width(glyph) == 1
}

proof fn lemma_one_column(glyph: Seq<char>)
    requires
        glyph.len() == 1,
        is_plain_char(glyph[0]),
        char_columns(glyph[0]) == 1,
    ensures
        one_column(glyph),
{
    assert(glyph.drop_last() =~= Seq::empty());
    assert(columns_of(Seq::empty()) == 0);
    plain_text_adds_up(glyph);
}

/// Every border and rule, and the bar beside a quote, is one column wide at every level.
pub proof fn borders_take_one_column(level: UnicodeLevel)
    ensures
        ({
            let g = level_glyphs(level);
            &&& one_column(g.quote_bar@)
            &&& one_column(g.rule@)
            &&& one_column(g.heading_rule@)
            &&& one_column(g.h@)
            &&& one_column(g.v@)
            &&& one_column(g.top_left@)
            &&& one_column(g.top_mid@)
            &&& one_column(g.top_right@)
            &&& one_column(g.mid_left@)
            &&& one_column(g.mid_mid@)
            &&& one_column(g.mid_right@)
            &&& one_column(g.bottom_left@)
            &&& one_column(g.bottom_mid@)
            &&& one_column(g.bottom_right@)
        }),
{
    reveal_strlit("-");
    lemma_one_column("-"@);
    reveal_strlit("=");
    lemma_one_column("="@);
    reveal_strlit("|");
    lemma_one_column("|"@);
    reveal_strlit("+");
    lemma_one_column("+"@);
    reveal_strlit("▌");
    lemma_one_column("▌"@);
    reveal_strlit("─");
    lemma_one_column("─"@);
    reveal_strlit("│");
    lemma_one_column("│"@);
    reveal_strlit("┌");
    lemma_one_column("┌"@);
    reveal_strlit("┬");
    lemma_one_column("┬"@);
    reveal_strlit("┐");
    lemma_one_column("┐"@);
    reveal_strlit("├");
    lemma_one_column("├"@);
    reveal_strlit("┼");
    lemma_one_column("┼"@);
    reveal_strlit("┤");
    lemma_one_column("┤"@);
    reveal_strlit("└");
    lemma_one_column("└"@);
    reveal_strlit("┴");
    lemma_one_column("┴"@);
    reveal_strlit("┘");
    lemma_one_column("┘"@);
}

} // verus!
