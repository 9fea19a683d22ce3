//! Named style roles, and the built-in light and dark themes.
//!
//! Every visual decision the renderer makes goes through a role on [`Theme`]
//! rather than a literal colour, which is what makes the whole appearance
//! swappable from a config file, and what lets the same document render sensibly
//! against a white background without a second code path.
//!
//! Themes are authored in truecolor. Degrading to 256 or 16 colours happens once,
//! at output time, in [`crate::term::style::StyleWriter`].
use vstd::prelude::*;

use crate::markdown::ir::AlertKind;
use crate::term::style::{plain_style, Color, Rgb, Style};
use crate::text;

verus! {

/// A complete visual specification.
#[derive(Debug, PartialEq)]
pub struct Theme {
    pub name: String,
    pub dark: bool,
    /// Body text. The default colour keeps the user's own foreground.
    pub text: Style,
    /// Secondary text: captions, footnote bodies, HTML remnants.
    pub muted: Style,
    /// Drawn under the top heading levels.
    pub heading_rule: Style,
    pub emphasis: Style,
    pub strong: Style,
    pub strikethrough: Style,
    pub inline_code: Style,
    pub link_text: Style,
    /// The URL shown beside a link when hyperlinks are unavailable.
    pub link_url: Style,
    pub quote_bar: Style,
    pub quote_text: Style,
    pub bullet: Style,
    pub number: Style,
    pub task_done: Style,
    pub task_todo: Style,
    /// Applied to the text of a completed task.
    pub task_done_text: Style,
    pub table_border: Style,
    pub table_header: Style,
    pub rule: Style,
    /// Line numbers in code blocks.
    pub code_gutter: Style,
    pub footnote_ref: Style,
    pub caption: Style,
    pub math: Style,
    /// The background of the overlay panels.
    pub panel: Style,
    pub status_bar: Style,
    pub status_key: Style,
    pub search_match: Style,
    pub search_current: Style,
    /// Heading styles, indexed by level minus one.
    pub headings: [Style; 6],
    /// Optional zebra striping for alternate rows.
    pub table_stripe: Option<Style>,
    pub code_block_bg: Option<Rgb>,
    /// The syntax theme used for code.
    pub syntax_theme: String,
    /// One style per alert kind: note, tip, important, warning, caution.
    pub alerts: [Style; 5],
}

/// A small, deliberately flat palette. Themes are built from these so the
/// relationships between roles stay consistent when one colour changes.
pub struct Palette {
    pub fg: Rgb,
    pub muted: Rgb,
    pub faint: Rgb,
    pub blue: Rgb,
    pub cyan: Rgb,
    pub green: Rgb,
    pub yellow: Rgb,
    pub orange: Rgb,
    pub red: Rgb,
    pub magenta: Rgb,
    pub surface: Rgb,
    pub line: Rgb,
}

/// The colours of the dark theme.
pub open spec fn dark_palette() -> Palette {
    Palette {
        fg: Rgb(0xdc, 0xe3, 0xea),
        muted: Rgb(0x8a, 0x94, 0xa3),
        faint: Rgb(0x5b, 0x64, 0x72),
        blue: Rgb(0x6f, 0xb3, 0xff),
        cyan: Rgb(0x4f, 0xd0, 0xdd),
        green: Rgb(0x7b, 0xdc, 0x8a),
        yellow: Rgb(0xf0, 0xc9, 0x5c),
        orange: Rgb(0xff, 0xa2, 0x5c),
        red: Rgb(0xff, 0x7a, 0x70),
        magenta: Rgb(0xcf, 0xa4, 0xff),
        surface: Rgb(0x1b, 0x1f, 0x27),
        line: Rgb(0x3a, 0x42, 0x50),
    }
}

fn dark_colors() -> (r: Palette)
    ensures
        r == dark_palette(),
{
    Palette {
        fg: Rgb(0xdc, 0xe3, 0xea),
        muted: Rgb(0x8a, 0x94, 0xa3),
        faint: Rgb(0x5b, 0x64, 0x72),
        blue: Rgb(0x6f, 0xb3, 0xff),
        cyan: Rgb(0x4f, 0xd0, 0xdd),
        green: Rgb(0x7b, 0xdc, 0x8a),
        yellow: Rgb(0xf0, 0xc9, 0x5c),
        orange: Rgb(0xff, 0xa2, 0x5c),
        red: Rgb(0xff, 0x7a, 0x70),
        magenta: Rgb(0xcf, 0xa4, 0xff),
        surface: Rgb(0x1b, 0x1f, 0x27),
        line: Rgb(0x3a, 0x42, 0x50),
    }
}

/// The colours of the light theme.
pub open spec fn light_palette() -> Palette {
    Palette {
        fg: Rgb(0x1f, 0x24, 0x30),
        muted: Rgb(0x5c, 0x66, 0x73),
        faint: Rgb(0x8d, 0x96, 0xa3),
        blue: Rgb(0x1a, 0x63, 0xc9),
        cyan: Rgb(0x0e, 0x7f, 0x8c),
        green: Rgb(0x1f, 0x7a, 0x3d),
        yellow: Rgb(0x8a, 0x6d, 0x00),
        orange: Rgb(0xa8, 0x57, 0x00),
        red: Rgb(0xc0, 0x34, 0x2b),
        magenta: Rgb(0x7a, 0x3f, 0xb5),
        surface: Rgb(0xf2, 0xf3, 0xf5),
        line: Rgb(0xd3, 0xd7, 0xdd),
    }
}

fn light_colors() -> (r: Palette)
    ensures
        r == light_palette(),
{
    Palette {
        fg: Rgb(0x1f, 0x24, 0x30),
        muted: Rgb(0x5c, 0x66, 0x73),
        faint: Rgb(0x8d, 0x96, 0xa3),
        blue: Rgb(0x1a, 0x63, 0xc9),
        cyan: Rgb(0x0e, 0x7f, 0x8c),
        green: Rgb(0x1f, 0x7a, 0x3d),
        yellow: Rgb(0x8a, 0x6d, 0x00),
        orange: Rgb(0xa8, 0x57, 0x00),
        red: Rgb(0xc0, 0x34, 0x2b),
        magenta: Rgb(0x7a, 0x3f, 0xb5),
        surface: Rgb(0xf2, 0xf3, 0xf5),
        line: Rgb(0xd3, 0xd7, 0xdd),
    }
}

/// True of the theme that a palette makes.
pub open spec fn is_palette_theme(t: Theme, name: Seq<char>, dark: bool, p: Palette) -> bool {
    &&& t.name@ == name
    &&& t.dark == dark
    &&& t.text == plain_style()
    &&& t.muted == (Style { fg: Color::Rgb(p.muted), ..plain_style() })
    &&& t.heading_rule == (Style { fg: Color::Rgb(p.line), ..plain_style() })
    &&& t.emphasis == (Style { italic: true, ..plain_style() })
    &&& t.strong == (Style { bold: true, ..plain_style() })
    &&& t.strikethrough == (Style { strike: true, fg: Color::Rgb(p.muted), ..plain_style() })
    &&& t.inline_code == (Style { fg: Color::Rgb(p.orange), bg: Color::Rgb(p.surface), ..plain_style() })
    &&& t.link_text == (Style { fg: Color::Rgb(p.blue), underline: true, ..plain_style() })
    &&& t.link_url == (Style { fg: Color::Rgb(p.faint), ..plain_style() })
    &&& t.quote_bar == (Style { fg: Color::Rgb(p.faint), ..plain_style() })
    &&& t.quote_text == (Style { fg: Color::Rgb(p.muted), italic: true, ..plain_style() })
    &&& t.bullet == (Style { fg: Color::Rgb(p.blue), ..plain_style() })
    &&& t.number == (Style { fg: Color::Rgb(p.blue), ..plain_style() })
    &&& t.task_done == (Style { fg: Color::Rgb(p.green), ..plain_style() })
    &&& t.task_todo == (Style { fg: Color::Rgb(p.muted), ..plain_style() })
    &&& t.task_done_text == (Style { fg: Color::Rgb(p.muted), ..plain_style() })
    &&& t.table_border == (Style { fg: Color::Rgb(p.line), ..plain_style() })
    &&& t.table_header == (Style { bold: true, fg: Color::Rgb(p.fg), ..plain_style() })
    &&& t.rule == (Style { fg: Color::Rgb(p.line), ..plain_style() })
    &&& t.code_gutter == (Style { fg: Color::Rgb(p.faint), ..plain_style() })
    &&& t.footnote_ref == (Style { fg: Color::Rgb(p.cyan), ..plain_style() })
    &&& t.caption == (Style { fg: Color::Rgb(p.muted), italic: true, ..plain_style() })
    &&& t.math == (Style { fg: Color::Rgb(p.cyan), ..plain_style() })
    &&& t.panel == (Style { bg: Color::Rgb(p.surface), ..plain_style() })
    &&& t.status_bar == (Style { fg: Color::Rgb(p.fg), bg: Color::Rgb(p.surface), ..plain_style() })
    &&& t.status_key == (Style { fg: Color::Rgb(p.blue), bg: Color::Rgb(p.surface), bold: true, ..plain_style() })
    &&& t.search_match == (Style { fg: Color::Rgb(p.surface), bg: Color::Rgb(p.yellow), ..plain_style() })
    &&& t.search_current == (Style { fg: Color::Rgb(p.surface), bg: Color::Rgb(p.orange), bold: true, ..plain_style() })
    &&& t.headings@ == seq![
        Style { fg: Color::Rgb(p.blue), bold: true, ..plain_style() },
        Style { fg: Color::Rgb(p.magenta), bold: true, ..plain_style() },
        Style { fg: Color::Rgb(p.cyan), bold: true, ..plain_style() },
        Style { fg: Color::Rgb(p.green), bold: true, ..plain_style() },
        Style { fg: Color::Rgb(p.muted), bold: true, ..plain_style() },
        Style { fg: Color::Rgb(p.muted), italic: true, ..plain_style() },
    ]
    &&& t.table_stripe is None
    &&& t.code_block_bg == Some(p.surface)
    &&& t.syntax_theme@ == (if dark {
        "base16-ocean.dark"@
    } else {
        "InspiredGitHub"@
    })
    &&& t.alerts@ == seq![
        Style { fg: Color::Rgb(p.blue), bold: true, ..plain_style() },
        Style { fg: Color::Rgb(p.green), bold: true, ..plain_style() },
        Style { fg: Color::Rgb(p.magenta), bold: true, ..plain_style() },
        Style { fg: Color::Rgb(p.yellow), bold: true, ..plain_style() },
        Style { fg: Color::Rgb(p.red), bold: true, ..plain_style() },
    ]
}

/// True of the theme that uses attributes only.
pub open spec fn is_mono_theme(t: Theme) -> bool {
    &&& t.name@ == "mono"@
    &&& t.dark
    &&& t.text == plain_style()
    &&& t.muted == (Style { dim: true, ..plain_style() })
    &&& t.heading_rule == (Style { dim: true, ..plain_style() })
    &&& t.emphasis == (Style { italic: true, ..plain_style() })
    &&& t.strong == (Style { bold: true, ..plain_style() })
    &&& t.strikethrough == (Style { strike: true, ..plain_style() })
    &&& t.inline_code == (Style { reverse: true, ..plain_style() })
    &&& t.link_text == (Style { underline: true, ..plain_style() })
    &&& t.link_url == (Style { dim: true, ..plain_style() })
    &&& t.quote_bar == (Style { dim: true, ..plain_style() })
    &&& t.quote_text == (Style { italic: true, ..plain_style() })
    &&& t.bullet == (Style { bold: true, ..plain_style() })
    &&& t.number == (Style { bold: true, ..plain_style() })
    &&& t.task_done == (Style { bold: true, ..plain_style() })
    &&& t.task_todo == (plain_style())
    &&& t.task_done_text == (Style { dim: true, strike: true, ..plain_style() })
    &&& t.table_border == (Style { dim: true, ..plain_style() })
    &&& t.table_header == (Style { bold: true, ..plain_style() })
    &&& t.rule == (Style { dim: true, ..plain_style() })
    &&& t.code_gutter == (Style { dim: true, ..plain_style() })
    &&& t.footnote_ref == (Style { bold: true, ..plain_style() })
    &&& t.caption == (Style { italic: true, dim: true, ..plain_style() })
    &&& t.math == (Style { italic: true, ..plain_style() })
    &&& t.panel == (plain_style())
    &&& t.status_bar == (Style { reverse: true, ..plain_style() })
    &&& t.status_key == (Style { reverse: true, bold: true, ..plain_style() })
    &&& t.search_match == (Style { reverse: true, ..plain_style() })
    &&& t.search_current == (Style { reverse: true, bold: true, ..plain_style() })
    &&& t.headings@ == seq![
        Style { bold: true, underline: true, ..plain_style() },
        Style { bold: true, ..plain_style() },
        Style { bold: true, ..plain_style() },
        Style { italic: true, ..plain_style() },
        Style { italic: true, ..plain_style() },
        Style { dim: true, italic: true, ..plain_style() },
    ]
    &&& t.table_stripe is None
    &&& t.code_block_bg is None
    &&& t.syntax_theme@ == "ansi"@
    &&& t.alerts@ == Seq::new(5, |i: int| Style { bold: true, ..plain_style() })
}

/// Where an alert kind's style stands in [`Theme::alerts`].
pub open spec fn alert_index(kind: AlertKind) -> int {
    match kind {
        AlertKind::Note => 0,
        AlertKind::Tip => 1,
        AlertKind::Important => 2,
        AlertKind::Warning => 3,
        AlertKind::Caution => 4,
    }
}

/// Where a heading level's style stands in [`Theme::headings`], out-of-range levels
/// clamped.
pub open spec fn heading_index(level: u8) -> int {
    if level < 1 {
        0
    } else if level > 6 {
        5
    } else {
        level - 1
    }
}

impl Theme {
    /// The default dark theme.
    pub fn dark() -> (r: Theme)
        ensures
            is_palette_theme(r, "dark"@, true, dark_palette()),
    {
        Self::from_palette("dark", true, &dark_colors())
    }

    /// The default light theme.
    pub fn light() -> (r: Theme)
        ensures
            is_palette_theme(r, "light"@, false, light_palette()),
    {
        Self::from_palette("light", false, &light_colors())
    }

    /// Picks a built-in theme by name, or `None` if there is no such theme.
    pub fn builtin(name: &str) -> (r: Option<Theme>)
        ensures
            match r {
                Some(t) => is_builtin(t, name@),
                None => !is_builtin_name(name@),
            },
    {
        if text::same(name, "dark") {
            Some(Self::dark())
        } else if text::same(name, "light") {
            Some(Self::light())
        } else if text::same(name, "mono") {
            Some(Self::mono())
        } else {
            None
        }
    }

    pub fn builtin_names() -> (r: [&'static str; 3])
        ensures
            r@[0]@ == "dark"@ && r@[1]@ == "light"@ && r@[2]@ == "mono"@,
    {
        ["dark", "light", "mono"]
    }

    /// Attributes only: for terminals or users that want no colour at all, while
    /// keeping the structural cues that bold and underline provide.
    pub fn mono() -> (r: Theme)
        ensures
            is_mono_theme(r),
    {
        let r = Theme {
            name: text::owned("mono"),
            dark: true,
            text: Style::plain(),
            muted: Style::plain().dim(),
            heading_rule: Style::plain().dim(),
            emphasis: Style::plain().italic(),
            strong: Style::plain().bold(),
            strikethrough: Style::plain().strike(),
            inline_code: Style::plain().reverse(),
            link_text: Style::plain().underline(),
            link_url: Style::plain().dim(),
            quote_bar: Style::plain().dim(),
            quote_text: Style::plain().italic(),
            bullet: Style::plain().bold(),
            number: Style::plain().bold(),
            task_done: Style::plain().bold(),
            task_todo: Style::plain(),
            task_done_text: Style::plain().dim().strike(),
            table_border: Style::plain().dim(),
            table_header: Style::plain().bold(),
            rule: Style::plain().dim(),
            code_gutter: Style::plain().dim(),
            footnote_ref: Style::plain().bold(),
            caption: Style::plain().italic().dim(),
            math: Style::plain().italic(),
            panel: Style::plain(),
            status_bar: Style::plain().reverse(),
            status_key: Style::plain().reverse().bold(),
            search_match: Style::plain().reverse(),
            search_current: Style::plain().reverse().bold(),
            headings: [
                Style::plain().bold().underline(),
                Style::plain().bold(),
                Style::plain().bold(),
                Style::plain().italic(),
                Style::plain().italic(),
                Style::plain().dim().italic(),
            ],
            table_stripe: None,
            code_block_bg: None,
            syntax_theme: text::owned("ansi"),
            alerts: [
                Style::plain().bold(),
                Style::plain().bold(),
                Style::plain().bold(),
                Style::plain().bold(),
                Style::plain().bold(),
            ],
        };
        assert(r.headings@ =~= seq![
            Style { bold: true, underline: true, ..plain_style() },
            Style { bold: true, ..plain_style() },
            Style { bold: true, ..plain_style() },
            Style { italic: true, ..plain_style() },
            Style { italic: true, ..plain_style() },
            Style { dim: true, italic: true, ..plain_style() },
        ]);
        assert(r.alerts@ =~= Seq::new(5, |i: int| Style { bold: true, ..plain_style() }));
        r
    }

    fn from_palette(name: &str, dark: bool, p: &Palette) -> (r: Theme)
        ensures
            is_palette_theme(r, name@, dark, *p),
    {
        let r = Theme {
            name: text::owned(name),
            dark,
            text: Style::plain(),
            muted: Style::plain().fg(Color::Rgb(p.muted)),
            heading_rule: Style::plain().fg(Color::Rgb(p.line)),
            emphasis: Style::plain().italic(),
            strong: Style::plain().bold(),
            strikethrough: Style::plain().strike().fg(Color::Rgb(p.muted)),
            inline_code: Style::plain().fg(Color::Rgb(p.orange)).bg(Color::Rgb(p.surface)),
            link_text: Style::plain().fg(Color::Rgb(p.blue)).underline(),
            link_url: Style::plain().fg(Color::Rgb(p.faint)),
            quote_bar: Style::plain().fg(Color::Rgb(p.faint)),
            quote_text: Style::plain().fg(Color::Rgb(p.muted)).italic(),
            bullet: Style::plain().fg(Color::Rgb(p.blue)),
            number: Style::plain().fg(Color::Rgb(p.blue)),
            task_done: Style::plain().fg(Color::Rgb(p.green)),
            task_todo: Style::plain().fg(Color::Rgb(p.muted)),
            task_done_text: Style::plain().fg(Color::Rgb(p.muted)),
            table_border: Style::plain().fg(Color::Rgb(p.line)),
            table_header: Style::plain().bold().fg(Color::Rgb(p.fg)),
            rule: Style::plain().fg(Color::Rgb(p.line)),
            code_gutter: Style::plain().fg(Color::Rgb(p.faint)),
            footnote_ref: Style::plain().fg(Color::Rgb(p.cyan)),
            caption: Style::plain().fg(Color::Rgb(p.muted)).italic(),
            math: Style::plain().fg(Color::Rgb(p.cyan)),
            panel: Style::plain().bg(Color::Rgb(p.surface)),
            status_bar: Style::plain().fg(Color::Rgb(p.fg)).bg(Color::Rgb(p.surface)),
            status_key: Style::plain().fg(Color::Rgb(p.blue)).bg(Color::Rgb(p.surface)).bold(),
            search_match: Style::plain().fg(Color::Rgb(p.surface)).bg(Color::Rgb(p.yellow)),
            search_current: Style::plain().fg(Color::Rgb(p.surface)).bg(Color::Rgb(p.orange)).bold(),
            // Headings step down in weight rather than cycling hues at random: the
            // first two carry the accent, the rest recede.
            headings: [
                Style::plain().fg(Color::Rgb(p.blue)).bold(),
                Style::plain().fg(Color::Rgb(p.magenta)).bold(),
                Style::plain().fg(Color::Rgb(p.cyan)).bold(),
                Style::plain().fg(Color::Rgb(p.green)).bold(),
                Style::plain().fg(Color::Rgb(p.muted)).bold(),
                Style::plain().fg(Color::Rgb(p.muted)).italic(),
            ],
            table_stripe: None,
            code_block_bg: Some(p.surface),
            syntax_theme: text::owned(
                if dark {
                    "base16-ocean.dark"
                } else {
                    "InspiredGitHub"
                },
            ),
            alerts: [
                Style::plain().fg(Color::Rgb(p.blue)).bold(),
                Style::plain().fg(Color::Rgb(p.green)).bold(),
                Style::plain().fg(Color::Rgb(p.magenta)).bold(),
                Style::plain().fg(Color::Rgb(p.yellow)).bold(),
                Style::plain().fg(Color::Rgb(p.red)).bold(),
            ],
        };
        assert(r.headings@ =~= seq![
            Style { fg: Color::Rgb(p.blue), bold: true, ..plain_style() },
            Style { fg: Color::Rgb(p.magenta), bold: true, ..plain_style() },
            Style { fg: Color::Rgb(p.cyan), bold: true, ..plain_style() },
            Style { fg: Color::Rgb(p.green), bold: true, ..plain_style() },
            Style { fg: Color::Rgb(p.muted), bold: true, ..plain_style() },
            Style { fg: Color::Rgb(p.muted), italic: true, ..plain_style() },
        ]);
        assert(r.alerts@ =~= seq![
            Style { fg: Color::Rgb(p.blue), bold: true, ..plain_style() },
            Style { fg: Color::Rgb(p.green), bold: true, ..plain_style() },
            Style { fg: Color::Rgb(p.magenta), bold: true, ..plain_style() },
            Style { fg: Color::Rgb(p.yellow), bold: true, ..plain_style() },
            Style { fg: Color::Rgb(p.red), bold: true, ..plain_style() },
        ]);
        r
    }

    /// The style for an alert kind.
    pub fn alert(&self, kind: AlertKind) -> (r: Style)
        ensures
            r == self.alerts@[alert_index(kind)],
    {
        match kind {
            AlertKind::Note => self.alerts[0],
            AlertKind::Tip => self.alerts[1],
            AlertKind::Important => self.alerts[2],
            AlertKind::Warning => self.alerts[3],
            AlertKind::Caution => self.alerts[4],
        }
    }

    /// The style for a heading level, clamping out-of-range levels.
    pub fn heading(&self, level: u8) -> (r: Style)
        ensures
            r == self.headings@[heading_index(level)],
    {
        let index: usize = if level < 1 {
            0
        } else if level > 6 {
            5
        } else {
            (level - 1) as usize
        };
        self.headings[index]
    }
}

pub open spec fn is_builtin_name(name: Seq<char>) -> bool {
    name == "dark"@ || name == "light"@ || name == "mono"@
}

/// True of the built-in theme of that name.
pub open spec fn is_builtin(t: Theme, name: Seq<char>) -> bool {
    ||| name == "dark"@ && is_palette_theme(t, "dark"@, true, dark_palette())
    ||| name == "light"@ && is_palette_theme(t, "light"@, false, light_palette())
    ||| name == "mono"@ && is_mono_theme(t)
}

// --- roles ------------------------------------------------------------------

/// The heading roles a theme file may set.
pub open spec fn is_heading_role(role: Seq<char>) -> bool {
    ||| role == "h1"@
    ||| role == "h2"@
    ||| role == "h3"@
    ||| role == "h4"@
    ||| role == "h5"@
    ||| role == "h6"@
}

/// The alert roles a theme file may set.
pub open spec fn is_alert_role(role: Seq<char>) -> bool {
    ||| role == "note"@
    ||| role == "tip"@
    ||| role == "important"@
    ||| role == "warning"@
    ||| role == "caution"@
}

/// The other roles a theme file may set.
pub open spec fn is_plain_role(role: Seq<char>) -> bool {
    ||| role == "heading_rule"@
    ||| role == "text"@
    ||| role == "muted"@
    ||| role == "emphasis"@
    ||| role == "strong"@
    ||| role == "strikethrough"@
    ||| role == "inline_code"@
    ||| role == "link_text"@
    ||| role == "link_url"@
    ||| role == "quote_bar"@
    ||| role == "quote_text"@
    ||| role == "bullet"@
    ||| role == "number"@
    ||| role == "task_done"@
    ||| role == "task_todo"@
    ||| role == "task_done_text"@
    ||| role == "table_border"@
    ||| role == "table_header"@
    ||| role == "rule"@
    ||| role == "code_gutter"@
    ||| role == "footnote_ref"@
    ||| role == "caption"@
    ||| role == "math"@
    ||| role == "panel"@
    ||| role == "status_bar"@
    ||| role == "status_key"@
    ||| role == "search_match"@
    ||| role == "search_current"@
}

/// The roles that always have a style.
pub open spec fn is_role(role: Seq<char>) -> bool {
    is_heading_role(role) || is_alert_role(role) || is_plain_role(role)
}

/// The style a theme gives a role.
pub open spec fn role_style(t: Theme, role: Seq<char>) -> Style {
    if role == "h1"@ {
        t.headings@[0]
    } else if role == "h2"@ {
        t.headings@[1]
    } else if role == "h3"@ {
        t.headings@[2]
    } else if role == "h4"@ {
        t.headings@[3]
    } else if role == "h5"@ {
        t.headings@[4]
    } else if role == "h6"@ {
        t.headings@[5]
    } else if role == "note"@ {
        t.alerts@[0]
    } else if role == "tip"@ {
        t.alerts@[1]
    } else if role == "important"@ {
        t.alerts@[2]
    } else if role == "warning"@ {
        t.alerts@[3]
    } else if role == "caution"@ {
        t.alerts@[4]
    } else if role == "heading_rule"@ {
        t.heading_rule
    } else if role == "text"@ {
        t.text
    } else if role == "muted"@ {
        t.muted
    } else if role == "emphasis"@ {
        t.emphasis
    } else if role == "strong"@ {
        t.strong
    } else if role == "strikethrough"@ {
        t.strikethrough
    } else if role == "inline_code"@ {
        t.inline_code
    } else if role == "link_text"@ {
        t.link_text
    } else if role == "link_url"@ {
        t.link_url
    } else if role == "quote_bar"@ {
        t.quote_bar
    } else if role == "quote_text"@ {
        t.quote_text
    } else if role == "bullet"@ {
        t.bullet
    } else if role == "number"@ {
        t.number
    } else if role == "task_done"@ {
        t.task_done
    } else if role == "task_todo"@ {
        t.task_todo
    } else if role == "task_done_text"@ {
        t.task_done_text
    } else if role == "table_border"@ {
        t.table_border
    } else if role == "table_header"@ {
        t.table_header
    } else if role == "rule"@ {
        t.rule
    } else if role == "code_gutter"@ {
        t.code_gutter
    } else if role == "footnote_ref"@ {
        t.footnote_ref
    } else if role == "caption"@ {
        t.caption
    } else if role == "math"@ {
        t.math
    } else if role == "panel"@ {
        t.panel
    } else if role == "status_bar"@ {
        t.status_bar
    } else if role == "status_key"@ {
        t.status_key
    } else if role == "search_match"@ {
        t.search_match
    } else if role == "search_current"@ {
        t.search_current
    } else {
        plain_style()
    }
}

/// A theme's styles, by role. `table_stripe` is not among them: it is the one role
/// that can be switched off entirely.
pub open spec fn roles(t: Theme) -> Map<Seq<char>, Style> {
    Map::new(|role: Seq<char>| is_role(role), |role: Seq<char>| role_style(t, role))
}

/// True when two themes differ in the styles of their roles at most.
pub open spec fn same_settings(a: Theme, b: Theme) -> bool {
    a.name == b.name && a.dark == b.dark && a.syntax_theme == b.syntax_theme && a.code_block_bg
        == b.code_block_bg && a.table_stripe == b.table_stripe
}

/// Every role a theme file may set.
#[verifier::opaque]
pub open spec fn role_list() -> Seq<Seq<char>> {
    seq![
        "h1"@,
        "h2"@,
        "h3"@,
        "h4"@,
        "h5"@,
        "h6"@,
        "heading_rule"@,
        "text"@,
        "muted"@,
        "emphasis"@,
        "strong"@,
        "strikethrough"@,
        "inline_code"@,
        "link_text"@,
        "link_url"@,
        "quote_bar"@,
        "quote_text"@,
        "bullet"@,
        "number"@,
        "task_done"@,
        "task_todo"@,
        "task_done_text"@,
        "table_border"@,
        "table_header"@,
        "table_stripe"@,
        "rule"@,
        "code_gutter"@,
        "footnote_ref"@,
        "caption"@,
        "math"@,
        "note"@,
        "tip"@,
        "important"@,
        "warning"@,
        "caution"@,
        "panel"@,
        "status_bar"@,
        "status_key"@,
        "search_match"@,
        "search_current"@,
    ]
}

/// Every role a theme file may set, for error messages.
pub fn role_names() -> (r: [&'static str; 40])
    ensures
        role_list().len() == 40,
        forall|i: int| 0 <= i < 40 ==> (#[trigger] r@[i])@ == role_list()[i],
{
    reveal(role_list);
    [
        "h1",
        "h2",
        "h3",
        "h4",
        "h5",
        "h6",
        "heading_rule",
        "text",
        "muted",
        "emphasis",
        "strong",
        "strikethrough",
        "inline_code",
        "link_text",
        "link_url",
        "quote_bar",
        "quote_text",
        "bullet",
        "number",
        "task_done",
        "task_todo",
        "task_done_text",
        "table_border",
        "table_header",
        "table_stripe",
        "rule",
        "code_gutter",
        "footnote_ref",
        "caption",
        "math",
        "note",
        "tip",
        "important",
        "warning",
        "caution",
        "panel",
        "status_bar",
        "status_key",
        "search_match",
        "search_current",
    ]
}

/// The roles that are listed are those that can be set.
pub proof fn the_listed_roles_exist(i: int)
    requires
        0 <= i < role_list().len(),
    ensures
        is_role(role_list()[i]) || role_list()[i] == "table_stripe"@,
{
    reveal(role_list);
}

fn roles_text() -> (r: String)
    ensures
        r@ == text::join(role_list(), ", "@),
{
    let names = role_names();
    let mut list: Vec<String> = Vec::new();
    for i in 0..40usize
        invariant
            role_list().len() == 40,
            forall|k: int| 0 <= k < 40 ==> (#[trigger] names@[k])@ == role_list()[k],
            list.len() == i,
            forall|k: int| 0 <= k < i ==> (#[trigger] list@[k])@ == role_list()[k],
    {
        list.push(text::owned(names[i]));
    }
    assert(text::views(list@) =~= role_list());
    text::joined(&list, ", ")
}

impl Theme {
    /// Sets a heading role, if it is one.
    fn set_heading(&mut self, role: &str, style: Style) -> (known: bool)
        ensures
            known == is_heading_role(role@),
            known ==> roles(*final(self)) == roles(*old(self)).insert(role@, style),
            !known ==> *final(self) == *old(self),
            same_settings(*final(self), *old(self)),
    {
        if text::same(role, "h1") {
            self.headings[0] = style;
        } else if text::same(role, "h2") {
            self.headings[1] = style;
        } else if text::same(role, "h3") {
            self.headings[2] = style;
        } else if text::same(role, "h4") {
            self.headings[3] = style;
        } else if text::same(role, "h5") {
            self.headings[4] = style;
        } else if text::same(role, "h6") {
            self.headings[5] = style;
        } else {
            return false;
        }
        assert(roles(*self) =~= roles(*old(self)).insert(role@, style));
        true
    }

    /// Sets an alert role, if it is one.
    fn set_alert(&mut self, role: &str, style: Style) -> (known: bool)
        requires
            !is_heading_role(role@),
        ensures
            known == is_alert_role(role@),
            known ==> roles(*final(self)) == roles(*old(self)).insert(role@, style),
            !known ==> *final(self) == *old(self),
            same_settings(*final(self), *old(self)),
    {
        if text::same(role, "note") {
            self.alerts[0] = style;
        } else if text::same(role, "tip") {
            self.alerts[1] = style;
        } else if text::same(role, "important") {
            self.alerts[2] = style;
        } else if text::same(role, "warning") {
            self.alerts[3] = style;
        } else if text::same(role, "caution") {
            self.alerts[4] = style;
        } else {
            return false;
        }
        assert(roles(*self) =~= roles(*old(self)).insert(role@, style));
        true
    }

    /// Sets one of the other roles, if it is one.
    fn set_plain(&mut self, role: &str, style: Style) -> (known: bool)
        requires
            !is_heading_role(role@),
            !is_alert_role(role@),
        ensures
            known == is_plain_role(role@),
            known ==> roles(*final(self)) == roles(*old(self)).insert(role@, style),
            !known ==> *final(self) == *old(self),
            same_settings(*final(self), *old(self)),
    {
        if text::same(role, "heading_rule") {
            self.heading_rule = style;
        } else if text::same(role, "text") {
            self.text = style;
        } else if text::same(role, "muted") {
            self.muted = style;
        } else if text::same(role, "emphasis") {
            self.emphasis = style;
        } else if text::same(role, "strong") {
            self.strong = style;
        } else if text::same(role, "strikethrough") {
            self.strikethrough = style;
        } else if text::same(role, "inline_code") {
            self.inline_code = style;
        } else if text::same(role, "link_text") {
            self.link_text = style;
        } else if text::same(role, "link_url") {
            self.link_url = style;
        } else if text::same(role, "quote_bar") {
            self.quote_bar = style;
        } else if text::same(role, "quote_text") {
            self.quote_text = style;
        } else if text::same(role, "bullet") {
            self.bullet = style;
        } else if text::same(role, "number") {
            self.number = style;
        } else if text::same(role, "task_done") {
            self.task_done = style;
        } else if text::same(role, "task_todo") {
            self.task_todo = style;
        } else if text::same(role, "task_done_text") {
            self.task_done_text = style;
        } else if text::same(role, "table_border") {
            self.table_border = style;
        } else if text::same(role, "table_header") {
            self.table_header = style;
        } else if text::same(role, "rule") {
            self.rule = style;
        } else if text::same(role, "code_gutter") {
            self.code_gutter = style;
        } else if text::same(role, "footnote_ref") {
            self.footnote_ref = style;
        } else if text::same(role, "caption") {
            self.caption = style;
        } else if text::same(role, "math") {
            self.math = style;
        } else if text::same(role, "panel") {
            self.panel = style;
        } else if text::same(role, "status_bar") {
            self.status_bar = style;
        } else if text::same(role, "status_key") {
            self.status_key = style;
        } else if text::same(role, "search_match") {
            self.search_match = style;
        } else if text::same(role, "search_current") {
            self.search_current = style;
        } else {
            return false;
        }
        assert(roles(*self) =~= roles(*old(self)).insert(role@, style));
        true
    }
}

// --- style specs --------------------------------------------------------------

/// Why a style could not be read or applied.
#[derive(Debug, PartialEq)]
pub enum StyleError {
    /// `on` at the end of a spec, with no colour after it.
    DanglingOn(String),
    BadIndex(String),
    UnknownColor(String),
    UnknownRole(String),
}

pub enum StyleErrorV {
    DanglingOn(Seq<char>),
    BadIndex(Seq<char>),
    UnknownColor(Seq<char>),
    UnknownRole(Seq<char>),
}

impl View for StyleError {
    type V = StyleErrorV;

    open spec fn view(&self) -> StyleErrorV {
        match *self {
            StyleError::DanglingOn(t) => StyleErrorV::DanglingOn(t@),
            StyleError::BadIndex(t) => StyleErrorV::BadIndex(t@),
            StyleError::UnknownColor(t) => StyleErrorV::UnknownColor(t@),
            StyleError::UnknownRole(t) => StyleErrorV::UnknownRole(t@),
        }
    }
}

/// What the user is told about a style.
pub open spec fn style_complaint(e: StyleErrorV) -> Seq<char> {
    match e {
        StyleErrorV::DanglingOn(t) => "`on` must be followed by a colour in "@ + text::quoted_text(
            t,
        ),
        StyleErrorV::BadIndex(t) => "bad palette index "@ + text::quoted_text(t),
        StyleErrorV::UnknownColor(t) => "unknown colour "@ + text::quoted_text(t),
        StyleErrorV::UnknownRole(t) => "unknown theme role "@ + text::quoted_text(t),
    }
}

fn naming(what: &str, name: &str) -> (r: String)
    ensures
        r@ == what@ + text::quoted_text(name@),
{
    let mut s = text::owned(what);
    s.push_str(&text::quoted(name));
    s
}

impl StyleError {
    /// What the user is told.
    pub fn message(&self) -> (r: String)
        ensures
            r@ == style_complaint(self@),
    {
        match self {
            StyleError::DanglingOn(t) => naming("`on` must be followed by a colour in ", t),
            StyleError::BadIndex(t) => naming("bad palette index ", t),
            StyleError::UnknownColor(t) => naming("unknown colour ", t),
            StyleError::UnknownRole(t) => naming("unknown theme role ", t),
        }
    }
}

/// A result with its error as a value.
pub open spec fn outcome<T>(r: Result<T, StyleError>) -> Result<T, StyleErrorV> {
    match r {
        Ok(v) => Ok(v),
        Err(e) => Err(e@),
    }
}

/// The palette index of a named colour; names are compared in lower case.
pub open spec fn named_color(low: Seq<char>) -> Option<u8> {
    if low == "black"@ {
        Some(0)
    } else if low == "red"@ {
        Some(1)
    } else if low == "green"@ {
        Some(2)
    } else if low == "yellow"@ {
        Some(3)
    } else if low == "blue"@ {
        Some(4)
    } else if low == "magenta"@ {
        Some(5)
    } else if low == "cyan"@ {
        Some(6)
    } else if low == "white"@ {
        Some(7)
    } else if low == "bright-black"@ {
        Some(8)
    } else if low == "gray"@ {
        Some(8)
    } else if low == "grey"@ {
        Some(8)
    } else if low == "bright-red"@ {
        Some(9)
    } else if low == "bright-green"@ {
        Some(10)
    } else if low == "bright-yellow"@ {
        Some(11)
    } else if low == "bright-blue"@ {
        Some(12)
    } else if low == "bright-magenta"@ {
        Some(13)
    } else if low == "bright-cyan"@ {
        Some(14)
    } else if low == "bright-white"@ {
        Some(15)
    } else {
        None
    }
}

/// The colour a token names: hexadecimal, `@n` for the user's own palette, or a name.
pub open spec fn color_of(token: Seq<char>) -> Result<Color, StyleErrorV> {
    match Rgb::parsed(token) {
        Some(rgb) => Ok(Color::Rgb(rgb)),
        None => if token.len() > 0 && token[0] == '@' {
            match text::parse_number(token.drop_first(), 10, 255) {
                Some(n) => Ok(Color::Indexed(n as u8)),
                None => Err(StyleErrorV::BadIndex(token)),
            }
        } else {
            match named_color(text::lower(token)) {
                Some(i) => Ok(Color::Indexed(i)),
                None => Err(StyleErrorV::UnknownColor(token)),
            }
        },
    }
}

fn find_named(low: &str) -> (r: Option<u8>)
    ensures
        r == named_color(low@),
{
    if text::same(&low, "black") {
        Some(0)
    } else if text::same(&low, "red") {
        Some(1)
    } else if text::same(&low, "green") {
        Some(2)
    } else if text::same(&low, "yellow") {
        Some(3)
    } else if text::same(&low, "blue") {
        Some(4)
    } else if text::same(&low, "magenta") {
        Some(5)
    } else if text::same(&low, "cyan") {
        Some(6)
    } else if text::same(&low, "white") {
        Some(7)
    } else if text::same(&low, "bright-black") {
        Some(8)
    } else if text::same(&low, "gray") {
        Some(8)
    } else if text::same(&low, "grey") {
        Some(8)
    } else if text::same(&low, "bright-red") {
        Some(9)
    } else if text::same(&low, "bright-green") {
        Some(10)
    } else if text::same(&low, "bright-yellow") {
        Some(11)
    } else if text::same(&low, "bright-blue") {
        Some(12)
    } else if text::same(&low, "bright-magenta") {
        Some(13)
    } else if text::same(&low, "bright-cyan") {
        Some(14)
    } else if text::same(&low, "bright-white") {
        Some(15)
    } else {
        None
    }
}

pub fn parse_color(tok: &str) -> (r: Result<Color, StyleError>)
    ensures
        outcome(r) == color_of(tok@),
{
    match Rgb::parse(tok) {
        Some(rgb) => {
            return Ok(Color::Rgb(rgb));
        },
        None => {},
    }
    let v = text::chars_of(tok);
    if v.len() > 0 && v[0] == '@' {
        // @0..@255 addresses the user's own palette rather than a fixed colour.
        assert(v@.subrange(1, v@.len() as int) =~= tok@.drop_first());
        return match text::number_at(&v, 1, v.len(), 10, 255) {
            Some(n) => Ok(Color::Indexed(n as u8)),
            None => Err(StyleError::BadIndex(text::owned(tok))),
        };
    }
    let low = text::string_of(&text::lowered(&v));
    match find_named(&low) {
        Some(i) => Ok(Color::Indexed(i)),
        None => Err(StyleError::UnknownColor(text::owned(tok))),
    }
}

/// What one word of a style spec does to a style, or `None` if it is not an
/// attribute.
pub open spec fn with_attribute(style: Style, low: Seq<char>) -> Option<Style> {
    if low == "none"@ || low == "default"@ {
        Some(style)
    } else if low == "bold"@ {
        Some(Style { bold: true, ..style })
    } else if low == "dim"@ || low == "faint"@ {
        Some(Style { dim: true, ..style })
    } else if low == "italic"@ {
        Some(Style { italic: true, ..style })
    } else if low == "underline"@ {
        Some(Style { underline: true, ..style })
    } else if low == "strike"@ || low == "strikethrough"@ {
        Some(Style { strike: true, ..style })
    } else if low == "reverse"@ || low == "inverse"@ {
        Some(Style { reverse: true, ..style })
    } else {
        None
    }
}

/// The style that the words from `k` on make of `style`.
pub open spec fn style_from(
    spec_text: Seq<char>,
    words: Seq<Seq<char>>,
    k: int,
    style: Style,
) -> Result<Style, StyleErrorV>
    decreases words.len() - k,
{
    if k < 0 || k >= words.len() {
        Ok(style)
    } else {
        let low = text::lower(words[k]);
        match with_attribute(style, low) {
            Some(s) => style_from(spec_text, words, k + 1, s),
            None => if low == "on"@ {
                if k + 1 >= words.len() {
                    Err(StyleErrorV::DanglingOn(spec_text))
                } else {
                    match color_of(words[k + 1]) {
                        Ok(c) => style_from(spec_text, words, k + 2, Style { bg: c, ..style }),
                        Err(e) => Err(e),
                    }
                }
            } else {
                match color_of(words[k]) {
                    Ok(c) => style_from(spec_text, words, k + 1, Style { fg: c, ..style }),
                    Err(e) => Err(e),
                }
            },
        }
    }
}

/// The style that a spec describes.
pub open spec fn style_of(spec_text: Seq<char>) -> Result<Style, StyleErrorV> {
    style_from(spec_text, text::words(spec_text), 0, plain_style())
}

fn apply_attribute(style: Style, low: &str) -> (r: Option<Style>)
    ensures
        r == with_attribute(style, low@),
{
    if text::same(low, "none") || text::same(low, "default") {
        Some(style)
    } else if text::same(low, "bold") {
        Some(style.bold())
    } else if text::same(low, "dim") || text::same(low, "faint") {
        Some(style.dim())
    } else if text::same(low, "italic") {
        Some(style.italic())
    } else if text::same(low, "underline") {
        Some(style.underline())
    } else if text::same(low, "strike") || text::same(low, "strikethrough") {
        Some(style.strike())
    } else if text::same(low, "reverse") || text::same(low, "inverse") {
        Some(style.reverse())
    } else {
        None
    }
}

/// Parses a style spec: a colour and any number of attributes, in any order.
///
/// ```text
/// "#6fb3ff bold"          foreground and an attribute
/// "bold underline"        attributes only, inheriting the colour
/// "#fff on #333 italic"   explicit background
/// "none"                  no styling at all
/// ```
pub fn parse_style(spec_text: &str) -> (r: Result<Style, StyleError>)
    ensures
        outcome(r) == style_of(spec_text@),
{
    let tokens = text::words_of(spec_text);
    let ghost words = text::views(tokens@);
    let n: usize = tokens.len();
    let mut style = Style::plain();
    let mut k: usize = 0;
    while k < n
        invariant
            n == tokens.len(),
            k <= n,
            words == text::views(tokens@),
            words == text::words(spec_text@),
            style_from(spec_text@, words, k as int, style) == style_of(spec_text@),
        decreases n - k,
    {
        assert(words[k as int] == tokens@[k as int]@);
        let low = text::string_of(&text::lowered(&text::chars_of(&tokens[k])));
        match apply_attribute(style, &low) {
            Some(s) => {
                style = s;
                k = k + 1;
            },
            None => {
                if text::same(&low, "on") {
                    if k + 1 >= n {
                        return Err(StyleError::DanglingOn(text::owned(spec_text)));
                    }
                    assert(words[k + 1] == tokens@[k + 1]@);
                    match parse_color(&tokens[k + 1]) {
                        Ok(c) => {
                            style = style.bg(c);
                            k = k + 2;
                        },
                        Err(e) => {
                            return Err(e);
                        },
                    }
                } else {
                    match parse_color(&tokens[k]) {
                        Ok(c) => {
                            style = style.fg(c);
                            k = k + 1;
                        },
                        Err(e) => {
                            return Err(e);
                        },
                    }
                }
            },
        }
    }
    Ok(style)
}

// --- theme files ----------------------------------------------------------------

/// What a theme's own entries decide: the styles of its roles, and the stripe.
pub struct Look {
    pub roles: Map<Seq<char>, Style>,
    pub stripe: Option<Style>,
}

/// The look of a theme.
pub open spec fn look(t: Theme) -> Look {
    Look { roles: roles(t), stripe: t.table_stripe }
}

/// What one `role = "style"` entry makes of a look.
pub open spec fn with_entry(l: Look, role: Seq<char>, spec_text: Seq<char>) -> Result<
    Look,
    StyleErrorV,
> {
    if role == "table_stripe"@ {
        if text::lower(spec_text) == "none"@ {
            Ok(Look { stripe: None, ..l })
        } else {
            match style_of(spec_text) {
                Ok(s) => Ok(Look { stripe: Some(s), ..l }),
                Err(e) => Err(e),
            }
        }
    } else if is_role(role) {
        match style_of(spec_text) {
            Ok(s) => Ok(Look { roles: l.roles.insert(role, s), ..l }),
            Err(e) => Err(e),
        }
    } else {
        Err(StyleErrorV::UnknownRole(role))
    }
}

fn is_known_role(role: &str) -> (r: bool)
    ensures
        r == is_role(role@),
{
    text::same(role, "h1") || text::same(role, "h2") || text::same(role, "h3") || text::same(role, "h4") || text::same(role, "h5") || text::same(role, "h6") || text::same(role, "note") || text::same(role, "tip") || text::same(role, "important") || text::same(role, "warning") || text::same(role, "caution") || text::same(role, "heading_rule") || text::same(role, "text") || text::same(role, "muted") || text::same(role, "emphasis") || text::same(role, "strong") || text::same(role, "strikethrough") || text::same(role, "inline_code") || text::same(role, "link_text") || text::same(role, "link_url") || text::same(role, "quote_bar") || text::same(role, "quote_text") || text::same(role, "bullet") || text::same(role, "number") || text::same(role, "task_done") || text::same(role, "task_todo") || text::same(role, "task_done_text") || text::same(role, "table_border") || text::same(role, "table_header") || text::same(role, "rule") || text::same(role, "code_gutter") || text::same(role, "footnote_ref") || text::same(role, "caption") || text::same(role, "math") || text::same(role, "panel") || text::same(role, "status_bar") || text::same(role, "status_key") || text::same(role, "search_match") || text::same(role, "search_current")
}

impl Theme {
    /// Applies one `role = "style"` entry.
    pub fn set_role(&mut self, role: &str, spec_text: &str) -> (r: Result<(), StyleError>)
        ensures
            match with_entry(look(*old(self)), role@, spec_text@) {
                Ok(l) => r is Ok && look(*final(self)) == l,
                Err(e) => r matches Err(x) && x@ == e && *final(self) == *old(self),
            },
            final(self).name == old(self).name,
            final(self).dark == old(self).dark,
            final(self).syntax_theme == old(self).syntax_theme,
            final(self).code_block_bg == old(self).code_block_bg,
    {
        if text::same(role, "table_stripe") {
            let low = text::string_of(&text::lowered(&text::chars_of(spec_text)));
            if text::same(&low, "none") {
                self.table_stripe = None;
            } else {
                match parse_style(spec_text) {
                    Ok(s) => {
                        self.table_stripe = Some(s);
                    },
                    Err(e) => {
                        return Err(e);
                    },
                }
            }
            assert(roles(*self) =~= roles(*old(self)));
            return Ok(());
        }
        if !is_known_role(role) {
            return Err(StyleError::UnknownRole(text::owned(role)));
        }
        match parse_style(spec_text) {
            Ok(style) => {
                if !self.set_heading(role, style) {
                    if !self.set_alert(role, style) {
                        self.set_plain(role, style);
                    }
                }
                Ok(())
            },
            Err(e) => Err(e),
        }
    }
}

/// A theme file, as it was read.
#[derive(Debug)]
pub struct ThemeFile {
    pub name: Option<String>,
    pub base: Option<String>,
    pub dark: Option<bool>,
    pub syntax_theme: Option<String>,
    pub code_block_bg: Option<String>,
    /// Everything else is a role and its style.
    pub styles: Vec<(String, String)>,
}

/// Why a theme file was refused.
#[derive(Debug, PartialEq)]
pub enum ThemeError {
    UnknownBase(String),
    BadColor(String),
    /// An entry that could not be applied, under the key it was written with.
    BadEntry(String, StyleError),
}

pub enum ThemeErrorV {
    UnknownBase(Seq<char>),
    BadColor(Seq<char>),
    BadEntry(Seq<char>, StyleErrorV),
}

impl View for ThemeError {
    type V = ThemeErrorV;

    open spec fn view(&self) -> ThemeErrorV {
        match *self {
            ThemeError::UnknownBase(t) => ThemeErrorV::UnknownBase(t@),
            ThemeError::BadColor(t) => ThemeErrorV::BadColor(t@),
            ThemeError::BadEntry(key, e) => ThemeErrorV::BadEntry(key@, e@),
        }
    }
}

/// What the user is told about a theme file.
pub open spec fn theme_complaint(e: ThemeErrorV) -> Seq<char> {
    match e {
        ThemeErrorV::UnknownBase(t) => "unknown base theme "@ + text::quoted_text(t)
            + "; try one of [\"dark\", \"light\", \"mono\"]"@,
        ThemeErrorV::BadColor(t) => "bad colour "@ + text::quoted_text(t),
        ThemeErrorV::BadEntry(key, why) => style_complaint(why) + " (in key "@ + text::quoted_text(
            key,
        ) + "; known roles are "@ + text::join(role_list(), ", "@) + ")"@,
    }
}

impl ThemeError {
    /// What the user is told: an entry that is refused is named, with the roles that do
    /// exist.
    pub fn message(&self) -> (r: String)
        ensures
            r@ == theme_complaint(self@),
    {
        match self {
            ThemeError::UnknownBase(t) => {
                let mut s = naming("unknown base theme ", t);
                s.push_str("; try one of [\"dark\", \"light\", \"mono\"]");
                s
            },
            ThemeError::BadColor(t) => naming("bad colour ", t),
            ThemeError::BadEntry(key, why) => {
                let mut s = why.message();
                s.push_str(" (in key ");
                s.push_str(&text::quoted(key));
                s.push_str("; known roles are ");
                s.push_str(&roles_text());
                s.push_str(")");
                s
            },
        }
    }
}

/// The look after the first `k` entries of a file. Keys may be written with hyphens
/// or underscores; both reach the same role.
pub open spec fn with_entries(l: Look, styles: Seq<(String, String)>, k: int) -> Result<
    Look,
    ThemeErrorV,
>
    decreases k,
{
    if k <= 0 {
        Ok(l)
    } else {
        match with_entries(l, styles, k - 1) {
            Ok(m) => match with_entry(
                m,
                text::replaced(styles[k - 1].0@, '-', '_'),
                styles[k - 1].1@,
            ) {
                Ok(n) => Ok(n),
                Err(e) => Err(ThemeErrorV::BadEntry(styles[k - 1].0@, e)),
            },
            Err(e) => Err(e),
        }
    }
}

/// The base a theme file starts from.
pub open spec fn base_name(file: ThemeFile) -> Seq<char> {
    match file.base {
        Some(b) => b@,
        None => "dark"@,
    }
}

/// The code background a theme file asks for, if it asks for one; `none` switches it
/// off.
pub open spec fn code_background(file: ThemeFile, base: Option<Rgb>) -> Result<
    Option<Rgb>,
    ThemeErrorV,
> {
    match file.code_block_bg {
        Some(bg) => if text::lower(bg@) == "none"@ {
            Ok(None)
        } else {
            match Rgb::parsed(bg@) {
                Some(rgb) => Ok(Some(rgb)),
                None => Err(ThemeErrorV::BadColor(bg@)),
            }
        },
        None => Ok(base),
    }
}

/// True of the theme that a file makes of its base.
pub open spec fn is_layered(t: Theme, base: Theme, file: ThemeFile) -> bool {
    &&& t.name@ == (match file.name {
        Some(n) => n@,
        None => base.name@,
    })
    &&& t.dark == (match file.dark {
        Some(d) => d,
        None => base.dark,
    })
    &&& t.syntax_theme@ == (match file.syntax_theme {
        Some(s) => s@,
        None => base.syntax_theme@,
    })
    &&& code_background(file, base.code_block_bg) == Ok::<Option<Rgb>, ThemeErrorV>(
        t.code_block_bg,
    )
    &&& with_entries(look(base), file.styles@, file.styles@.len() as int) == Ok::<
        Look,
        ThemeErrorV,
    >(look(t))
}

/// The first reason to refuse a theme file that has a known base.
pub open spec fn layer_error(base: Theme, file: ThemeFile) -> Option<ThemeErrorV> {
    match code_background(file, base.code_block_bg) {
        Err(e) => Some(e),
        Ok(_) => match with_entries(look(base), file.styles@, file.styles@.len() as int) {
            Err(e) => Some(e),
            Ok(_) => None,
        },
    }
}

impl Theme {
    /// Layers a theme file over the base it names.
    ///
    /// An unrecognised key is an error, because a theme that silently ignores a
    /// misspelled role just looks broken.
    pub fn layered(file: &ThemeFile) -> (r: Result<Theme, ThemeError>)
        ensures
            match r {
                Ok(t) => exists|base: Theme|
                    #[trigger] is_builtin(base, base_name(*file)) && is_layered(t, base, *file),
                Err(e) => if is_builtin_name(base_name(*file)) {
                    exists|base: Theme| #[trigger]
                        is_builtin(base, base_name(*file)) && layer_error(base, *file) == Some(e@)
                } else {
                    e@ == ThemeErrorV::UnknownBase(base_name(*file))
                },
            },
    {
        let base = match &file.base {
            Some(b) => match Theme::builtin(b) {
                Some(t) => t,
                None => {
                    return Err(ThemeError::UnknownBase(b.clone()));
                },
            },
            None => Theme::dark(),
        };
        proof {
            reveal_strlit("dark");
        }
        assert(is_builtin(base, base_name(*file)));
        let ghost start = base;
        let mut theme = base;
        match &file.name {
            Some(name) => {
                theme.name = name.clone();
            },
            None => {},
        }
        match file.dark {
            Some(dark) => {
                theme.dark = dark;
            },
            None => {},
        }
        match &file.syntax_theme {
            Some(s) => {
                theme.syntax_theme = s.clone();
            },
            None => {},
        }
        match &file.code_block_bg {
            Some(bg) => {
                let low = text::string_of(&text::lowered(&text::chars_of(bg)));
                if text::same(&low, "none") {
                    theme.code_block_bg = None;
                } else {
                    match Rgb::parse(bg) {
                        Some(rgb) => {
                            theme.code_block_bg = Some(rgb);
                        },
                        None => {
                            assert(layer_error(start, *file) == Some(
                                ThemeErrorV::BadColor(bg@),
                            ));
                            return Err(ThemeError::BadColor(bg.clone()));
                        },
                    }
                }
            },
            None => {},
        }
        assert(roles(theme) =~= roles(start));
        let ghost l0 = look(start);
        assert(look(theme) == l0);
        let n: usize = file.styles.len();
        let mut k: usize = 0;
        let ghost settled = theme;
        while k < n
            invariant
                n == file.styles.len(),
                k <= n,
                with_entries(l0, file.styles@, k as int) == Ok::<Look, ThemeErrorV>(look(theme)),
                theme.name == settled.name,
                theme.dark == settled.dark,
                theme.syntax_theme == settled.syntax_theme,
                theme.code_block_bg == settled.code_block_bg,
                is_builtin(start, base_name(*file)),
                l0 == look(start),
                code_background(*file, start.code_block_bg) is Ok,
            decreases n - k,
        {
            let role = text::replace_char(&file.styles[k].0, '-', '_');
            match theme.set_role(&role, &file.styles[k].1) {
                Ok(()) => {},
                Err(e) => {
                    let key = file.styles[k].0.clone();
                    proof {
                        lemma_entries_stop(l0, file.styles@, k + 1, n as int);
                        assert(layer_error(start, *file) == Some(
                            ThemeErrorV::BadEntry(key@, e@),
                        ));
                        assert(is_builtin_name(base_name(*file)));
                    }
                    return Err(ThemeError::BadEntry(key, e));
                },
            }
            k = k + 1;
        }
        assert(is_layered(theme, start, *file));
        Ok(theme)
    }
}

/// The first entry that fails decides.
proof fn lemma_entries_stop(l: Look, styles: Seq<(String, String)>, i: int, n: int)
    requires
        0 < i <= n,
        with_entries(l, styles, i) is Err,
    ensures
        with_entries(l, styles, n) == with_entries(l, styles, i),
    decreases n,
{
    if i < n {
        lemma_entries_stop(l, styles, i, n - 1);
    }
}

/// An entry sets its own role and leaves every other one alone.
pub proof fn entries_touch_one_role(l: Look, role: Seq<char>, spec_text: Seq<char>, other: Seq<char>)
    requires
        with_entry(l, role, spec_text) is Ok,
        other != role,
        l.roles.dom().contains(other),
    ensures
        (with_entry(l, role, spec_text)->Ok_0).roles.dom().contains(other),
        (with_entry(l, role, spec_text)->Ok_0).roles[other] == l.roles[other],
{
}

// --- the order of words -------------------------------------------------------------

/// Words of a style spec that belong together: `on` with the colour after it, or any
/// other word on its own.
pub open spec fn is_unit(u: Seq<Seq<char>>) -> bool {
    if u.len() == 2 {
        text::lower(u[0]) == "on"@
    } else {
        u.len() == 1 && text::lower(u[0]) != "on"@
    }
}

/// True of a unit that names an attribute.
pub open spec fn is_attribute(u: Seq<Seq<char>>) -> bool {
    u.len() == 1 && with_attribute(plain_style(), text::lower(u[0])) is Some
}

/// True of a unit that names the foreground.
pub open spec fn is_foreground(u: Seq<Seq<char>>) -> bool {
    u.len() == 1 && !is_attribute(u)
}

/// True of a unit that names the background.
pub open spec fn is_background(u: Seq<Seq<char>>) -> bool {
    u.len() == 2
}

/// What a unit does to a style, if its colour is known.
pub open spec fn with_unit(style: Style, u: Seq<Seq<char>>) -> Option<Style> {
    if is_background(u) {
        match color_of(u[1]) {
            Ok(c) => Some(Style { bg: c, ..style }),
            Err(_) => None,
        }
    } else if is_attribute(u) {
        with_attribute(style, text::lower(u[0]))
    } else {
        match color_of(u[0]) {
            Ok(c) => Some(Style { fg: c, ..style }),
            Err(_) => None,
        }
    }
}

/// What a run of units does to a style.
pub open spec fn with_units(style: Style, units: Seq<Seq<Seq<char>>>) -> Option<Style>
    decreases units.len(),
{
    if units.len() == 0 {
        Some(style)
    } else {
        match with_unit(style, units.first()) {
            Some(s) => with_units(s, units.drop_first()),
            None => None,
        }
    }
}

/// The attributes of a style, by number.
pub open spec fn has_attribute(s: Style, a: int) -> bool {
    if a == 0 {
        s.bold
    } else if a == 1 {
        s.dim
    } else if a == 2 {
        s.italic
    } else if a == 3 {
        s.underline
    } else if a == 4 {
        s.strike
    } else {
        s.reverse
    }
}

/// True of a unit that turns an attribute on.
pub open spec fn turns_on(u: Seq<Seq<char>>, a: int) -> bool {
    is_attribute(u) && has_attribute(with_attribute(plain_style(), text::lower(u[0]))->0, a)
}

proof fn lemma_attribute(style: Style, low: Seq<char>)
    ensures
        with_attribute(style, low) is Some == with_attribute(plain_style(), low) is Some,
        with_attribute(style, low) matches Some(s) ==> s.fg == style.fg && s.bg == style.bg && (
        forall|a: int|
            0 <= a < 6 ==> #[trigger] has_attribute(s, a) == (has_attribute(style, a)
                || has_attribute(with_attribute(plain_style(), low)->0, a))),
{
}

proof fn lemma_style_from_units(
    spec_text: Seq<char>,
    before: Seq<Seq<char>>,
    units: Seq<Seq<Seq<char>>>,
    style: Style,
)
    requires
        forall|i: int| 0 <= i < units.len() ==> is_unit(#[trigger] units[i]),
    ensures
        style_from(spec_text, before + units.flatten(), before.len() as int, style) is Ok
            == with_units(style, units) is Some,
        with_units(style, units) matches Some(s) ==> style_from(
            spec_text,
            before + units.flatten(),
            before.len() as int,
            style,
        ) == Ok::<Style, StyleErrorV>(s),
    decreases units.len(),
{
    let words = before + units.flatten();
    let k = before.len() as int;
    if units.len() == 0 {
        assert(units.flatten() =~= Seq::empty());
        assert(words.len() == k);
    } else {
        let u = units.first();
        assert(is_unit(units[0]));
        let rest = units.drop_first();
        assert(units.flatten() =~= u + rest.flatten());
        assert(words =~= (before + u) + rest.flatten());
        assert forall|i: int| 0 <= i < rest.len() implies is_unit(#[trigger] rest[i]) by {
            assert(rest[i] == units[i + 1]);
        }
        assert(words[k] == u[0]);
        let low = text::lower(u[0]);
        lemma_attribute(style, low);
        reveal_strlit("on");
        assert(with_attribute(style, "on"@) is None) by {
            lemma_on_is_no_attribute(style);
        }
        if u.len() == 2 {
            assert(words[k + 1] == u[1]);
        }
        match with_unit(style, u) {
            Some(s) => lemma_style_from_units(spec_text, before + u, rest, s),
            None => {},
        }
    }
}

proof fn lemma_on_is_no_attribute(style: Style)
    ensures
        with_attribute(style, "on"@) is None,
{
    reveal_strlit("on");
    reveal_strlit("none");
    reveal_strlit("default");
    reveal_strlit("bold");
    reveal_strlit("dim");
    reveal_strlit("faint");
    reveal_strlit("italic");
    reveal_strlit("underline");
    reveal_strlit("strike");
    reveal_strlit("strikethrough");
    reveal_strlit("reverse");
    reveal_strlit("inverse");
    assert("on"@.len() == 2);
}

/// The colour a unit names.
pub open spec fn unit_color(u: Seq<Seq<char>>) -> Result<Color, StyleErrorV> {
    color_of(u.last())
}

pub open spec fn all_units(units: Seq<Seq<Seq<char>>>) -> bool {
    forall|i: int| 0 <= i < units.len() ==> is_unit(#[trigger] units[i])
}

/// True of a unit that can be understood.
pub open spec fn is_known(u: Seq<Seq<char>>) -> bool {
    is_attribute(u) || unit_color(u) is Ok
}

pub open spec fn all_known(units: Seq<Seq<Seq<char>>>) -> bool {
    forall|i: int| 0 <= i < units.len() ==> is_known(#[trigger] units[i])
}

pub open spec fn some_turns_on(units: Seq<Seq<Seq<char>>>, a: int) -> bool {
    exists|i: int| 0 <= i < units.len() && turns_on(#[trigger] units[i], a)
}

/// True when some unit names the foreground, or the background.
pub open spec fn names_color(units: Seq<Seq<Seq<char>>>, background: bool) -> bool {
    exists|i: int| 0 <= i < units.len() && colors(#[trigger] units[i], background)
}

pub open spec fn colors(u: Seq<Seq<char>>, background: bool) -> bool {
    if background {
        is_background(u)
    } else {
        is_foreground(u)
    }
}

/// True when a unit that names the foreground, or the background, names `c`.
pub open spec fn color_named(units: Seq<Seq<Seq<char>>>, background: bool, c: Color) -> bool {
    exists|i: int|
        0 <= i < units.len() && colors(#[trigger] units[i], background) && unit_color(units[i])
            == Ok::<Color, StyleErrorV>(c)
}

proof fn lemma_units_split(units: Seq<Seq<Seq<char>>>)
    requires
        units.len() > 0,
        all_units(units),
    ensures
        is_unit(units[0]),
        all_units(units.drop_first()),
        all_known(units) == (is_known(units[0]) && all_known(units.drop_first())),
        forall|a: int|
            some_turns_on(units, a) == (turns_on(units[0], a) || #[trigger] some_turns_on(
                units.drop_first(),
                a,
            )),
        forall|b: bool|
            names_color(units, b) == (colors(units[0], b) || #[trigger] names_color(
                units.drop_first(),
                b,
            )),
        forall|b: bool, c: Color| #[trigger]
            color_named(units.drop_first(), b, c) ==> color_named(units, b, c),
{
    let rest = units.drop_first();
    assert forall|i: int| 0 <= i < rest.len() implies is_unit(#[trigger] rest[i]) by {
        assert(rest[i] == units[i + 1]);
    }
    if is_known(units[0]) && all_known(rest) {
        assert forall|i: int| 0 <= i < units.len() implies is_known(#[trigger] units[i]) by {
            if i > 0 {
                assert(units[i] == rest[i - 1]);
            }
        }
    }
    if all_known(units) {
        assert forall|i: int| 0 <= i < rest.len() implies is_known(#[trigger] rest[i]) by {
            assert(rest[i] == units[i + 1]);
        }
    }
    assert forall|a: int|
        some_turns_on(units, a) == (turns_on(units[0], a) || #[trigger] some_turns_on(rest, a)) by {
        if some_turns_on(units, a) {
            let i = choose|i: int| 0 <= i < units.len() && turns_on(#[trigger] units[i], a);
            if i > 0 {
                assert(turns_on(rest[i - 1], a));
            }
        }
        if some_turns_on(rest, a) {
            let i = choose|i: int| 0 <= i < rest.len() && turns_on(#[trigger] rest[i], a);
            assert(turns_on(units[i + 1], a));
        }
    }
    assert forall|b: bool|
        names_color(units, b) == (colors(units[0], b) || #[trigger] names_color(rest, b)) by {
        if names_color(units, b) {
            let i = choose|i: int| 0 <= i < units.len() && colors(#[trigger] units[i], b);
            if i > 0 {
                assert(colors(rest[i - 1], b));
            }
        }
        if names_color(rest, b) {
            let i = choose|i: int| 0 <= i < rest.len() && colors(#[trigger] rest[i], b);
            assert(colors(units[i + 1], b));
        }
    }
    assert forall|b: bool, c: Color| #[trigger]
        color_named(rest, b, c) implies color_named(units, b, c) by {
        let i = choose|i: int|
            0 <= i < rest.len() && colors(#[trigger] rest[i], b) && unit_color(rest[i]) == Ok::<
                Color,
                StyleErrorV,
            >(c);
        assert(units[i + 1] == rest[i]);
    }
}

proof fn lemma_units_known(style: Style, units: Seq<Seq<Seq<char>>>)
    requires
        all_units(units),
    ensures
        with_units(style, units) is Some == all_known(units),
    decreases units.len(),
{
    if units.len() > 0 {
        let first = units[0];
        let rest = units.drop_first();
        lemma_units_split(units);
        lemma_attribute(style, text::lower(first[0]));
        match with_unit(style, first) {
            Some(s) => {
                lemma_units_known(s, rest);
            },
            None => {},
        }
    }
}

proof fn lemma_units_attribute(style: Style, units: Seq<Seq<Seq<char>>>, a: int)
    requires
        all_units(units),
    ensures
        0 <= a < 6 ==> (with_units(style, units) matches Some(s) ==> has_attribute(s, a) == (
        has_attribute(style, a) || some_turns_on(units, a))),
    decreases units.len(),
{
    if units.len() > 0 {
        let first = units[0];
        let rest = units.drop_first();
        lemma_units_split(units);
        lemma_attribute(style, text::lower(first[0]));
        match with_unit(style, first) {
            Some(s) => {
                lemma_units_attribute(s, rest, a);
                assert(0 <= a < 6 ==> has_attribute(s, a) == (has_attribute(style, a) || turns_on(
                    first,
                    a,
                )));
            },
            None => {},
        }
    }
}

proof fn lemma_units_foreground(style: Style, units: Seq<Seq<Seq<char>>>)
    requires
        all_units(units),
    ensures
        with_units(style, units) matches Some(s) ==> if names_color(units, false) {
            color_named(units, false, s.fg)
        } else {
            s.fg == style.fg
        },
    decreases units.len(),
{
    if units.len() > 0 {
        let first = units[0];
        let rest = units.drop_first();
        lemma_units_split(units);
        lemma_attribute(style, text::lower(first[0]));
        match with_unit(style, first) {
            Some(s) => {
                lemma_units_foreground(s, rest);
                let last = with_units(s, rest);
                if is_foreground(first) && !names_color(rest, false) && last is Some {
                    assert(colors(units[0], false) && unit_color(units[0]) == Ok::<
                        Color,
                        StyleErrorV,
                    >(last->0.fg));
                }
            },
            None => {},
        }
    }
}

proof fn lemma_units_background(style: Style, units: Seq<Seq<Seq<char>>>)
    requires
        all_units(units),
    ensures
        with_units(style, units) matches Some(s) ==> if names_color(units, true) {
            color_named(units, true, s.bg)
        } else {
            s.bg == style.bg
        },
    decreases units.len(),
{
    if units.len() > 0 {
        let first = units[0];
        let rest = units.drop_first();
        lemma_units_split(units);
        lemma_attribute(style, text::lower(first[0]));
        match with_unit(style, first) {
            Some(s) => {
                lemma_units_background(s, rest);
                let last = with_units(s, rest);
                if is_background(first) && !names_color(rest, true) && last is Some {
                    assert(colors(units[0], true) && unit_color(units[0]) == Ok::<
                        Color,
                        StyleErrorV,
                    >(last->0.bg));
                }
            },
            None => {},
        }
    }
}

/// Units that are among others have nothing that those do not.
proof fn lemma_units_among(units: Seq<Seq<Seq<char>>>, others: Seq<Seq<Seq<char>>>)
    requires
        forall|i: int| 0 <= i < units.len() ==> others.contains(#[trigger] units[i]),
    ensures
        all_known(others) ==> all_known(units),
        forall|a: int| #[trigger] some_turns_on(units, a) ==> some_turns_on(others, a),
        forall|b: bool| #[trigger] names_color(units, b) ==> names_color(others, b),
        forall|b: bool, c: Color| #[trigger]
            color_named(units, b, c) ==> color_named(others, b, c),
{
    if all_known(others) {
        assert forall|i: int| 0 <= i < units.len() implies is_known(#[trigger] units[i]) by {
            let j = choose|j: int| 0 <= j < others.len() && others[j] == units[i];
            assert(is_known(others[j]));
        }
    }
    assert forall|a: int| #[trigger] some_turns_on(units, a) implies some_turns_on(others, a) by {
        let i = choose|i: int| 0 <= i < units.len() && turns_on(#[trigger] units[i], a);
        let j = choose|j: int| 0 <= j < others.len() && others[j] == units[i];
        assert(turns_on(others[j], a));
    }
    assert forall|b: bool| #[trigger] names_color(units, b) implies names_color(others, b) by {
        let i = choose|i: int| 0 <= i < units.len() && colors(#[trigger] units[i], b);
        let j = choose|j: int| 0 <= j < others.len() && others[j] == units[i];
        assert(colors(others[j], b));
    }
    assert forall|b: bool, c: Color| #[trigger]
        color_named(units, b, c) implies color_named(others, b, c) by {
        let i = choose|i: int|
            0 <= i < units.len() && colors(#[trigger] units[i], b) && unit_color(units[i]) == Ok::<
                Color,
                StyleErrorV,
            >(c);
        let j = choose|j: int| 0 <= j < others.len() && others[j] == units[i];
        assert(colors(others[j], b) && unit_color(others[j]) == Ok::<Color, StyleErrorV>(c));
    }
}

/// True when there is one unit at most that names the foreground, or the background.
pub open spec fn one_color(units: Seq<Seq<Seq<char>>>, background: bool) -> bool {
    forall|i: int, j: int|
        0 <= i < units.len() && 0 <= j < units.len() && colors(#[trigger] units[i], background)
            && colors(#[trigger] units[j], background) ==> units[i] == units[j]
}

proof fn lemma_one_color(units: Seq<Seq<Seq<char>>>, background: bool, c: Color, d: Color)
    requires
        one_color(units, background),
        color_named(units, background, c),
        color_named(units, background, d),
    ensures
        c == d,
{
    let i = choose|i: int|
        0 <= i < units.len() && colors(#[trigger] units[i], background) && unit_color(units[i])
            == Ok::<Color, StyleErrorV>(c);
    let j = choose|j: int|
        0 <= j < units.len() && colors(#[trigger] units[j], background) && unit_color(units[j])
            == Ok::<Color, StyleErrorV>(d);
    assert(units[i] == units[j]);
}

/// The words of a style spec may come in any order, as long as `on` stands before its
/// colour: two specs made of the same units, with one foreground and one background at
/// most, are both refused or describe the same style.
pub proof fn words_come_in_any_order(
    a: Seq<char>,
    b: Seq<char>,
    units: Seq<Seq<Seq<char>>>,
    others: Seq<Seq<Seq<char>>>,
)
    requires
        text::words(a) == units.flatten(),
        text::words(b) == others.flatten(),
        all_units(units),
        all_units(others),
        forall|i: int| 0 <= i < units.len() ==> others.contains(#[trigger] units[i]),
        forall|i: int| 0 <= i < others.len() ==> units.contains(#[trigger] others[i]),
        one_color(units, false),
        one_color(units, true),
    ensures
        style_of(a) is Ok == style_of(b) is Ok,
        style_of(a) is Ok == all_known(units),
        style_of(a) is Ok ==> style_of(a) == style_of(b),
{
    let start = plain_style();
    lemma_style_from_units(a, Seq::empty(), units, start);
    lemma_style_from_units(b, Seq::empty(), others, start);
    assert(Seq::<Seq<char>>::empty() + units.flatten() =~= text::words(a));
    assert(Seq::<Seq<char>>::empty() + others.flatten() =~= text::words(b));
    lemma_units_known(start, units);
    lemma_units_known(start, others);
    lemma_units_among(units, others);
    lemma_units_among(others, units);
    if all_known(units) {
        let s = with_units(start, units)->0;
        let t = with_units(start, others)->0;
        assert forall|k: int| 0 <= k < 6 implies #[trigger] has_attribute(s, k) == has_attribute(
            t,
            k,
        ) by {
            lemma_units_attribute(start, units, k);
            lemma_units_attribute(start, others, k);
            assert(some_turns_on(units, k) == some_turns_on(others, k));
        }
        lemma_units_foreground(start, units);
        lemma_units_foreground(start, others);
        lemma_units_background(start, units);
        lemma_units_background(start, others);
        if names_color(units, false) {
            assert(color_named(others, false, t.fg));
            lemma_one_color(units, false, s.fg, t.fg);
        } else {
            assert(!names_color(others, false));
        }
        if names_color(units, true) {
            assert(color_named(others, true, t.bg));
            lemma_one_color(units, true, s.bg, t.bg);
        } else {
            assert(!names_color(others, true));
        }
        assert(has_attribute(s, 0) == has_attribute(t, 0));
        assert(has_attribute(s, 1) == has_attribute(t, 1));
        assert(has_attribute(s, 2) == has_attribute(t, 2));
        assert(has_attribute(s, 3) == has_attribute(t, 3));
        assert(has_attribute(s, 4) == has_attribute(t, 4));
        assert(has_attribute(s, 5) == has_attribute(t, 5));
        assert(s == t);
    }
}

/// No words, or the word for it, mean no styling at all.
pub proof fn nothing_is_plain(spec_text: Seq<char>)
    requires
        text::words(spec_text).len() == 0 || text::words(spec_text) == seq!["none"@],
    ensures
        style_of(spec_text) == Ok::<Style, StyleErrorV>(plain_style()),
{
    reveal_strlit("none");
    reveal_with_fuel(style_from, 2);
    assert(text::lower("none"@) =~= "none"@);
}

} // verus!
