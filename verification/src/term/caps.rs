//! What the terminal on the other end can do, and how we found out.
//!
//! Detection runs in two tiers. Environment variables give a usable answer
//! instantly and work over pipes and in CI; a live probe (see [`super::probe`])
//! asks the terminal directly and overrides the guesses when it answers. Every
//! field can be forced from the command line or the config file, because
//! auto-detection is a heuristic and users know their setup better than we do.
//!
//! The environment itself is read by the program: here its variables arrive as
//! plain values, so that the decisions are functions of what was found.
use vstd::prelude::*;

use super::style::Rgb;
use crate::text;

verus! {

/// How many colours we may use.
#[derive(Debug, Clone, Copy, PartialEq, Eq, PartialOrd, Ord, Structural)]
pub enum ColorDepth {
    /// Attributes only: bold, italic, underline.
    Mono,
    Ansi16,
    Ansi256,
    TrueColor,
}

impl Default for ColorDepth {
    fn default() -> (r: ColorDepth)
        ensures
            r == ColorDepth::Ansi256,
    {
        ColorDepth::Ansi256
    }
}

/// The image protocol to use, in descending order of fidelity.
#[derive(Debug, Clone, Copy, PartialEq, Eq, Structural)]
pub enum GraphicsProtocol {
    /// kitty's graphics protocol: PNG passthrough, precise cell placement.
    Kitty,
    /// iTerm2's `OSC 1337;File=` inline images.
    ITerm2,
    /// DEC sixel, encoded by [`crate::images::sixel`].
    Sixel,
    /// Unicode half blocks with foreground/background colour pairs.
    Blocks,
    /// Show a captioned placeholder instead.
    Off,
}

impl Default for GraphicsProtocol {
    fn default() -> (r: GraphicsProtocol)
        ensures
            r == GraphicsProtocol::Off,
    {
        GraphicsProtocol::Off
    }
}

/// The name a protocol goes by on the command line.
pub open spec fn protocol_name(p: GraphicsProtocol) -> Seq<char> {
    match p {
        GraphicsProtocol::Kitty => "kitty"@,
        GraphicsProtocol::ITerm2 => "iterm2"@,
        GraphicsProtocol::Sixel => "sixel"@,
        GraphicsProtocol::Blocks => "blocks"@,
        GraphicsProtocol::Off => "none"@,
    }
}

impl GraphicsProtocol {
    pub fn name(self) -> (r: &'static str)
        ensures
            r@ == protocol_name(self),
    {
        match self {
            GraphicsProtocol::Kitty => "kitty",
            GraphicsProtocol::ITerm2 => "iterm2",
            GraphicsProtocol::Sixel => "sixel",
            GraphicsProtocol::Blocks => "blocks",
            GraphicsProtocol::Off => "none",
        }
    }

    /// True for protocols that draw real pixels rather than coloured cells.
    pub fn is_pixel_exact(self) -> (r: bool)
        ensures
            r == (self == GraphicsProtocol::Kitty || self == GraphicsProtocol::ITerm2 || self
                == GraphicsProtocol::Sixel),
    {
        self == GraphicsProtocol::Kitty || self == GraphicsProtocol::ITerm2 || self
            == GraphicsProtocol::Sixel
    }
}

/// How adventurous we can be with non-ASCII drawing characters.
#[derive(Debug, Clone, Copy, PartialEq, Eq, PartialOrd, Ord, Structural)]
pub enum UnicodeLevel {
    /// Pure ASCII: `-`, `|`, `+`, `*`.
    Ascii,
    /// Box drawing, arrows, common symbols.
    Extended,
    /// Everything above plus emoji and quadrant blocks.
    Full,
}

impl Default for UnicodeLevel {
    fn default() -> (r: UnicodeLevel)
        ensures
            r == UnicodeLevel::Extended,
    {
        UnicodeLevel::Extended
    }
}

/// The resolved capability set for one run.
#[derive(Debug, Clone, Copy, PartialEq, Eq)]
pub struct Capabilities {
    pub color: ColorDepth,
    pub graphics: GraphicsProtocol,
    pub hyperlinks: bool,
    pub unicode: UnicodeLevel,
    /// Terminal size in cells.
    pub cols: u16,
    pub rows: u16,
    /// Size of one cell in pixels, when the terminal told us.
    pub cell_px: Option<(u16, u16)>,
    /// Background colour, used to pick a light or dark theme.
    pub background: Option<Rgb>,
    /// Whether stdout is a terminal at all.
    pub is_tty: bool,
    /// Terminals that ignore SGR 3.
    pub italic_broken: bool,
    /// True when we are inside a multiplexer that may swallow passthrough codes.
    pub multiplexed: bool,
}

/// A terminal about which nothing is known.
pub open spec fn unknown_terminal() -> Capabilities {
    Capabilities {
        color: ColorDepth::Mono,
        graphics: GraphicsProtocol::Off,
        hyperlinks: false,
        unicode: UnicodeLevel::Ascii,
        cols: 80,
        rows: 24,
        cell_px: None,
        background: None,
        is_tty: false,
        italic_broken: false,
        multiplexed: false,
    }
}

impl Default for Capabilities {
    fn default() -> (r: Capabilities)
        ensures
            r == unknown_terminal(),
    {
        Capabilities {
            color: ColorDepth::Mono,
            graphics: GraphicsProtocol::Off,
            hyperlinks: false,
            unicode: UnicodeLevel::Ascii,
            cols: 80,
            rows: 24,
            cell_px: None,
            background: None,
            is_tty: false,
            italic_broken: false,
            multiplexed: false,
        }
    }
}

/// What the process environment says about the terminal: each variable's value, or
/// `None` where it is not set.
#[derive(Debug)]
pub struct Environment {
    pub term: Option<String>,
    pub term_program: Option<String>,
    pub colorterm: Option<String>,
    pub no_color: Option<String>,
    pub clicolor_force: Option<String>,
    pub force_color: Option<String>,
    pub vte_version: Option<String>,
    pub lc_all: Option<String>,
    pub lc_ctype: Option<String>,
    pub lang: Option<String>,
    pub columns: Option<String>,
    pub lines: Option<String>,
    /// Whether `TMUX` is set.
    pub tmux: bool,
    /// Whether `KITTY_WINDOW_ID` is set.
    pub kitty_window_id: bool,
    /// Whether `GHOSTTY_RESOURCES_DIR` is set.
    pub ghostty_resources_dir: bool,
    /// Whether `WT_SESSION` is set.
    pub wt_session: bool,
    /// Whether this is Windows, whose terminals are UTF-8 capable without the POSIX
    /// locale variables.
    pub windows: bool,
}

/// The window as the kernel reports it: size in cells, and size in pixels.
#[derive(Debug, Clone, Copy, PartialEq, Eq, Structural)]
pub struct Window {
    pub cols: u16,
    pub rows: u16,
    pub width_px: u16,
    pub height_px: u16,
}

/// A variable's value, or nothing where it is not set.
pub open spec fn value(o: Option<String>) -> Seq<char> {
    match o {
        Some(s) => s@,
        None => Seq::empty(),
    }
}

fn value_of(o: &Option<String>) -> (r: String)
    ensures
        r@ == value(*o),
{
    match o {
        Some(s) => s.clone(),
        None => String::new(),
    }
}

/// True of a terminal that can only print.
pub open spec fn is_dumb(env: Environment) -> bool {
    value(env.term) == "dumb"@ || value(env.term).len() == 0
}

pub open spec fn same_ignoring_case(a: Seq<char>, b: Seq<char>) -> bool {
    text::lower(a) == text::lower(b)
}

/// Emulators that are truecolor-capable regardless of what `TERM` says, which
/// matters over ssh where `TERM` is often downgraded.
pub open spec fn truecolor_program(p: Seq<char>) -> bool {
    same_ignoring_case("iTerm.app"@, p) || same_ignoring_case("WezTerm"@, p) || same_ignoring_case(
        "ghostty"@,
        p,
    ) || same_ignoring_case("vscode"@, p) || same_ignoring_case("Hyper"@, p) || same_ignoring_case(
        "rio"@,
        p,
    ) || same_ignoring_case("Tabby"@, p) || same_ignoring_case("warp"@, p)
}

/// The colours the environment promises.
pub open spec fn color_depth(is_tty: bool, env: Environment) -> ColorDepth {
    let term = value(env.term);
    let program = value(env.term_program);
    // https://no-color.org: any non-empty value disables colour.
    let refused = env.no_color is Some && value(env.no_color).len() > 0;
    let forced = (env.clicolor_force is Some && value(env.clicolor_force) != "0"@) || (
    env.force_color is Some && value(env.force_color) != "0"@ && value(env.force_color)
        != "false"@);
    if refused || (!is_tty && !forced) || is_dumb(env) {
        ColorDepth::Mono
    } else if value(env.colorterm) == "truecolor"@ || value(env.colorterm) == "24bit"@ {
        ColorDepth::TrueColor
    } else if truecolor_program(program) || env.kitty_window_id || text::contains(
        term,
        "kitty"@,
    ) || text::contains(term, "direct"@) {
        ColorDepth::TrueColor
    } else if text::contains(term, "256"@) || program == "Apple_Terminal"@ {
        ColorDepth::Ansi256
    } else {
        ColorDepth::Ansi16
    }
}

/// True when a terminal has at least 256 colours.
pub open spec fn at_least_256(c: ColorDepth) -> bool {
    c == ColorDepth::Ansi256 || c == ColorDepth::TrueColor
}

/// The image protocol that the environment speaks for.
///
/// `TERM_PROGRAM` comes first, because whichever terminal is actually running sets
/// it for itself; the marker variables are exported into every child process and
/// survive into places their terminal did not follow.
pub open spec fn graphics_for(
    caps: Capabilities,
    term: Seq<char>,
    program: Seq<char>,
    kitty_marker: bool,
) -> GraphicsProtocol {
    if !caps.is_tty {
        GraphicsProtocol::Off
    } else if caps.multiplexed {
        GraphicsProtocol::Blocks
    } else if program == "iTerm.app"@ {
        GraphicsProtocol::ITerm2
    } else if program == "ghostty"@ || program == "Ghostty"@ || program == "WezTerm"@ {
        GraphicsProtocol::Kitty
    } else if program == "Apple_Terminal"@ {
        GraphicsProtocol::Blocks
    } else if text::contains(term, "kitty"@) || kitty_marker {
        GraphicsProtocol::Kitty
    } else if text::contains(term, "mlterm"@) || text::contains(term, "yaft"@) || text::contains(
        term,
        "foot"@,
    ) {
        GraphicsProtocol::Sixel
    } else if at_least_256(caps.color) {
        GraphicsProtocol::Blocks
    } else {
        GraphicsProtocol::Off
    }
}

/// Emulators known to understand OSC 8.
pub open spec fn hyperlink_program(p: Seq<char>) -> bool {
    same_ignoring_case("iTerm.app"@, p) || same_ignoring_case("WezTerm"@, p) || same_ignoring_case(
        "ghostty"@,
        p,
    ) || same_ignoring_case("vscode"@, p) || same_ignoring_case("Hyper"@, p) || same_ignoring_case(
        "rio"@,
        p,
    ) || same_ignoring_case("kitty"@, p)
}

/// Whether the environment promises hyperlinks. VTE learned OSC 8 in 0.50.
pub open spec fn env_hyperlinks(env: Environment) -> bool {
    let term = value(env.term);
    let vte = match env.vte_version {
        Some(v) => text::parse_number(v@, 10, 0xffff_ffff),
        None => None,
    };
    if term == "linux"@ {
        false
    } else {
        match vte {
            Some(n) => n >= 5000,
            None => hyperlink_program(value(env.term_program)) || text::contains(term, "kitty"@)
                || text::contains(term, "foot"@) || text::contains(term, "alacritty"@)
                || env.wt_session || env.kitty_window_id,
        }
    }
}

/// True of a locale that names UTF-8.
pub open spec fn names_utf8(o: Option<String>) -> bool {
    match o {
        Some(v) => text::contains(text::lower(v@), "utf-8"@) || text::contains(
            text::lower(v@),
            "utf8"@,
        ),
        None => false,
    }
}

/// The characters the environment lets us draw with.
pub open spec fn env_unicode(env: Environment) -> UnicodeLevel {
    if is_dumb(env) {
        UnicodeLevel::Ascii
    } else if names_utf8(env.lc_all) || names_utf8(env.lc_ctype) || names_utf8(env.lang)
        || env.windows {
        UnicodeLevel::Full
    } else {
        UnicodeLevel::Ascii
    }
}

/// The size in cells: `COLUMNS` and `LINES` when both are numbers, the window
/// otherwise, and the usual size when there is none.
pub open spec fn size_for(env: Environment, window: Option<Window>) -> (u16, u16) {
    let c = match env.columns {
        Some(v) => text::parse_number(v@, 10, 0xffff),
        None => None,
    };
    let r = match env.lines {
        Some(v) => text::parse_number(v@, 10, 0xffff),
        None => None,
    };
    match (c, r) {
        (Some(c), Some(r)) => (c as u16, r as u16),
        _ => match window {
            Some(w) => (w.cols, w.rows),
            None => (80, 24),
        },
    }
}

/// Cell size in pixels, when the window knows both its sizes.
pub open spec fn cell_size(window: Option<Window>) -> Option<(u16, u16)> {
    match window {
        Some(w) => if w.width_px == 0 || w.height_px == 0 || w.cols == 0 || w.rows == 0 {
            None
        } else {
            Some(((w.width_px as int / w.cols as int) as u16, (w.height_px as int / w.rows as int) as u16))
        },
        None => None,
    }
}

/// What the environment says about the terminal.
pub open spec fn caps_for(is_tty: bool, env: Environment, window: Option<Window>) -> Capabilities {
    let term = value(env.term);
    let program = value(env.term_program);
    let base = Capabilities {
        color: color_depth(is_tty, env),
        graphics: GraphicsProtocol::Off,
        hyperlinks: is_tty && !is_dumb(env) && env_hyperlinks(env),
        unicode: env_unicode(env),
        cols: size_for(env, window).0,
        rows: size_for(env, window).1,
        cell_px: cell_size(window),
        background: None,
        is_tty,
        // Terminal.app draws SGR 3 as reverse video, which is worse than an
        // underline; the Linux console ignores it entirely.
        italic_broken: program == "Apple_Terminal"@ || term == "linux"@,
        multiplexed: env.tmux || text::starts_with(term, "screen"@),
    };
    Capabilities {
        graphics: graphics_for(
            base,
            term,
            program,
            env.kitty_window_id || env.ghostty_resources_dir,
        ),
        ..base
    }
}

fn matches_program(program: &str, known: &str) -> (r: bool)
    ensures
        r == same_ignoring_case(known@, program@),
{
    let a = text::string_of(&text::lowered(&text::chars_of(known)));
    let b = text::string_of(&text::lowered(&text::chars_of(program)));
    text::same(&a, &b)
}

fn locale_is_utf8(o: &Option<String>) -> (r: bool)
    ensures
        r == names_utf8(*o),
{
    match o {
        Some(v) => {
            let low = text::string_of(&text::lowered(&text::chars_of(v)));
            text::has_sub(&low, "utf-8") || text::has_sub(&low, "utf8")
        },
        None => false,
    }
}

/// A variable that holds a number.
fn number_in(o: &Option<String>, max: u64) -> (r: Option<u64>)
    requires
        max <= 0xffff_ffff,
    ensures
        match o {
            Some(v) => match r {
                Some(n) => text::parse_number(v@, 10, max as int) == Some(n as int),
                None => text::parse_number(v@, 10, max as int) is None,
            },
            None => r is None,
        },
        r matches Some(n) ==> n <= max,
{
    match o {
        Some(v) => text::number_of(v, 10, max),
        None => None,
    }
}

/// Terminal size in cells, honouring `COLUMNS`/`LINES` when set.
pub fn terminal_size(env: &Environment, window: Option<Window>) -> (r: (u16, u16))
    ensures
        r == size_for(*env, window),
{
    match (number_in(&env.columns, 0xffff), number_in(&env.lines, 0xffff)) {
        (Some(c), Some(r)) => (c as u16, r as u16),
        _ => match window {
            Some(w) => (w.cols, w.rows),
            None => (80, 24),
        },
    }
}

/// Cell size in pixels derived from the kernel's window size, when available.
pub fn cell_size_px(window: Option<Window>) -> (r: Option<(u16, u16)>)
    ensures
        r == cell_size(window),
{
    match window {
        Some(w) => {
            if w.width_px == 0 || w.height_px == 0 || w.cols == 0 || w.rows == 0 {
                None
            } else {
                Some((w.width_px / w.cols, w.height_px / w.rows))
            }
        },
        None => None,
    }
}

impl Capabilities {
    /// The environment-only tier: a function of what was found.
    pub fn from_env(is_tty: bool, env: &Environment, window: Option<Window>) -> (r: Capabilities)
        ensures
            r == caps_for(is_tty, *env, window),
    {
        let term = value_of(&env.term);
        let program = value_of(&env.term_program);
        let dumb = text::same(&term, "dumb") || term.as_str().is_empty();
        let (cols, rows) = terminal_size(env, window);
        let base = Capabilities {
            color: Self::detect_color(is_tty, env),
            graphics: GraphicsProtocol::Off,
            hyperlinks: is_tty && !dumb && Self::hyperlinks_from_env(env),
            unicode: Self::unicode_from_env(env),
            cols,
            rows,
            cell_px: cell_size_px(window),
            background: None,
            is_tty,
            italic_broken: text::same(&program, "Apple_Terminal") || text::same(&term, "linux"),
            multiplexed: env.tmux || text::has_prefix(&term, "screen"),
        };
        let graphics = Self::choose_graphics(
            &base,
            &term,
            &program,
            env.kitty_window_id || env.ghostty_resources_dir,
        );
        Capabilities { graphics, ..base }
    }

    pub fn detect_color(is_tty: bool, env: &Environment) -> (r: ColorDepth)
        ensures
            r == color_depth(is_tty, *env),
    {
        let term = value_of(&env.term);
        let program = value_of(&env.term_program);
        let dumb = text::same(&term, "dumb") || term.as_str().is_empty();
        let refused = match &env.no_color {
            Some(v) => !v.as_str().is_empty(),
            None => false,
        };
        if refused {
            return ColorDepth::Mono;
        }
        let clicolor = match &env.clicolor_force {
            Some(v) => !text::same(v, "0"),
            None => false,
        };
        let forced = clicolor || match &env.force_color {
            Some(v) => !text::same(v, "0") && !text::same(v, "false"),
            None => false,
        };
        if !is_tty && !forced {
            return ColorDepth::Mono;
        }
        if dumb {
            return ColorDepth::Mono;
        }
        let colorterm = value_of(&env.colorterm);
        if text::same(&colorterm, "truecolor") || text::same(&colorterm, "24bit") {
            return ColorDepth::TrueColor;
        }
        if matches_program(&program, "iTerm.app") || matches_program(&program, "WezTerm")
            || matches_program(&program, "ghostty") || matches_program(&program, "vscode")
            || matches_program(&program, "Hyper") || matches_program(&program, "rio")
            || matches_program(&program, "Tabby") || matches_program(&program, "warp") {
            return ColorDepth::TrueColor;
        }
        if env.kitty_window_id || text::has_sub(&term, "kitty") {
            return ColorDepth::TrueColor;
        }
        if text::has_sub(&term, "direct") {
            return ColorDepth::TrueColor;
        }
        if text::has_sub(&term, "256") {
            return ColorDepth::Ansi256;
        }
        if text::same(&program, "Apple_Terminal") {
            return ColorDepth::Ansi256;
        }
        ColorDepth::Ansi16
    }

    pub fn choose_graphics(
        caps: &Capabilities,
        term: &str,
        term_program: &str,
        kitty_marker: bool,
    ) -> (r: GraphicsProtocol)
        ensures
            r == graphics_for(*caps, term@, term_program@, kitty_marker),
    {
        if !caps.is_tty {
            return GraphicsProtocol::Off;
        }
        // Inside tmux, graphics need passthrough that cannot be relied on; fall back
        // to blocks, which are just coloured text and always survive.
        if caps.multiplexed {
            return GraphicsProtocol::Blocks;
        }
        if text::same(term_program, "iTerm.app") {
            return GraphicsProtocol::ITerm2;
        }
        if text::same(term_program, "ghostty") || text::same(term_program, "Ghostty") || text::same(
            term_program,
            "WezTerm",
        ) {
            return GraphicsProtocol::Kitty;
        }
        if text::same(term_program, "Apple_Terminal") {
            return GraphicsProtocol::Blocks;
        }
        if text::has_sub(term, "kitty") || kitty_marker {
            return GraphicsProtocol::Kitty;
        }
        if text::has_sub(term, "mlterm") || text::has_sub(term, "yaft") || text::has_sub(
            term,
            "foot",
        ) {
            return GraphicsProtocol::Sixel;
        }
        // Anything else gets blocks until a probe proves otherwise.
        if caps.color == ColorDepth::Ansi256 || caps.color == ColorDepth::TrueColor {
            GraphicsProtocol::Blocks
        } else {
            GraphicsProtocol::Off
        }
    }

    pub fn hyperlinks_from_env(env: &Environment) -> (r: bool)
        ensures
            r == env_hyperlinks(*env),
    {
        let term = value_of(&env.term);
        let program = value_of(&env.term_program);
        if text::same(&term, "linux") {
            return false;
        }
        match number_in(&env.vte_version, 0xffff_ffff) {
            Some(n) => {
                return n >= 5000;
            },
            None => {},
        }
        matches_program(&program, "iTerm.app") || matches_program(&program, "WezTerm")
            || matches_program(&program, "ghostty") || matches_program(&program, "vscode")
            || matches_program(&program, "Hyper") || matches_program(&program, "rio")
            || matches_program(&program, "kitty") || text::has_sub(&term, "kitty")
            || text::has_sub(&term, "foot") || text::has_sub(&term, "alacritty") || env.wt_session
            || env.kitty_window_id
    }

    pub fn unicode_from_env(env: &Environment) -> (r: UnicodeLevel)
        ensures
            r == env_unicode(*env),
    {
        let term = value_of(&env.term);
        if text::same(&term, "dumb") || term.as_str().is_empty() {
            return UnicodeLevel::Ascii;
        }
        if locale_is_utf8(&env.lc_all) || locale_is_utf8(&env.lc_ctype) || locale_is_utf8(
            &env.lang,
        ) || env.windows {
            UnicodeLevel::Full
        } else {
            UnicodeLevel::Ascii
        }
    }

    /// True when the detected background is dark, or unknown, which is treated as
    /// dark because that is the common case for terminals.
    pub fn prefers_dark(&self) -> (r: bool)
        ensures
            r == dark_background(self.background),
    {
        match self.background {
            Some(b) => {
                let r = linear_value(b.0);
                let g = linear_value(b.1);
                let l = linear_value(b.2);
                2126 * r + 7152 * g + 722 * l < DARK_BELOW
            },
            None => true,
        }
    }

    /// Pixel size of one cell, or a guess. A 1:2 cell is the usual shape; guessing
    /// keeps image aspect ratios sane on terminals that will not report their
    /// metrics.
    pub fn cell_px_or_guess(&self) -> (r: (u16, u16))
        ensures
            r == cell_or_guess(self.cell_px),
    {
        match self.cell_px {
            Some(px) => px,
            None => (8, 16),
        }
    }
}

/// The cell size to lay images out with.
pub open spec fn cell_or_guess(px: Option<(u16, u16)>) -> (u16, u16) {
    match px {
        Some(px) => px,
        None => (8, 16),
    }
}

// --- luminance --------------------------------------------------------------

/// The luminance below which a background counts as dark: 0.35, in the units of
/// [`luminance`]. It is set a hair lower so that colours on the very edge fall on
/// the side where single-precision arithmetic puts them.
pub const DARK_BELOW: u64 = 3_499_999_825_000;

/// The linear light of each channel value, in billionths: `c / 12.92` up to 0.03928
/// and `((c + 0.055) / 1.055) ^ 2.4` above, for `c` from 0 to 1, as WCAG defines it.
#[verifier::opaque]
pub open spec fn linear_table() -> [u32; 256] {
    [
        0, 303_527, 607_054, 910_581, 1_214_108, 1_517_635, 1_821_162, 2_124_689,
        2_428_216, 2_731_743, 3_035_270, 3_346_536, 3_676_507, 4_024_717, 4_391_442, 4_776_953,
        5_181_517, 5_605_392, 6_048_833, 6_512_091, 6_995_410, 7_499_032, 8_023_192, 8_568_125,
        9_134_057, 9_721_218, 10_329_823, 10_960_094, 11_612_245, 12_286_487, 12_983_031, 13_702_081,
        14_443_844, 15_208_514, 15_996_292, 16_807_375, 17_641_952, 18_500_218, 19_382_361, 20_288_562,
        21_219_010, 22_173_883, 23_153_365, 24_157_630, 25_186_857, 26_241_222, 27_320_892, 28_426_038,
        29_556_833, 30_713_441, 31_896_029, 33_104_762, 34_339_808, 35_601_314, 36_889_445, 38_204_364,
        39_546_236, 40_915_199, 42_311_411, 43_735_027, 45_186_203, 46_665_084, 48_171_822, 49_706_563,
        51_269_468, 52_860_655, 54_480_281, 56_128_494, 57_805_434, 59_511_241, 61_246_071, 63_010_029,
        64_803_280, 66_625_953, 68_478_182, 70_360_109, 72_271_861, 74_213_579, 76_185_390, 78_187_428,
        80_219_828, 82_282_715, 84_376_216, 86_500_466, 88_655_606, 90_841_733, 93_058_981, 95_307_484,
        97_587_362, 99_898_741, 102_241_747, 104_616_493, 107_023_112, 109_461_717, 111_932_434, 114_435_382,
        116_970_673, 119_538_434, 122_138_798, 124_771_841, 127_437_696, 130_136_490, 132_868_335, 135_633_349,
        138_431_624, 141_263_306, 144_128_487, 147_027_284, 149_959_803, 152_926_162, 155_926_466, 158_960_864,
        162_029_400, 165_132_225, 168_269_396, 171_441_093, 174_647_391, 177_888_408, 181_164_235, 184_474_990,
        187_820_762, 191_201_672, 194_617_808, 198_069_304, 201_556_236, 205_078_706, 208_636_850, 212_230_727,
        215_860_531, 219_526_231, 223_227_978, 226_965_889, 230_740_070, 234_550_655, 238_397_658, 242_281_199,
        246_201_396, 250_158_370, 254_152_179, 258_182_913, 262_250_721, 266_355_664, 270_497_859, 274_677_366,
        278_894_335, 283_148_795, 287_440_896, 291_770_697, 296_138_316, 300_543_845, 304_987_371, 309_468_955,
        313_988_745, 318_546_832, 323_143_244, 327_778_131, 332_451_582, 337_163_657, 341_914_445, 346_704_096,
        351_532_698, 356_400_251, 361_306_876, 366_252_691, 371_237_785, 376_262_218, 381_326_109, 386_429_518,
        391_572_565, 396_755_308, 401_977_867, 407_240_301, 412_542_701, 417_885_154, 423_267_752, 428_690_553,
        434_153_706, 439_657_241, 445_201_248, 450_785_846, 456_411_064, 462_077_051, 467_783_839, 473_531_544,
        479_320_228, 485_149_980, 491_020_888, 496_933_043, 502_886_593, 508_881_450, 514_917_791, 520_995_677,
        527_115_226, 533_276_498, 539_479_613, 545_724_571, 552_011_490, 558_340_490, 564_711_630, 571_124_911,
        577_580_512, 584_078_491, 590_618_908, 597_201_884, 603_827_417, 610_495_627, 617_206_633, 623_960_435,
        630_757_213, 637_596_965, 644_479_752, 651_405_692, 658_374_846, 665_387_332, 672_443_211, 679_542_542,
        686_685_443, 693_871_915, 701_102_018, 708_375_931, 715_693_653, 723_055_243, 730_460_882, 737_910_569,
        745_404_363, 752_942_324, 760_524_631, 768_151_283, 775_822_341, 783_537_924, 791_298_032, 799_102_843,
        806_952_357, 814_846_694, 822_785_854, 830_769_956, 838_799_119, 846_873_283, 854_992_688, 863_157_272,
        871_367_216, 879_622_340, 887_923_181, 896_269_381, 904_661_357, 913_098_693, 921_582_043, 930_110_872,
        938_685_894, 947_306_573, 955_973_506, 964_686_275, 973_445_475, 982_250_571, 991_102_219, 1_000_000_000,
    ]
}

/// A colour's relative luminance, from 0 to ten trillion.
pub open spec fn luminance(c: Rgb) -> int {
    2126 * linear_table()[c.0 as int] + 7152 * linear_table()[c.1 as int] + 722
        * linear_table()[c.2 as int]
}

/// Whether a background calls for a dark theme.
pub open spec fn dark_background(background: Option<Rgb>) -> bool {
    match background {
        Some(c) => luminance(c) < DARK_BELOW,
        None => true,
    }
}

fn linear_value(c: u8) -> (r: u64)
    ensures
        r == linear_table()[c as int],
        r <= u32::MAX,
{
    proof {
        reveal(linear_table);
    }
    let table: [u32; 256] = [
        0, 303_527, 607_054, 910_581, 1_214_108, 1_517_635, 1_821_162, 2_124_689,
        2_428_216, 2_731_743, 3_035_270, 3_346_536, 3_676_507, 4_024_717, 4_391_442, 4_776_953,
        5_181_517, 5_605_392, 6_048_833, 6_512_091, 6_995_410, 7_499_032, 8_023_192, 8_568_125,
        9_134_057, 9_721_218, 10_329_823, 10_960_094, 11_612_245, 12_286_487, 12_983_031, 13_702_081,
        14_443_844, 15_208_514, 15_996_292, 16_807_375, 17_641_952, 18_500_218, 19_382_361, 20_288_562,
        21_219_010, 22_173_883, 23_153_365, 24_157_630, 25_186_857, 26_241_222, 27_320_892, 28_426_038,
        29_556_833, 30_713_441, 31_896_029, 33_104_762, 34_339_808, 35_601_314, 36_889_445, 38_204_364,
        39_546_236, 40_915_199, 42_311_411, 43_735_027, 45_186_203, 46_665_084, 48_171_822, 49_706_563,
        51_269_468, 52_860_655, 54_480_281, 56_128_494, 57_805_434, 59_511_241, 61_246_071, 63_010_029,
        64_803_280, 66_625_953, 68_478_182, 70_360_109, 72_271_861, 74_213_579, 76_185_390, 78_187_428,
        80_219_828, 82_282_715, 84_376_216, 86_500_466, 88_655_606, 90_841_733, 93_058_981, 95_307_484,
        97_587_362, 99_898_741, 102_241_747, 104_616_493, 107_023_112, 109_461_717, 111_932_434, 114_435_382,
        116_970_673, 119_538_434, 122_138_798, 124_771_841, 127_437_696, 130_136_490, 132_868_335, 135_633_349,
        138_431_624, 141_263_306, 144_128_487, 147_027_284, 149_959_803, 152_926_162, 155_926_466, 158_960_864,
        162_029_400, 165_132_225, 168_269_396, 171_441_093, 174_647_391, 177_888_408, 181_164_235, 184_474_990,
        187_820_762, 191_201_672, 194_617_808, 198_069_304, 201_556_236, 205_078_706, 208_636_850, 212_230_727,
        215_860_531, 219_526_231, 223_227_978, 226_965_889, 230_740_070, 234_550_655, 238_397_658, 242_281_199,
        246_201_396, 250_158_370, 254_152_179, 258_182_913, 262_250_721, 266_355_664, 270_497_859, 274_677_366,
        278_894_335, 283_148_795, 287_440_896, 291_770_697, 296_138_316, 300_543_845, 304_987_371, 309_468_955,
        313_988_745, 318_546_832, 323_143_244, 327_778_131, 332_451_582, 337_163_657, 341_914_445, 346_704_096,
        351_532_698, 356_400_251, 361_306_876, 366_252_691, 371_237_785, 376_262_218, 381_326_109, 386_429_518,
        391_572_565, 396_755_308, 401_977_867, 407_240_301, 412_542_701, 417_885_154, 423_267_752, 428_690_553,
        434_153_706, 439_657_241, 445_201_248, 450_785_846, 456_411_064, 462_077_051, 467_783_839, 473_531_544,
        479_320_228, 485_149_980, 491_020_888, 496_933_043, 502_886_593, 508_881_450, 514_917_791, 520_995_677,
        527_115_226, 533_276_498, 539_479_613, 545_724_571, 552_011_490, 558_340_490, 564_711_630, 571_124_911,
        577_580_512, 584_078_491, 590_618_908, 597_201_884, 603_827_417, 610_495_627, 617_206_633, 623_960_435,
        630_757_213, 637_596_965, 644_479_752, 651_405_692, 658_374_846, 665_387_332, 672_443_211, 679_542_542,
        686_685_443, 693_871_915, 701_102_018, 708_375_931, 715_693_653, 723_055_243, 730_460_882, 737_910_569,
        745_404_363, 752_942_324, 760_524_631, 768_151_283, 775_822_341, 783_537_924, 791_298_032, 799_102_843,
        806_952_357, 814_846_694, 822_785_854, 830_769_956, 838_799_119, 846_873_283, 854_992_688, 863_157_272,
        871_367_216, 879_622_340, 887_923_181, 896_269_381, 904_661_357, 913_098_693, 921_582_043, 930_110_872,
        938_685_894, 947_306_573, 955_973_506, 964_686_275, 973_445_475, 982_250_571, 991_102_219, 1_000_000_000,
    ];
    assert(table == linear_table());
    table[c as usize] as u64
}

} // verus!
