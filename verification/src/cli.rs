//! The settings resolution behind the command line.
//!
//! Three sources feed into one [`Settings`]: the flags, the config file, and what was
//! detected about the terminal. Flags win, then config, then detection. Keeping that
//! resolution in one place -- rather than checking `Option`s at each use site -- is
//! what keeps the rest of the crate free of "is this overridden?" branches.
use vstd::prelude::*;

use crate::config::Config;
use crate::markdown::ir::opt_text;
use crate::markdown::parse::ParseOptions;
use crate::render::glyphs::{level_glyphs, Glyphs};
use crate::render::{LinkMode, RenderOptions};
use crate::term::caps::{dark_background, Capabilities, ColorDepth, GraphicsProtocol, UnicodeLevel};
use crate::text;
use crate::theme::{is_builtin, is_builtin_name, is_mono_theme, Theme};

verus! {

/// The flags.
#[derive(Debug)]
pub struct Cli {
    /// Markdown files to view. `-` is standard input.
    pub files: Vec<String>,
    /// Maximum text width in columns.
    pub width: Option<usize>,
    /// Left and right margin in columns.
    pub margin: Option<usize>,
    /// Force the interactive pager, even when piping.
    pub pager: bool,
    /// Print the document and exit, without the pager.
    pub no_pager: bool,
    /// Strip all styling and print plain text.
    pub plain: bool,
    /// Theme name or path to a theme file.
    pub theme: Option<String>,
    /// Syntax highlighting theme for code blocks.
    pub syntax_theme: Option<String>,
    /// When to use colour.
    pub color: ColorChoice,
    /// Image protocol to use.
    pub images: ImageChoice,
    /// Allow fetching images over http(s).
    pub remote_images: bool,
    /// Maximum height of an image, in terminal rows.
    pub max_image_rows: Option<u16>,
    /// How to present link destinations.
    pub links: LinkChoice,
    /// Show line numbers beside code blocks.
    pub line_numbers: bool,
    /// Restrict drawing to ASCII characters.
    pub ascii: bool,
    /// Render again when the file changes. Implies the pager.
    pub watch: bool,
    /// Print the document's table of contents and exit.
    pub toc: bool,
    /// Print the document's front matter and exit.
    pub front_matter: bool,
    /// Print what was detected about this terminal and exit.
    pub caps: bool,
    /// List the available syntax highlighting themes and exit.
    pub list_themes: bool,
    /// List the languages that can be highlighted and exit.
    pub list_languages: bool,
    /// Write the man page and exit.
    pub man: bool,
    /// Use a specific config file, or `none` to ignore any config.
    pub config: Option<String>,
    /// Do not query the terminal for its capabilities at startup.
    pub no_probe: bool,
}

#[derive(Debug, Clone, Copy, PartialEq, Eq, Structural)]
pub enum ColorChoice {
    Auto,
    Always,
    Never,
    Ansi16,
    Ansi256,
    TrueColor,
}

#[derive(Debug, Clone, Copy, PartialEq, Eq, Structural)]
pub enum ImageChoice {
    Auto,
    Kitty,
    ITerm2,
    Sixel,
    Blocks,
    Off,
}

#[derive(Debug, Clone, Copy, PartialEq, Eq, Structural)]
pub enum LinkChoice {
    Auto,
    Hyperlink,
    Inline,
    Reference,
    Hide,
}

/// True of the flags when none is given.
pub open spec fn no_flags(c: Cli) -> bool {
    c.files@.len() == 0 && c.width is None && c.margin is None && !c.pager && !c.no_pager
        && !c.plain && c.theme is None && c.syntax_theme is None && c.color == ColorChoice::Auto
        && c.images == ImageChoice::Auto && !c.remote_images && c.max_image_rows is None && c.links
        == LinkChoice::Auto && !c.line_numbers && !c.ascii && !c.watch && !c.toc && !c.front_matter
        && !c.caps && !c.list_themes && !c.list_languages && !c.man && c.config is None
        && !c.no_probe
}

impl Default for Cli {
    fn default() -> (r: Cli)
        ensures
            no_flags(r),
    {
        Cli {
            files: Vec::new(),
            width: None,
            margin: None,
            pager: false,
            no_pager: false,
            plain: false,
            theme: None,
            syntax_theme: None,
            color: ColorChoice::Auto,
            images: ImageChoice::Auto,
            remote_images: false,
            max_image_rows: None,
            links: LinkChoice::Auto,
            line_numbers: false,
            ascii: false,
            watch: false,
            toc: false,
            front_matter: false,
            caps: false,
            list_themes: false,
            list_languages: false,
            man: false,
            config: None,
            no_probe: false,
        }
    }
}

/// What a choice of links means, apart from `auto`.
pub open spec fn link_mode(c: LinkChoice) -> LinkMode {
    match c {
        LinkChoice::Auto => LinkMode::Auto,
        LinkChoice::Hyperlink => LinkMode::Hyperlink,
        LinkChoice::Inline => LinkMode::Inline,
        LinkChoice::Reference => LinkMode::Reference,
        LinkChoice::Hide => LinkMode::Hide,
    }
}

impl From<LinkChoice> for LinkMode {
    fn from(c: LinkChoice) -> (r: LinkMode) {
        match c {
            LinkChoice::Auto => LinkMode::Auto,
            LinkChoice::Hyperlink => LinkMode::Hyperlink,
            LinkChoice::Inline => LinkMode::Inline,
            LinkChoice::Reference => LinkMode::Reference,
            LinkChoice::Hide => LinkMode::Hide,
        }
    }
}

impl vstd::std_specs::convert::FromSpecImpl<LinkChoice> for LinkMode {
    open spec fn obeys_from_spec() -> bool {
        true
    }

    open spec fn from_spec(c: LinkChoice) -> LinkMode {
        link_mode(c)
    }
}

/// Everything resolved: what to render, how, and where.
#[derive(Debug)]
pub struct Settings {
    pub caps: Capabilities,
    pub theme: Theme,
    pub render: RenderOptions,
    pub parse: ParseOptions,
    pub use_pager: bool,
    pub mouse: bool,
    /// Whether to emit escape sequences at all.
    ///
    /// Distinct from colour depth: a terminal with no colour still gets bold and
    /// underline, but a pipe gets neither. Redirected output should be text a script
    /// can read, which is why this is off unless stdout is a terminal or colour was
    /// explicitly forced.
    pub styled: bool,
    pub watch: bool,
    pub remote_images: bool,
    pub protocol: GraphicsProtocol,
    pub syntax_theme: String,
    /// Whether the pager was asked for by name, even for a document that fits.
    pub pager_forced: bool,
    /// The width the user asked for, if any.
    ///
    /// Kept separate from the resolved width so that a resize can start again from the
    /// original intent: a terminal that is widened again should get its full width
    /// back, which it cannot if the only record of the request is the value derived
    /// from the previous size.
    pub requested_width: Option<usize>,
}

/// The terminal width not exceeded even on a very wide window.
///
/// Long lines are hard to read; newspapers settled on something near this for the same
/// reason. Users who disagree can ask for another width.
pub const COMFORTABLE_WIDTH: usize = 100;

/// True of a setting that has one particular value.
pub open spec fn says(o: Option<String>, value: Seq<char>) -> bool {
    o matches Some(s) && s@ == value
}

fn is(o: &Option<String>, value: &str) -> (r: bool)
    ensures
        r == says(*o, value@),
{
    match o {
        Some(s) => text::same(s, value),
        None => false,
    }
}

/// A colour depth of at least 256 colours.
pub open spec fn raised(c: ColorDepth) -> ColorDepth {
    if c == ColorDepth::TrueColor {
        ColorDepth::TrueColor
    } else {
        ColorDepth::Ansi256
    }
}

/// The colour depth: flags, then config, then detection.
pub open spec fn color_for(cli: Cli, config: Config, detected: ColorDepth) -> ColorDepth {
    if cli.plain {
        ColorDepth::Mono
    } else {
        match cli.color {
            ColorChoice::Never => ColorDepth::Mono,
            ColorChoice::Always => raised(detected),
            ColorChoice::Ansi16 => ColorDepth::Ansi16,
            ColorChoice::Ansi256 => ColorDepth::Ansi256,
            ColorChoice::TrueColor => ColorDepth::TrueColor,
            ColorChoice::Auto => if says(config.color, "never"@) {
                ColorDepth::Mono
            } else if says(config.color, "always"@) {
                raised(detected)
            } else if says(config.color, "16"@) {
                ColorDepth::Ansi16
            } else if says(config.color, "256"@) {
                ColorDepth::Ansi256
            } else if says(config.color, "truecolor"@) || says(config.color, "24bit"@) {
                ColorDepth::TrueColor
            } else {
                detected
            },
        }
    }
}

pub open spec fn unicode_for(cli: Cli, config: Config, detected: UnicodeLevel) -> UnicodeLevel {
    if cli.ascii || says(config.unicode, "ascii"@) {
        UnicodeLevel::Ascii
    } else if says(config.unicode, "extended"@) {
        UnicodeLevel::Extended
    } else if says(config.unicode, "full"@) {
        UnicodeLevel::Full
    } else {
        detected
    }
}

/// The image protocol: flags, then config, then detection.
pub open spec fn protocol_for(
    cli: Cli,
    config: Config,
    detected: GraphicsProtocol,
) -> GraphicsProtocol {
    if cli.plain {
        GraphicsProtocol::Off
    } else {
        match cli.images {
            ImageChoice::Kitty => GraphicsProtocol::Kitty,
            ImageChoice::ITerm2 => GraphicsProtocol::ITerm2,
            ImageChoice::Sixel => GraphicsProtocol::Sixel,
            ImageChoice::Blocks => GraphicsProtocol::Blocks,
            ImageChoice::Off => GraphicsProtocol::Off,
            ImageChoice::Auto => if says(config.image_protocol, "kitty"@) {
                GraphicsProtocol::Kitty
            } else if says(config.image_protocol, "iterm2"@) {
                GraphicsProtocol::ITerm2
            } else if says(config.image_protocol, "sixel"@) {
                GraphicsProtocol::Sixel
            } else if says(config.image_protocol, "blocks"@) {
                GraphicsProtocol::Blocks
            } else if says(config.image_protocol, "none"@) || config.images == Some(false) {
                GraphicsProtocol::Off
            } else {
                detected
            },
        }
    }
}

/// The capabilities with everything forced that flags or config force.
pub open spec fn caps_resolved(cli: Cli, config: Config, detected: Capabilities) -> Capabilities {
    Capabilities {
        color: color_for(cli, config, detected.color),
        unicode: unicode_for(cli, config, detected.unicode),
        graphics: protocol_for(cli, config, detected.graphics),
        ..detected
    }
}

/// The name of the theme: the flag, then what the config says for this background, then
/// what it says for any, then the built-in one for this background.
pub open spec fn theme_named(cli: Cli, config: Config, background_dark: bool) -> Seq<char> {
    match cli.theme {
        Some(name) => name@,
        None => match if background_dark {
            config.dark_theme
        } else {
            config.light_theme
        } {
            Some(name) => name@,
            None => match config.theme {
                Some(name) => name@,
                None => if background_dark {
                    "dark"@
                } else {
                    "light"@
                },
            },
        },
    }
}

/// The syntax theme. A terminal of 16 colours is better served by a theme built for the
/// user's own palette than by squashed RGB.
pub open spec fn syntax_named(
    cli: Cli,
    config: Config,
    color: ColorDepth,
    theme: Theme,
) -> Seq<char> {
    match cli.syntax_theme {
        Some(name) => name@,
        None => match config.syntax_theme {
            Some(name) => name@,
            None => if color == ColorDepth::Ansi16 {
                "ansi"@
            } else {
                theme.syntax_theme@
            },
        },
    }
}

/// The first of two that is there.
pub open spec fn either<T>(a: Option<T>, b: Option<T>) -> Option<T> {
    if a is Some {
        a
    } else {
        b
    }
}

/// What is there, or a default.
pub open spec fn given_or<T>(a: Option<T>, default: T) -> T {
    match a {
        Some(v) => v,
        None => default,
    }
}

/// `n`, but at least `lo` and at most `hi`.
pub open spec fn within(n: int, lo: int, hi: int) -> int {
    if n < lo {
        lo
    } else if n > hi {
        hi
    } else {
        n
    }
}

pub open spec fn width_for(cli: Cli, config: Config, cols: u16) -> int {
    within(
        given_or(
            either(cli.width, config.width),
            if cols < COMFORTABLE_WIDTH {
                cols as usize
            } else {
                COMFORTABLE_WIDTH
            },
        ) as int,
        8,
        if cols > 4096 {
            cols as int
        } else {
            4096
        },
    )
}

/// The margin, which never takes more than half of the page.
pub open spec fn margin_for(cli: Cli, config: Config, width: int) -> int {
    let asked = given_or(either(cli.margin, config.margin), 1usize) as int;
    if asked > width / 4 {
        width / 4
    } else {
        asked
    }
}

pub open spec fn links_for(cli: Cli, config: Config) -> LinkMode {
    if cli.links != LinkChoice::Auto {
        link_mode(cli.links)
    } else if says(config.links, "hyperlink"@) {
        LinkMode::Hyperlink
    } else if says(config.links, "inline"@) {
        LinkMode::Inline
    } else if says(config.links, "reference"@) {
        LinkMode::Reference
    } else if says(config.links, "hide"@) {
        LinkMode::Hide
    } else {
        LinkMode::Auto
    }
}

/// How a page is rendered.
pub open spec fn render_for(cli: Cli, config: Config, caps: Capabilities) -> RenderOptions {
    let width = width_for(cli, config, caps.cols);
    RenderOptions {
        width: width as usize,
        margin: margin_for(cli, config, width) as usize,
        links: links_for(cli, config),
        images: caps.graphics != GraphicsProtocol::Off,
        max_image_rows: within(
            given_or(either(cli.max_image_rows, config.max_image_rows), 24u16) as int,
            1,
            65535,
        ) as u16,
        line_numbers: cli.line_numbers || given_or(config.line_numbers, false),
        center_figures: given_or(config.center_figures, true),
        tab_width: within(given_or(config.tab_width, 4usize) as int, 1, 16) as usize,
        glyphs: level_glyphs(caps.unicode),
        heading_rules: given_or(config.heading_rules, true),
    }
}

/// Whether the pager is used. Watching without it would print once and then have
/// nowhere to put the updates.
pub open spec fn paged(cli: Cli, config: Config, is_tty: bool) -> bool {
    cli.pager || (!cli.no_pager && !cli.plain && !cli.toc && is_tty && (cli.watch || given_or(
        config.pager,
        true,
    )))
}

/// Whether escape sequences are written. Forcing colour or an image protocol forces
/// styling too, so that output through a pipe keeps its colour or its pictures; left on
/// `auto`, a redirect still gets plain text.
pub open spec fn styled_for(cli: Cli, caps: Capabilities) -> bool {
    !cli.plain && (caps.is_tty || caps.color != ColorDepth::Mono || (cli.images != ImageChoice::Auto
        && cli.images != ImageChoice::Off))
}

/// Why settings could not be resolved.
#[derive(Debug, PartialEq, Eq)]
pub enum SettingsError {
    /// There is no theme of this name, built in or in a file.
    UnknownTheme(String),
}

impl SettingsError {
    /// What the user is told.
    pub fn message(&self) -> (r: String)
        ensures
            self matches SettingsError::UnknownTheme(name) ==> r@ == "unknown theme "@
                + text::quoted_text(name@)
                + "; built-in themes are [\"dark\", \"light\", \"mono\"], or give a path to a theme file"@,
    {
        match self {
            SettingsError::UnknownTheme(name) => {
                let mut s = text::owned("unknown theme ");
                s.push_str(&text::quoted(name));
                s.push_str(
                    "; built-in themes are [\"dark\", \"light\", \"mono\"], or give a path to a theme file",
                );
                s
            },
        }
    }
}

fn copied(o: &Option<String>) -> (r: Option<String>)
    ensures
        opt_text(r) == opt_text(*o),
{
    match o {
        Some(s) => Some(text::owned(s)),
        None => None,
    }
}

fn bool_or(o: Option<bool>, default: bool) -> (r: bool)
    ensures
        r == given_or(o, default),
{
    match o {
        Some(b) => b,
        None => default,
    }
}

/// The name of the theme to use, which has to be loaded if it is not built in.
pub fn theme_name(cli: &Cli, config: &Config, caps: &Capabilities) -> (r: String)
    ensures
        r@ == theme_named(*cli, *config, dark_background(caps.background)),
{
    let dark = caps.prefers_dark();
    match &cli.theme {
        Some(name) => text::owned(name),
        None => {
            let own = if dark {
                &config.dark_theme
            } else {
                &config.light_theme
            };
            match own {
                Some(name) => text::owned(name),
                None => match &config.theme {
                    Some(name) => text::owned(name),
                    None => text::owned(
                        if dark {
                            "dark"
                        } else {
                            "light"
                        },
                    ),
                },
            }
        },
    }
}

/// The files to look for a theme in, in order: the name as a path, then a file of that
/// name in the directory of themes.
pub fn theme_files(name: &str, theme_dir: Option<&str>) -> (r: Vec<String>)
    ensures
        text::views(r@) == (match theme_dir {
            Some(dir) => seq![
                name@,
                crate::markdown::rebase::joined_path(dir@, name@ + ".toml"@),
            ],
            None => seq![name@],
        }),
{
    let mut out: Vec<String> = Vec::new();
    out.push(text::owned(name));
    match theme_dir {
        Some(dir) => {
            let v = text::chars_of(dir);
            let mut path = text::owned(dir);
            if !(v.len() == 0 || v[v.len() - 1] == '/') {
                path.push_str("/");
            }
            path.push_str(name);
            path.push_str(".toml");
            assert(path@ =~= crate::markdown::rebase::joined_path(dir@, name@ + ".toml"@));
            out.push(path);
            assert(text::views(out@) =~= seq![
                name@,
                crate::markdown::rebase::joined_path(dir@, name@ + ".toml"@),
            ]);
        },
        None => {
            assert(text::views(out@) =~= seq![name@]);
        },
    }
    out
}

fn resolve_color(cli: &Cli, config: &Config, detected: ColorDepth) -> (r: ColorDepth)
    ensures
        r == color_for(*cli, *config, detected),
{
    if cli.plain {
        return ColorDepth::Mono;
    }
    let most = if detected == ColorDepth::TrueColor {
        ColorDepth::TrueColor
    } else {
        ColorDepth::Ansi256
    };
    match cli.color {
        ColorChoice::Never => ColorDepth::Mono,
        ColorChoice::Always => most,
        ColorChoice::Ansi16 => ColorDepth::Ansi16,
        ColorChoice::Ansi256 => ColorDepth::Ansi256,
        ColorChoice::TrueColor => ColorDepth::TrueColor,
        ColorChoice::Auto => if is(&config.color, "never") {
            ColorDepth::Mono
        } else if is(&config.color, "always") {
            most
        } else if is(&config.color, "16") {
            ColorDepth::Ansi16
        } else if is(&config.color, "256") {
            ColorDepth::Ansi256
        } else if is(&config.color, "truecolor") || is(&config.color, "24bit") {
            ColorDepth::TrueColor
        } else {
            detected
        },
    }
}

fn resolve_unicode(cli: &Cli, config: &Config, detected: UnicodeLevel) -> (r: UnicodeLevel)
    ensures
        r == unicode_for(*cli, *config, detected),
{
    if cli.ascii || is(&config.unicode, "ascii") {
        UnicodeLevel::Ascii
    } else if is(&config.unicode, "extended") {
        UnicodeLevel::Extended
    } else if is(&config.unicode, "full") {
        UnicodeLevel::Full
    } else {
        detected
    }
}

fn resolve_protocol(cli: &Cli, config: &Config, detected: GraphicsProtocol) -> (r: GraphicsProtocol)
    ensures
        r == protocol_for(*cli, *config, detected),
{
    if cli.plain {
        return GraphicsProtocol::Off;
    }
    match cli.images {
        ImageChoice::Kitty => GraphicsProtocol::Kitty,
        ImageChoice::ITerm2 => GraphicsProtocol::ITerm2,
        ImageChoice::Sixel => GraphicsProtocol::Sixel,
        ImageChoice::Blocks => GraphicsProtocol::Blocks,
        ImageChoice::Off => GraphicsProtocol::Off,
        ImageChoice::Auto => {
            let off = match config.images {
                Some(on) => !on,
                None => false,
            };
            if is(&config.image_protocol, "kitty") {
                GraphicsProtocol::Kitty
            } else if is(&config.image_protocol, "iterm2") {
                GraphicsProtocol::ITerm2
            } else if is(&config.image_protocol, "sixel") {
                GraphicsProtocol::Sixel
            } else if is(&config.image_protocol, "blocks") {
                GraphicsProtocol::Blocks
            } else if is(&config.image_protocol, "none") || off {
                GraphicsProtocol::Off
            } else {
                detected
            }
        },
    }
}

fn resolve_links(cli: &Cli, config: &Config) -> (r: LinkMode)
    ensures
        r == links_for(*cli, *config),
{
    if cli.links != LinkChoice::Auto {
        LinkMode::from(cli.links)
    } else if is(&config.links, "hyperlink") {
        LinkMode::Hyperlink
    } else if is(&config.links, "inline") {
        LinkMode::Inline
    } else if is(&config.links, "reference") {
        LinkMode::Reference
    } else if is(&config.links, "hide") {
        LinkMode::Hide
    } else {
        LinkMode::Auto
    }
}

fn clamp(n: usize, lo: usize, hi: usize) -> (r: usize)
    ensures
        r == within(n as int, lo as int, hi as int),
{
    if n < lo {
        lo
    } else if n > hi {
        hi
    } else {
        n
    }
}

fn resolve_render(cli: &Cli, config: &Config, caps: &Capabilities) -> (r: RenderOptions)
    ensures
        r == render_for(*cli, *config, *caps),
{
    let terminal_width: usize = caps.cols as usize;
    let asked = if cli.width.is_some() {
        cli.width
    } else {
        config.width
    };
    let width = clamp(
        match asked {
            Some(w) => w,
            None => if terminal_width < COMFORTABLE_WIDTH {
                terminal_width
            } else {
                COMFORTABLE_WIDTH
            },
        },
        8,
        if terminal_width > 4096 {
            terminal_width
        } else {
            4096
        },
    );
    let margin: usize = match if cli.margin.is_some() {
        cli.margin
    } else {
        config.margin
    } {
        Some(m) => m,
        None => 1,
    };
    let rows: u16 = match if cli.max_image_rows.is_some() {
        cli.max_image_rows
    } else {
        config.max_image_rows
    } {
        Some(n) => n,
        None => 24,
    };
    RenderOptions {
        width,
        margin: if margin > width / 4 {
            width / 4
        } else {
            margin
        },
        links: resolve_links(cli, config),
        images: caps.graphics != GraphicsProtocol::Off,
        max_image_rows: if rows < 1 {
            1
        } else {
            rows
        },
        line_numbers: cli.line_numbers || bool_or(config.line_numbers, false),
        center_figures: bool_or(config.center_figures, true),
        tab_width: clamp(
            match config.tab_width {
                Some(n) => n,
                None => 4,
            },
            1,
            16,
        ),
        glyphs: Glyphs::for_level(caps.unicode),
        heading_rules: bool_or(config.heading_rules, true),
    }
}

/// Whether the terminal may be queried for its capabilities.
pub fn may_probe(cli: &Cli, config: &Config) -> (r: bool)
    ensures
        r == (!cli.no_probe && config.probe != Some(false)),
{
    !cli.no_probe && match config.probe {
        Some(on) => on,
        None => true,
    }
}

impl Settings {
    /// Resolves flags, config and detected capabilities into one settings value.
    /// `loaded` is the theme that was found in a file, where there is none of that name
    /// built in.
    pub fn resolve(
        cli: &Cli,
        config: &Config,
        detected: &Capabilities,
        loaded: Option<Theme>,
    ) -> (r: Result<Settings, SettingsError>)
        ensures
            ({
                let caps = caps_resolved(*cli, *config, *detected);
                let name = theme_named(*cli, *config, dark_background(detected.background));
                match r {
                    Err(SettingsError::UnknownTheme(n)) => n@ == name && !is_builtin_name(name)
                        && loaded is None,
                    Ok(s) => {
                        &&& is_builtin_name(name) || loaded is Some
                        &&& s.caps == caps
                        &&& caps.color == ColorDepth::Mono ==> is_mono_theme(s.theme)
                        &&& caps.color != ColorDepth::Mono && is_builtin_name(name) ==> is_builtin(
                            s.theme,
                            name,
                        )
                        &&& caps.color != ColorDepth::Mono && !is_builtin_name(name) ==> s.theme
                            == loaded->0
                        &&& s.render == render_for(*cli, *config, caps)
                        &&& s.parse == (ParseOptions {
                            gfm: true,
                            math: true,
                            smart_punctuation: given_or(config.smart_punctuation, true),
                            wikilinks: true,
                            definition_lists: true,
                            front_matter: true,
                        })
                        &&& s.use_pager == paged(*cli, *config, caps.is_tty)
                        &&& s.mouse == given_or(config.mouse, false)
                        &&& s.styled == styled_for(*cli, caps)
                        &&& s.watch == cli.watch
                        &&& s.remote_images == (cli.remote_images || given_or(
                            config.remote_images,
                            false,
                        ))
                        &&& s.protocol == caps.graphics
                        &&& s.syntax_theme@ == syntax_named(*cli, *config, caps.color, s.theme)
                        &&& s.pager_forced == cli.pager
                        &&& s.requested_width == either(cli.width, config.width)
                    },
                }
            }),
    {
        let mut caps = *detected;
        caps.color = resolve_color(cli, config, detected.color);
        caps.unicode = resolve_unicode(cli, config, detected.unicode);
        let protocol = resolve_protocol(cli, config, detected.graphics);
        caps.graphics = protocol;
        let name = theme_name(cli, config, detected);
        let found = match Theme::builtin(&name) {
            Some(t) => Some(t),
            None => loaded,
        };
        let theme = match found {
            None => {
                return Err(SettingsError::UnknownTheme(name));
            },
            Some(t) => if caps.color == ColorDepth::Mono {
                Theme::mono()
            } else {
                t
            },
        };
        let syntax_theme = match copied(&cli.syntax_theme) {
            Some(s) => s,
            None => match copied(&config.syntax_theme) {
                Some(s) => s,
                None => if caps.color == ColorDepth::Ansi16 {
                    text::owned("ansi")
                } else {
                    text::owned(&theme.syntax_theme)
                },
            },
        };
        let render = resolve_render(cli, config, &caps);
        let parse = ParseOptions {
            gfm: true,
            math: true,
            smart_punctuation: bool_or(config.smart_punctuation, true),
            wikilinks: true,
            definition_lists: true,
            front_matter: true,
        };
        let use_pager = if cli.pager {
            true
        } else if cli.no_pager || cli.plain || cli.toc {
            false
        } else if cli.watch {
            caps.is_tty
        } else {
            caps.is_tty && bool_or(config.pager, true)
        };
        let images_forced = !(cli.images == ImageChoice::Auto || cli.images == ImageChoice::Off);
        let styled = !cli.plain && (caps.is_tty || caps.color != ColorDepth::Mono || images_forced);
        Ok(
            Settings {
                caps,
                theme,
                render,
                parse,
                use_pager,
                mouse: bool_or(config.mouse, false),
                styled,
                watch: cli.watch,
                remote_images: cli.remote_images || bool_or(config.remote_images, false),
                protocol,
                syntax_theme,
                pager_forced: cli.pager,
                requested_width: if cli.width.is_some() {
                    cli.width
                } else {
                    config.width
                },
            },
        )
    }
}

// --- laws ------------------------------------------------------------------------------

/// A flag beats the config file: where a flag names a value, what the config says makes
/// no difference.
pub proof fn flags_beat_the_config(cli: Cli, a: Config, b: Config, caps: Capabilities)
    ensures
        cli.width is Some ==> width_for(cli, a, caps.cols) == width_for(cli, b, caps.cols),
        cli.margin is Some ==> forall|w: int| #[trigger]
            margin_for(cli, a, w) == margin_for(cli, b, w),
        cli.color != ColorChoice::Auto ==> color_for(cli, a, caps.color) == color_for(
            cli,
            b,
            caps.color,
        ),
        cli.images != ImageChoice::Auto ==> protocol_for(cli, a, caps.graphics) == protocol_for(
            cli,
            b,
            caps.graphics,
        ),
        cli.links != LinkChoice::Auto ==> links_for(cli, a) == links_for(cli, b),
        cli.theme is Some ==> forall|dark: bool| #[trigger]
            theme_named(cli, a, dark) == theme_named(cli, b, dark),
        cli.ascii ==> unicode_for(cli, a, caps.unicode) == unicode_for(cli, b, caps.unicode),
{
}

/// Both margins together never take more than half of the page, and a page is never
/// unusably narrow.
pub proof fn margins_leave_a_page(cli: Cli, config: Config, cols: u16)
    ensures
        width_for(cli, config, cols) >= 8,
        2 * margin_for(cli, config, width_for(cli, config, cols)) * 2 <= width_for(
            cli,
            config,
            cols,
        ),
{
}

/// Plain output has no colour, no pictures, no pager and no escape sequences.
pub proof fn plain_is_plain(cli: Cli, config: Config, detected: Capabilities)
    requires
        cli.plain,
        !cli.pager,
    ensures
        caps_resolved(cli, config, detected).color == ColorDepth::Mono,
        caps_resolved(cli, config, detected).graphics == GraphicsProtocol::Off,
        !render_for(cli, config, caps_resolved(cli, config, detected)).images,
        !paged(cli, config, detected.is_tty),
        !styled_for(cli, caps_resolved(cli, config, detected)),
{
}

/// Redirected output is unstyled unless colour or a protocol was forced.
pub proof fn redirects_are_unstyled(cli: Cli, config: Config, detected: Capabilities)
    requires
        !detected.is_tty,
        detected.color == ColorDepth::Mono,
        cli.color == ColorChoice::Auto || cli.color == ColorChoice::Never,
        config.color is None,
        cli.images == ImageChoice::Auto || cli.images == ImageChoice::Off,
    ensures
        !styled_for(cli, caps_resolved(cli, config, detected)),
{
}

} // verus!
