//! What the program prints besides a document: its table of contents, its front
//! matter, lists of names, and what was detected about the terminal.
use vstd::prelude::*;

use crate::cli::Settings;
use crate::markdown::ir::opt_text;
use crate::render::{
    headings_view, screen_written, spans_text, text_of, HeadingEntry, HeadingV, ImageProvider,
    LineV, LinkMode, Screen, ScreenV, WriteOptions,
};
use crate::term::caps::{
    dark_background, protocol_name, Capabilities, ColorDepth, UnicodeLevel,
};
use crate::term::style::Rgb;
use crate::text;

verus! {

// --- the table of contents -------------------------------------------------------------

/// The depth of a heading below the first level.
pub open spec fn depth_of(level: u8) -> nat {
    if level == 0 {
        0
    } else {
        (level - 1) as nat
    }
}

/// One line of a table of contents.
pub open spec fn toc_line(h: HeadingV) -> Seq<char> {
    text::repeated("  "@, depth_of(h.level)) + h.text + "  #"@ + h.id + "\n"@
}

pub open spec fn toc_of(s: Seq<HeadingV>) -> Seq<char>
    decreases s.len(),
{
    if s.len() == 0 {
        Seq::empty()
    } else {
        toc_of(s.drop_last()) + toc_line(s.last())
    }
}

/// A table of contents: each heading as the page shows it, indented by its level, with
/// the anchor that leads to it.
pub fn toc_text(headings: &Vec<HeadingEntry>) -> (r: String)
    ensures
        r@ == toc_of(headings_view(headings@)),
{
    let ghost v = headings_view(headings@);
    let mut out = String::new();
    assert(v.take(0) =~= Seq::empty());
    for i in 0..headings.len()
        invariant
            v == headings_view(headings@),
            out@ == toc_of(v.take(i as int)),
    {
        assert(v.take(i + 1).drop_last() =~= v.take(i as int));
        assert(v[i as int] == headings@[i as int]@);
        let h = &headings[i];
        let ghost before = out@;
        text::push_repeated(
            &mut out,
            "  ",
            if h.level == 0 {
                0
            } else {
                (h.level - 1) as usize
            },
        );
        out.push_str(&h.text);
        out.push_str("  #");
        out.push_str(&h.id);
        out.push_str("\n");
        assert(out@ =~= before + toc_line(v[i as int]));
    }
    assert(v.take(headings@.len() as int) =~= v);
    out
}

// --- front matter ----------------------------------------------------------------------

/// The front matter of one file, introduced by its name where there are several.
pub open spec fn matter_of(name: Seq<char>, matter: Option<Seq<char>>, several: bool) -> Seq<char> {
    match matter {
        None => Seq::empty(),
        Some(m) => (if several {
            "--- # "@ + name + "\n"@
        } else {
            Seq::empty()
        }) + text::trim_end(m) + "\n"@,
    }
}

pub open spec fn matters_of(s: Seq<(Seq<char>, Option<Seq<char>>)>, k: int) -> Seq<char>
    decreases k,
{
    if k <= 0 {
        Seq::empty()
    } else {
        matters_of(s, k - 1) + matter_of(s[k - 1].0, s[k - 1].1, s.len() > 1)
    }
}

pub open spec fn named_matters(v: Seq<(String, Option<String>)>) -> Seq<
    (Seq<char>, Option<Seq<char>>),
> {
    Seq::new(v.len(), |k: int| (v[k].0@, opt_text(v[k].1)))
}

/// The front matter of some named files, which a page deliberately does not show.
///
/// It is metadata for whatever publishes the document, not part of it -- but a script
/// that wants a document's title or tags should not have to parse the file a second
/// time to get them. Several files make one YAML stream.
pub fn front_matter_text(files: &Vec<(String, Option<String>)>) -> (r: String)
    ensures
        r@ == matters_of(named_matters(files@), files@.len() as int),
{
    let ghost v = named_matters(files@);
    let mut out = String::new();
    for i in 0..files.len()
        invariant
            v == named_matters(files@),
            out@ == matters_of(v, i as int),
    {
        assert(v[i as int] == (files@[i as int].0@, opt_text(files@[i as int].1)));
        let ghost before = out@;
        match &files[i].1 {
            None => {
                assert(out@ =~= before + Seq::<char>::empty());
            },
            Some(m) => {
                if files.len() > 1 {
                    out.push_str("--- # ");
                    out.push_str(&files[i].0);
                    out.push_str("\n");
                }
                out.push_str(&text::trimmed_end(m));
                out.push_str("\n");
                assert(out@ =~= before + matter_of(v[i as int].0, v[i as int].1, v.len() > 1));
            },
        }
    }
    out
}

// --- lists -----------------------------------------------------------------------------

pub open spec fn list_of(s: Seq<Seq<char>>) -> Seq<char>
    decreases s.len(),
{
    if s.len() == 0 {
        Seq::empty()
    } else {
        list_of(s.drop_last()) + s.last() + "\n"@
    }
}

/// Names, one on each line.
pub fn list_text(items: &Vec<String>) -> (r: String)
    ensures
        r@ == list_of(text::views(items@)),
{
    let ghost v = text::views(items@);
    let mut out = String::new();
    assert(v.take(0) =~= Seq::empty());
    for i in 0..items.len()
        invariant
            v == text::views(items@),
            out@ == list_of(v.take(i as int)),
    {
        assert(v.take(i + 1).drop_last() =~= v.take(i as int));
        assert(v[i as int] == items@[i as int]@);
        out.push_str(&items[i]);
        out.push_str("\n");
    }
    assert(v.take(items@.len() as int) =~= v);
    out
}

// --- capabilities ------------------------------------------------------------------------

pub open spec fn yes_or_no(v: bool) -> Seq<char> {
    if v {
        "yes"@
    } else {
        "no"@
    }
}

pub fn yes_no(v: bool) -> (r: &'static str)
    ensures
        r@ == yes_or_no(v),
{
    if v {
        "yes"
    } else {
        "no"
    }
}

pub open spec fn depth_name(c: ColorDepth) -> Seq<char> {
    match c {
        ColorDepth::Mono => "None"@,
        ColorDepth::Ansi16 => "Ansi16"@,
        ColorDepth::Ansi256 => "Ansi256"@,
        ColorDepth::TrueColor => "TrueColor"@,
    }
}

fn name_of_depth(c: ColorDepth) -> (r: &'static str)
    ensures
        r@ == depth_name(c),
{
    match c {
        ColorDepth::Mono => "None",
        ColorDepth::Ansi16 => "Ansi16",
        ColorDepth::Ansi256 => "Ansi256",
        ColorDepth::TrueColor => "TrueColor",
    }
}

pub open spec fn level_name(u: UnicodeLevel) -> Seq<char> {
    match u {
        UnicodeLevel::Ascii => "Ascii"@,
        UnicodeLevel::Extended => "Extended"@,
        UnicodeLevel::Full => "Full"@,
    }
}

fn name_of_level(u: UnicodeLevel) -> (r: &'static str)
    ensures
        r@ == level_name(u),
{
    match u {
        UnicodeLevel::Ascii => "Ascii",
        UnicodeLevel::Extended => "Extended",
        UnicodeLevel::Full => "Full",
    }
}

/// A hexadecimal digit in lower case.
pub open spec fn hex_digit(n: int) -> char {
    if n < 10 {
        ((48 + n) as u32) as char
    } else {
        ((97 + n - 10) as u32) as char
    }
}

pub open spec fn hex_pair(n: u8) -> Seq<char> {
    seq![hex_digit(n as int / 16), hex_digit(n as int % 16)]
}

fn push_hex_digit(out: &mut String, n: u8)
    requires
        n < 16,
    ensures
        final(out)@ == old(out)@.push(hex_digit(n as int)),
{
    let code: u32 = if n < 10 {
        48 + n as u32
    } else {
        97 + (n as u32 - 10)
    };
    match char::from_u32(code) {
        Some(c) => out.push(c),
        None => {},
    }
}

fn push_hex(out: &mut String, n: u8)
    ensures
        final(out)@ == old(out)@ + hex_pair(n),
{
    let ghost before = out@;
    push_hex_digit(out, n / 16);
    push_hex_digit(out, n % 16);
    assert(out@ =~= before + hex_pair(n));
}

/// What is said of the terminal.
pub open spec fn terminal_part(
    caps: Capabilities,
    term: Option<Seq<char>>,
    program: Option<Seq<char>>,
) -> Seq<char> {
    "terminal\n  TERM              "@ + (match term {
        Some(t) => t,
        None => ""@,
    }) + "\n  TERM_PROGRAM      "@ + (match program {
        Some(p) => p,
        None => "-"@,
    }) + "\n  size              "@ + text::decimal(caps.cols as nat) + " x "@ + text::decimal(
        caps.rows as nat,
    ) + " cells\n  cell size         "@ + (match caps.cell_px {
        Some((w, h)) => text::decimal(w as nat) + " x "@ + text::decimal(h as nat) + " px"@,
        None => "unknown (assuming 8 x 16)"@,
    }) + "\n  stdout is a tty   "@ + yes_or_no(caps.is_tty) + "\n  multiplexer       "@
        + yes_or_no(caps.multiplexed) + "\n"@
}

/// What is said of the background.
pub open spec fn background_part(background: Option<Rgb>) -> Seq<char> {
    match background {
        Some(c) => "#"@ + hex_pair(c.0) + hex_pair(c.1) + hex_pair(c.2) + " ("@ + (
        if dark_background(background) {
            "dark"@
        } else {
            "light"@
        }) + ")"@,
        None => "unknown (assuming dark)"@,
    }
}

/// What is said of the capabilities.
pub open spec fn capabilities_part(caps: Capabilities) -> Seq<char> {
    "\ncapabilities\n  colour            "@ + depth_name(caps.color) + "\n  images            "@
        + protocol_name(caps.graphics) + "\n  hyperlinks        "@ + yes_or_no(caps.hyperlinks)
        + "\n  unicode           "@ + level_name(caps.unicode) + "\n  background        "@
        + background_part(caps.background) + "\n"@
}

/// What is said of the settings.
pub open spec fn settings_part(s: Settings, config: Option<(Seq<char>, bool)>) -> Seq<char> {
    "\nsettings\n  theme             "@ + s.theme.name@ + "\n  syntax theme      "@
        + s.syntax_theme@ + "\n  width             "@ + text::decimal(s.render.width as nat)
        + "\n  pager             "@ + yes_or_no(s.use_pager) + "\n  config            "@ + (
    match config {
        Some((path, there)) => path + (if there {
            " (loaded)"@
        } else {
            " (not present)"@
        }),
        None => "-"@,
    }) + "\n"@
}

fn push_terminal(out: &mut String, caps: &Capabilities, term: &Option<String>, program: &Option<
    String,
>)
    ensures
        final(out)@ == old(out)@ + terminal_part(*caps, opt_text(*term), opt_text(*program)),
{
    let ghost before = out@;
    let mut s = text::owned("terminal\n  TERM              ");
    s.push_str(
        match term {
            Some(t) => t.as_str(),
            None => "",
        },
    );
    s.push_str("\n  TERM_PROGRAM      ");
    s.push_str(
        match program {
            Some(p) => p.as_str(),
            None => "-",
        },
    );
    s.push_str("\n  size              ");
    text::push_decimal(&mut s, caps.cols as u64);
    s.push_str(" x ");
    text::push_decimal(&mut s, caps.rows as u64);
    s.push_str(" cells\n  cell size         ");
    let mut size = String::new();
    match caps.cell_px {
        Some((w, h)) => {
            text::push_decimal(&mut size, w as u64);
            size.push_str(" x ");
            text::push_decimal(&mut size, h as u64);
            size.push_str(" px");
            assert(size@ =~= text::decimal(w as nat) + " x "@ + text::decimal(h as nat) + " px"@);
        },
        None => {
            size.push_str("unknown (assuming 8 x 16)");
            assert(size@ =~= "unknown (assuming 8 x 16)"@);
        },
    }
    s.push_str(&size);
    s.push_str("\n  stdout is a tty   ");
    s.push_str(yes_no(caps.is_tty));
    s.push_str("\n  multiplexer       ");
    s.push_str(yes_no(caps.multiplexed));
    s.push_str("\n");
    out.push_str(&s);
}

fn background_text(caps: &Capabilities) -> (r: String)
    ensures
        r@ == background_part(caps.background),
{
    match caps.background {
        Some(c) => {
            let mut s = text::owned("#");
            push_hex(&mut s, c.0);
            push_hex(&mut s, c.1);
            push_hex(&mut s, c.2);
            s.push_str(" (");
            s.push_str(
                if caps.prefers_dark() {
                    "dark"
                } else {
                    "light"
                },
            );
            s.push_str(")");
            s
        },
        None => text::owned("unknown (assuming dark)"),
    }
}

fn push_capabilities(out: &mut String, caps: &Capabilities)
    ensures
        final(out)@ == old(out)@ + capabilities_part(*caps),
{
    let mut s = text::owned("\ncapabilities\n  colour            ");
    s.push_str(name_of_depth(caps.color));
    s.push_str("\n  images            ");
    s.push_str(caps.graphics.name());
    s.push_str("\n  hyperlinks        ");
    s.push_str(yes_no(caps.hyperlinks));
    s.push_str("\n  unicode           ");
    s.push_str(name_of_level(caps.unicode));
    s.push_str("\n  background        ");
    s.push_str(&background_text(caps));
    s.push_str("\n");
    out.push_str(&s);
}

pub open spec fn opt_file(o: Option<(String, bool)>) -> Option<(Seq<char>, bool)> {
    match o {
        Some((path, there)) => Some((path@, there)),
        None => None,
    }
}

fn push_settings(out: &mut String, settings: &Settings, config: &Option<(String, bool)>)
    ensures
        final(out)@ == old(out)@ + settings_part(*settings, opt_file(*config)),
{
    let mut s = text::owned("\nsettings\n  theme             ");
    s.push_str(&settings.theme.name);
    s.push_str("\n  syntax theme      ");
    s.push_str(&settings.syntax_theme);
    s.push_str("\n  width             ");
    text::push_decimal(&mut s, settings.render.width as u64);
    s.push_str("\n  pager             ");
    s.push_str(yes_no(settings.use_pager));
    s.push_str("\n  config            ");
    let place = match config {
        Some((path, there)) => {
            let mut p = text::owned(path);
            p.push_str(
                if *there {
                    " (loaded)"
                } else {
                    " (not present)"
                },
            );
            p
        },
        None => text::owned("-"),
    };
    s.push_str(&place);
    s.push_str("\n");
    out.push_str(&s);
}

/// What was detected, which is the first thing to check when images or colours are not
/// doing what someone expects. `config` is where the config file would be, and whether
/// it is there.
pub fn capabilities_text(
    settings: &Settings,
    term: &Option<String>,
    program: &Option<String>,
    config: &Option<(String, bool)>,
) -> (r: String)
    ensures
        r@ == terminal_part(settings.caps, opt_text(*term), opt_text(*program))
            + capabilities_part(settings.caps) + settings_part(*settings, opt_file(*config)),
{
    let mut out = String::new();
    push_terminal(&mut out, &settings.caps, term, program);
    push_capabilities(&mut out, &settings.caps);
    push_settings(&mut out, settings, config);
    assert(out@ =~= terminal_part(settings.caps, opt_text(*term), opt_text(*program))
        + capabilities_part(settings.caps) + settings_part(*settings, opt_file(*config)));
    out
}

// --- the page ------------------------------------------------------------------------------

/// How a page is written: with hyperlinks where the terminal has them or they were asked
/// for, and with images where they are on.
pub open spec fn write_options_for(settings: Settings) -> WriteOptions {
    WriteOptions {
        hyperlinks: settings.caps.hyperlinks || settings.render.links == LinkMode::Hyperlink,
        images: settings.render.images,
    }
}

/// What is printed of a page: its text alone, or the page with its styles and pictures.
pub open spec fn page_written<P: ImageProvider>(screen: ScreenV, settings: Settings, images: P) -> (
    Seq<char>,
    P,
) {
    if settings.styled {
        screen_written(screen, settings.caps, write_options_for(settings), images)
    } else {
        (text_of(screen.lines, screen.lines.len() as int), images)
    }
}

/// What is printed of a page. Redirected output is text that a script can read.
pub fn page_text<P: ImageProvider>(screen: &Screen, settings: &Settings, images: &mut P) -> (r:
    String)
    ensures
        (r@, *final(images)) == page_written(screen@, *settings, *old(images)),
        final(images).pictures() == old(images).pictures(),
{
    if !settings.styled {
        return screen.plain_text();
    }
    let opts = WriteOptions {
        hyperlinks: settings.caps.hyperlinks || settings.render.links == LinkMode::Hyperlink,
        images: settings.render.images,
    };
    screen.write(&settings.caps, &opts, images)
}

proof fn lemma_trim_end_holds(s: Seq<char>, c: char)
    requires
        !s.contains(c),
    ensures
        !text::trim_end(s).contains(c),
    decreases s.len(),
{
    if s.len() > 0 && text::is_space(s.last()) {
        assert forall|k: int| 0 <= k < s.drop_last().len() implies s.drop_last()[k] != c by {
            assert(s.contains(s[k]));
        }
        lemma_trim_end_holds(s.drop_last(), c);
    }
}

proof fn lemma_text_of_holds(lines: Seq<LineV>, k: int, c: char)
    requires
        0 <= k <= lines.len(),
        c != '\n',
        forall|i: int| 0 <= i < lines.len() ==> !spans_text((#[trigger] lines[i]).spans).contains(c),
    ensures
        !text_of(lines, k).contains(c),
    decreases k,
{
    if k > 0 {
        lemma_text_of_holds(lines, k - 1, c);
        let before = text_of(lines, k - 1);
        let last = text::trim_end(spans_text(lines[k - 1].spans));
        lemma_trim_end_holds(spans_text(lines[k - 1].spans), c);
        let all = text_of(lines, k);
        assert forall|j: int| 0 <= j < all.len() implies all[j] != c by {
            if j < before.len() {
                assert(before.contains(before[j]));
            } else if j < before.len() + last.len() {
                assert(last.contains(last[j - before.len()]));
            }
        }
    }
}

/// Unstyled output carries no escape sequences: it is the text of the page, so an escape
/// character can only come out of the document itself. No picture is drawn for it.
pub proof fn unstyled_pages_carry_no_escapes<P: ImageProvider>(
    screen: ScreenV,
    settings: Settings,
    images: P,
)
    requires
        !settings.styled,
        forall|i: int|
            0 <= i < screen.lines.len() ==> !spans_text(
                (#[trigger] screen.lines[i]).spans,
            ).contains('\u{1b}'),
    ensures
        !page_written(screen, settings, images).0.contains('\u{1b}'),
        page_written(screen, settings, images).1 == images,
{
    lemma_text_of_holds(screen.lines, screen.lines.len() as int, '\u{1b}');
}

} // verus!
