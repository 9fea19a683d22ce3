//! Colours and styles.
use termmd::term::{Color, ColorDepth, Rgb, Style, StyleWriter};

#[test]
fn parses_hex_colors() {
    assert_eq!(Rgb::parse("#ff8800"), Some(Rgb(255, 136, 0)));
    assert_eq!(Rgb::parse("f80"), Some(Rgb(255, 136, 0)));
    assert_eq!(Rgb::parse("#zzz"), None);
    assert_eq!(Rgb::parse("#ff88"), None);
}

#[test]
fn a_sign_is_no_hex_digit() {
    assert_eq!(Rgb::parse("+f+f+f"), None);
    assert_eq!(Rgb::parse("#+12"), None);
    assert_eq!(Rgb::parse("FF8800"), Some(Rgb(255, 136, 0)));
}

#[test]
fn a_run_of_transitions_ends_in_the_last_style() {
    let mut w = StyleWriter::new(ColorDepth::TrueColor);
    let mut out = String::new();
    w.transition(Style::plain().bold().fg(Color::rgb(1, 2, 3)), &mut out);
    w.transition(Style::plain().italic().bg(Color::Indexed(9)), &mut out);
    w.transition(Style::plain().italic().bg(Color::Indexed(9)), &mut out);
    w.transition(Style::plain(), &mut out);
    assert_eq!(out, "\x1b[1;38;2;1;2;3m\x1b[0;3;101m\x1b[0m");
}

#[test]
fn truecolor_roundtrip_is_exact() {
    let mut w = StyleWriter::new(ColorDepth::TrueColor);
    let mut out = String::new();
    w.transition(Style::plain().fg(Color::rgb(1, 2, 3)), &mut out);
    assert_eq!(out, "\x1b[38;2;1;2;3m");
}

#[test]
fn a_writer_that_forgets_states_the_style_again() {
    let bold = Style::plain().bold();
    let mut w = StyleWriter::new(ColorDepth::TrueColor);
    let mut out = String::new();
    w.transition(bold, &mut out);
    w.transition(bold, &mut out);
    assert_eq!(out, "\x1b[1m");
    w.forget();
    w.transition(bold, &mut out);
    assert_eq!(out, "\x1b[1m\x1b[1m");
}

#[test]
fn degrades_to_256_and_16() {
    let mut out = String::new();
    StyleWriter::new(ColorDepth::Ansi256)
        .transition(Style::plain().fg(Color::rgb(255, 255, 255)), &mut out);
    assert_eq!(out, "\x1b[38;5;231m");

    // Nearest-neighbour in RGB space: pure red is closer to the palette's
    // red (170,0,0) than to its bright red (255,85,85).
    let mut out = String::new();
    StyleWriter::new(ColorDepth::Ansi16)
        .transition(Style::plain().fg(Color::rgb(255, 0, 0)), &mut out);
    assert_eq!(out, "\x1b[31m");

    let mut out = String::new();
    StyleWriter::new(ColorDepth::Ansi16)
        .transition(Style::plain().fg(Color::rgb(255, 122, 112)), &mut out);
    assert_eq!(out, "\x1b[91m", "a soft red should reach the bright slot");
}

#[test]
fn mono_emits_attributes_but_no_color() {
    let mut out = String::new();
    StyleWriter::new(ColorDepth::Mono)
        .transition(Style::plain().fg(Color::rgb(255, 0, 0)).bold(), &mut out);
    assert_eq!(out, "\x1b[1m");
}

#[test]
fn additive_transition_avoids_reset() {
    let mut w = StyleWriter::new(ColorDepth::TrueColor);
    let mut out = String::new();
    w.transition(Style::plain().bold(), &mut out);
    out.clear();
    w.transition(Style::plain().bold().italic(), &mut out);
    assert_eq!(out, "\x1b[3m", "adding an attribute should not reset");
}

#[test]
fn removing_an_attribute_resets_first() {
    let mut w = StyleWriter::new(ColorDepth::TrueColor);
    let mut out = String::new();
    w.transition(Style::plain().bold().italic(), &mut out);
    out.clear();
    w.transition(Style::plain().italic(), &mut out);
    assert_eq!(out, "\x1b[0;3m");
}

#[test]
fn grey_prefers_the_ramp_over_the_cube() {
    // 0x30 grey is much closer to ramp entry 236 than to cube black.
    assert_eq!(Rgb(48, 48, 48).to_xterm256(), 236);
}

#[test]
fn merge_prefers_the_overlay() {
    let base = Style::plain().fg(Color::rgb(1, 1, 1)).bold();
    let over = Style::plain().fg(Color::rgb(2, 2, 2)).italic();
    let m = base.merge(over);
    assert_eq!(m.fg, Color::rgb(2, 2, 2));
    assert!(m.bold && m.italic);
}
