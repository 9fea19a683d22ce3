//! What a terminal can do.
use termmd::term::{Capabilities, ColorDepth, GraphicsProtocol, Rgb};

/// Decides a protocol for a made-up terminal, with no environment involved.
fn graphics_for(term: &str, term_program: &str, kitty_marker: bool) -> GraphicsProtocol {
    let caps = Capabilities {
        is_tty: true,
        color: ColorDepth::TrueColor,
        ..Default::default()
    };
    Capabilities::choose_graphics(&caps, term, term_program, kitty_marker)
}

#[test]
fn term_program_outranks_the_marker_variables() {
    // Regression: KITTY_WINDOW_ID and GHOSTTY_RESOURCES_DIR are exported
    // into every child process, so a shell that started life under one
    // terminal keeps carrying them. TERM_PROGRAM says what is drawing now,
    // and letting a stale marker beat it sends kitty escape codes to a
    // terminal that has never heard of them.
    assert_eq!(
        graphics_for("xterm-256color", "iTerm.app", true),
        GraphicsProtocol::ITerm2
    );
    assert_eq!(
        graphics_for("xterm-256color", "Apple_Terminal", true),
        GraphicsProtocol::Blocks
    );
    // With nothing better to go on, the marker still counts.
    assert_eq!(
        graphics_for("xterm-256color", "", true),
        GraphicsProtocol::Kitty
    );
}

#[test]
fn known_terminals_get_their_protocol() {
    assert_eq!(
        graphics_for("xterm-ghostty", "ghostty", false),
        GraphicsProtocol::Kitty
    );
    assert_eq!(
        graphics_for("xterm-kitty", "", false),
        GraphicsProtocol::Kitty
    );
    assert_eq!(
        graphics_for("wezterm", "WezTerm", false),
        GraphicsProtocol::Kitty
    );
    assert_eq!(graphics_for("foot", "", false), GraphicsProtocol::Sixel);
    assert_eq!(
        graphics_for("xterm-256color", "", false),
        GraphicsProtocol::Blocks
    );
}

#[test]
fn a_multiplexer_falls_back_to_blocks() {
    let caps = Capabilities {
        is_tty: true,
        multiplexed: true,
        color: ColorDepth::TrueColor,
        ..Default::default()
    };
    assert_eq!(
        Capabilities::choose_graphics(&caps, "xterm-kitty", "ghostty", true),
        GraphicsProtocol::Blocks
    );
}

#[test]
fn graphics_names_are_stable() {
    assert_eq!(GraphicsProtocol::Kitty.name(), "kitty");
    assert!(GraphicsProtocol::Sixel.is_pixel_exact());
    assert!(!GraphicsProtocol::Blocks.is_pixel_exact());
}

#[test]
fn unknown_background_is_treated_as_dark() {
    let caps = Capabilities::default();
    assert!(caps.prefers_dark());
}

#[test]
fn light_background_is_detected() {
    let caps = Capabilities {
        background: Some(Rgb(250, 250, 250)),
        ..Default::default()
    };
    assert!(!caps.prefers_dark());
}

#[test]
fn color_depth_orders_by_fidelity() {
    assert!(ColorDepth::TrueColor > ColorDepth::Ansi256);
    assert!(ColorDepth::Ansi16 > ColorDepth::Mono);
}
