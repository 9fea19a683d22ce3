//! Resolving flags, config and detection into settings.
use termmd::cli::{
    may_probe, theme_files, theme_name, Cli, ColorChoice, ImageChoice, LinkChoice, Settings,
};
use termmd::config::Config;
use termmd::render::LinkMode;
use termmd::term::{Capabilities, ColorDepth, GraphicsProtocol, UnicodeLevel};

/// A terminal about which nothing is known, and which is not one.
fn piped() -> Capabilities {
    Capabilities::default()
}

fn resolve(cli: &Cli, config: &Config) -> Settings {
    Settings::resolve(cli, config, &piped(), None).unwrap()
}

#[test]
fn parses_files_and_flags() {
    let c = Cli {
        files: vec!["a.md".into(), "b.md".into()],
        width: Some(72),
        line_numbers: true,
        ..Default::default()
    };
    assert_eq!(c.files.len(), 2);
    let s = resolve(&c, &Config::default());
    assert_eq!(s.requested_width, Some(72));
    assert!(s.render.line_numbers);
}

#[test]
fn flags_beat_config() {
    let config = Config {
        width: Some(50),
        ..Default::default()
    };
    let s = resolve(&Cli { width: Some(72), ..Default::default() }, &config);
    assert_eq!(s.render.width, 72);
}

#[test]
fn config_beats_defaults() {
    let config = Config {
        width: Some(50),
        margin: Some(3),
        ..Default::default()
    };
    let s = resolve(&Cli::default(), &config);
    assert_eq!(s.render.width, 50);
    assert_eq!(s.render.margin, 3);
}

#[test]
fn plain_disables_colour_and_images() {
    let s = resolve(&Cli { plain: true, ..Default::default() }, &Config::default());
    assert_eq!(s.caps.color, ColorDepth::Mono);
    assert_eq!(s.protocol, GraphicsProtocol::Off);
    assert!(!s.render.images);
    assert!(!s.use_pager);
    assert!(!s.styled);
}

#[test]
fn forcing_an_image_protocol_keeps_images_through_a_pipe() {
    let s = resolve(&Cli { images: ImageChoice::Kitty, ..Default::default() }, &Config::default());
    assert!(s.styled, "an explicit protocol should survive a redirect");
    assert!(s.render.images);

    // `--images none` is a request for fewer escapes, not more.
    let s = resolve(&Cli { images: ImageChoice::Off, ..Default::default() }, &Config::default());
    assert!(!s.styled);
}

#[test]
fn redirected_output_is_unstyled_unless_colour_is_forced() {
    // The test process has no terminal on stdout, which is exactly the case
    // this rule exists for.
    let s = resolve(&Cli::default(), &Config::default());
    assert!(!s.caps.is_tty, "test precondition");
    assert!(!s.styled, "a pipe should get plain text");

    let s = resolve(&Cli { color: ColorChoice::Always, ..Default::default() }, &Config::default());
    assert!(s.styled, "forcing colour should re-enable styling");
}

#[test]
fn colour_can_be_forced_and_disabled() {
    assert_eq!(
        resolve(&Cli { color: ColorChoice::Never, ..Default::default() }, &Config::default())
            .caps
            .color,
        ColorDepth::Mono
    );
    assert_eq!(
        resolve(&Cli { color: ColorChoice::Ansi256, ..Default::default() }, &Config::default())
            .caps
            .color,
        ColorDepth::Ansi256
    );
}

#[test]
fn image_protocol_can_be_forced() {
    let s = resolve(&Cli { images: ImageChoice::Sixel, ..Default::default() }, &Config::default());
    assert_eq!(s.protocol, GraphicsProtocol::Sixel);
    assert!(s.render.images);

    let s = resolve(&Cli { images: ImageChoice::Off, ..Default::default() }, &Config::default());
    assert!(!s.render.images);
}

#[test]
fn ascii_flag_downgrades_glyphs() {
    let s = resolve(&Cli { ascii: true, ..Default::default() }, &Config::default());
    assert_eq!(s.caps.unicode, UnicodeLevel::Ascii);
    assert_eq!(s.render.glyphs.quote_bar, "|");
}

#[test]
fn width_is_clamped_to_something_sane() {
    let s = resolve(&Cli { width: Some(1), ..Default::default() }, &Config::default());
    assert!(s.render.width >= 8, "unusably narrow widths are clamped");
}

#[test]
fn margin_never_eats_the_page() {
    let s = resolve(&Cli { width: Some(20), margin: Some(40), ..Default::default() }, &Config::default());
    assert!(s.render.margin * 2 < s.render.width);
}

#[test]
fn unknown_theme_is_a_helpful_error() {
    let cli = Cli {
        theme: Some("neon-dreams".into()),
        ..Default::default()
    };
    let err = Settings::resolve(&cli, &Config::default(), &piped(), None).unwrap_err();
    let msg = err.message();
    assert!(msg.contains("neon-dreams"), "{msg}");
    assert!(msg.contains("dark"), "should list the built-ins: {msg}");
}

#[test]
fn watch_turns_the_pager_on_when_there_is_a_terminal() {
    let config = Config {
        pager: Some(false),
        ..Default::default()
    };
    let s = resolve(&Cli { watch: true, ..Default::default() }, &config);
    // No terminal in the test process, so the pager stays off; what matters
    // is that the config's `pager = false` is no longer the deciding factor.
    assert_eq!(s.use_pager, s.caps.is_tty);
    assert!(s.watch);
}

#[test]
fn an_explicit_width_is_remembered_separately() {
    let s = resolve(&Cli { width: Some(72), ..Default::default() }, &Config::default());
    assert_eq!(s.requested_width, Some(72));

    let s = resolve(&Cli::default(), &Config::default());
    assert_eq!(s.requested_width, None, "an unset width must stay unset");
}

#[test]
fn link_mode_is_resolved_from_either_source() {
    let s = resolve(&Cli { links: LinkChoice::Reference, ..Default::default() }, &Config::default());
    assert_eq!(s.render.links, LinkMode::Reference);

    let config = Config {
        links: Some("hide".into()),
        ..Default::default()
    };
    let s = resolve(&Cli::default(), &config);
    assert_eq!(s.render.links, LinkMode::Hide);
}

#[test]
fn the_same_choice_in_the_config_file() {
    for (text, depth) in [
        ("never", ColorDepth::Mono),
        ("always", ColorDepth::Ansi256),
        ("16", ColorDepth::Ansi16),
        ("256", ColorDepth::Ansi256),
        ("truecolor", ColorDepth::TrueColor),
        ("24bit", ColorDepth::TrueColor),
        ("auto", ColorDepth::Mono),
    ] {
        let config = Config {
            color: Some(text.into()),
            ..Default::default()
        };
        assert_eq!(resolve(&Cli::default(), &config).caps.color, depth, "{text}");
    }
    for (text, protocol) in [
        ("kitty", GraphicsProtocol::Kitty),
        ("iterm2", GraphicsProtocol::ITerm2),
        ("sixel", GraphicsProtocol::Sixel),
        ("blocks", GraphicsProtocol::Blocks),
        ("none", GraphicsProtocol::Off),
    ] {
        let config = Config {
            image_protocol: Some(text.into()),
            ..Default::default()
        };
        assert_eq!(resolve(&Cli::default(), &config).protocol, protocol, "{text}");
    }
}

#[test]
fn a_theme_is_picked_for_the_background() {
    let light = Capabilities {
        background: Some(termmd::term::Rgb(250, 250, 250)),
        color: ColorDepth::TrueColor,
        ..Capabilities::default()
    };
    let config = Config::default();
    let s = Settings::resolve(&Cli::default(), &config, &light, None).unwrap();
    assert_eq!(s.theme.name, "light");
    let config = Config {
        light_theme: Some("mono".into()),
        theme: Some("dark".into()),
        ..Default::default()
    };
    assert_eq!(theme_name(&Cli::default(), &config, &light), "mono");
    let cli = Cli {
        theme: Some("dark".into()),
        ..Default::default()
    };
    assert_eq!(theme_name(&cli, &config, &light), "dark");
    assert_eq!(
        theme_files("neon", Some("/c/themes")),
        vec!["neon", "/c/themes/neon.toml"]
    );
    assert_eq!(theme_files("neon", None), vec!["neon"]);
}

#[test]
fn sixteen_colours_get_their_own_syntax_theme() {
    let cli = Cli {
        color: ColorChoice::Ansi16,
        ..Default::default()
    };
    assert_eq!(resolve(&cli, &Config::default()).syntax_theme, "ansi");
    let config = Config {
        syntax_theme: Some("Nord".into()),
        ..Default::default()
    };
    assert_eq!(resolve(&cli, &config).syntax_theme, "Nord");
}

#[test]
fn the_config_file_is_looked_for_in_order() {
    assert_eq!(
        Config::path(Some("/etc/t.toml"), Some("/x"), Some("/d")).as_deref(),
        Some("/etc/t.toml")
    );
    assert_eq!(
        Config::path(None, Some("/x"), Some("/d")).as_deref(),
        Some("/x/termmd/config.toml")
    );
    assert_eq!(
        Config::path(None, None, Some("/d/")).as_deref(),
        Some("/d/termmd/config.toml")
    );
    assert_eq!(Config::path(None, None, None), None);
    assert_eq!(
        Config::theme_dir("/d/termmd/config.toml").as_deref(),
        Some("/d/termmd/themes")
    );
    assert_eq!(Config::theme_dir("config.toml").as_deref(), Some("themes"));
    assert_eq!(Config::theme_dir("/"), None);
}

#[test]
fn probing_can_be_switched_off() {
    assert!(may_probe(&Cli::default(), &Config::default()));
    let cli = Cli {
        no_probe: true,
        ..Default::default()
    };
    assert!(!may_probe(&cli, &Config::default()));
    let config = Config {
        probe: Some(false),
        ..Default::default()
    };
    assert!(!may_probe(&Cli::default(), &config));
}

#[test]
fn flags_and_config_are_read_as_link_modes() {
    for (choice, mode) in [
        (LinkChoice::Auto, LinkMode::Auto),
        (LinkChoice::Hyperlink, LinkMode::Hyperlink),
        (LinkChoice::Inline, LinkMode::Inline),
        (LinkChoice::Reference, LinkMode::Reference),
        (LinkChoice::Hide, LinkMode::Hide),
    ] {
        assert_eq!(LinkMode::from(choice), mode);
    }
}
