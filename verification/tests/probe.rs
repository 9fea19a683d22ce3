//! What the terminal answers.
use termmd::term::probe::{apply_tmux, parse, ProbeResult};
use termmd::term::{tmux, Capabilities, GraphicsProtocol, Rgb};

#[test]
fn detects_kitty_support() {
    let r = parse(b"\x1b_Gi=4294967295;OK\x1b\\\x1b[?62;22c");
    assert!(r.kitty_graphics);
    assert!(r.answered);
}

#[test]
fn detects_sixel_from_device_attributes() {
    let r = parse(b"\x1b[?62;1;2;4;6;9;22c");
    assert!(r.sixel);
    assert!(!r.kitty_graphics);
}

#[test]
fn does_not_mistake_other_attributes_for_sixel() {
    // 14 and 40 contain a '4' but are not attribute 4.
    let r = parse(b"\x1b[?65;14;40;22c");
    assert!(!r.sixel);
}

#[test]
fn parses_cell_size_report() {
    let r = parse(b"\x1b[6;34;15t\x1b[?62c");
    assert_eq!(r.cell_px, Some((15, 34)));
}

#[test]
fn parses_background_color_at_several_depths() {
    let r = parse(b"\x1b]11;rgb:1e1e/1e1e/2e2e\x1b\\\x1b[?62c");
    assert_eq!(r.background, Some(Rgb(0x1e, 0x1e, 0x2e)));

    let r = parse(b"\x1b]11;rgb:ff/ff/ff\x07\x1b[?62c");
    assert_eq!(r.background, Some(Rgb(255, 255, 255)));
}

#[test]
fn silence_reports_nothing() {
    let r = parse(b"");
    assert!(!r.answered);
    assert_eq!(r, ProbeResult::default());
}

#[test]
fn tmux_promotes_only_what_its_client_can_draw() {
    let multiplexed = || Capabilities {
        graphics: GraphicsProtocol::Blocks,
        multiplexed: true,
        is_tty: true,
        ..Default::default()
    };

    let mut caps = multiplexed();
    apply_tmux(&mut caps, tmux::parse("bpaste,RGB,sixel,hyperlinks,title"));
    assert_eq!(caps.graphics, GraphicsProtocol::Sixel);
    assert!(caps.hyperlinks);

    // The same tmux in front of a terminal that can do neither.
    let mut caps = multiplexed();
    apply_tmux(&mut caps, tmux::parse("bpaste,RGB,title"));
    assert_eq!(
        caps.graphics,
        GraphicsProtocol::Blocks,
        "half blocks are the only thing that survives everywhere"
    );
    assert!(!caps.hyperlinks);
}

#[test]
fn tmux_does_not_overrule_a_forced_protocol() {
    // `--images none` and `--images kitty` are resolved into the same field
    // the promotion writes, so it must only ever lift the fallback.
    for forced in [GraphicsProtocol::Off, GraphicsProtocol::Kitty] {
        let mut caps = Capabilities {
            graphics: forced,
            multiplexed: true,
            is_tty: true,
            ..Default::default()
        };
        apply_tmux(&mut caps, tmux::parse("sixel"));
        assert_eq!(caps.graphics, forced);
    }
}

#[test]
fn probe_does_not_downgrade_a_known_good_terminal() {
    // A terminal that supports kitty graphics but answers no queries must
    // keep the capability the environment tier gave it.
    let mut caps = Capabilities {
        graphics: GraphicsProtocol::Kitty,
        is_tty: true,
        ..Default::default()
    };
    let before = caps.graphics;
    // Simulate `refine` seeing an unanswered probe.
    let result = ProbeResult::default();
    if result.answered {
        caps.graphics = GraphicsProtocol::Off;
    }
    assert_eq!(caps.graphics, before);
}
