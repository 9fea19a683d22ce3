//! The interactive viewer.
use termmd::cli::Settings;
use termmd::markdown::{parse, Document, ImageRef};
use termmd::pager::layout::{prints_instead, Debounce};
use termmd::pager::{
    mouse_mode, openable, Action, Book, Click, Key, KeyPress, Mode, Pager, Panel, Window,
};
use termmd::render::{
    HeadingEntry, Highlighter, ImagePlacement, ImageProvider, ImageRequest, Line, NoImages, Screen,
    Span,
};
use termmd::source::{Origin, Source};
use termmd::term::{Capabilities, GraphicsProtocol, Style};
use termmd::theme::Theme;

fn screen_of(count: usize) -> Screen {
    Screen {
        lines: (0..count)
            .map(|i| Line::from_spans(vec![Span::plain(format!("line {i}"))]))
            .collect(),
        ..Default::default()
    }
}

/// A pager over a synthetic screen, with no terminal attached.
fn pager(lines: usize, rows: u16) -> Pager {
    Pager {
        book: Book {
            sources: Vec::new(),
            document: Document::default(),
            settings: Settings {
                caps: Capabilities::default(),
                theme: Theme::mono(),
                render: Default::default(),
                parse: Default::default(),
                use_pager: true,
                mouse: false,
                styled: true,
                watch: false,
                remote_images: false,
                protocol: GraphicsProtocol::Off,
                syntax_theme: String::new(),
                pager_forced: false,
                requested_width: None,
            },
            history: Vec::new(),
        },
        screen: screen_of(lines),
        window: Window {
            top: 0,
            left: 0,
            cols: 80,
            rows,
            mode: Mode::Normal,
            selection: 0,
            mouse: false,
            images: true,
            dirty: true,
            quit: false,
        },
        search: None,
        input: String::new(),
        message: None,
    }
}

fn press(p: &mut Pager, code: Key) -> Action {
    p.on_key(KeyPress {
        code,
        ctrl: false,
        release: false,
    })
}

/// A pager showing a real document, laid out as the renderer would.
fn pager_of(markdown: &str, rows: u16) -> Pager {
    let mut p = pager(0, rows);
    p.book.document = parse(markdown, Default::default());
    p.rebuild(&Highlighter::plain(), &mut NoImages);
    p
}

#[test]
fn y_copies_the_code_block_on_screen() {
    // Padded so that the two blocks cannot be on screen together.
    let filler = "Paragraph.\n\n".repeat(20);
    let doc = format!("```sh\nfirst --block\n```\n\n{filler}```sh\nsecond --block\n```\n");
    let mut p = pager_of(&doc, 10);
    assert_eq!(
        p.visible_code().map(String::as_str),
        Some("first --block"),
        "the first block on screen"
    );

    // Scrolled past it, the answer is the next one down.
    press(&mut p, Key::Char('G'));
    assert_eq!(p.visible_code().map(String::as_str), Some("second --block"));
}

#[test]
fn y_says_so_when_there_is_no_code_on_screen() {
    let mut p = pager_of("# Just a heading\n\nAnd a paragraph.\n", 10);
    assert_eq!(p.visible_code(), None);
    press(&mut p, Key::Char('y'));
    assert_eq!(p.message.as_deref(), Some("no code block on screen"));
}

#[test]
fn what_is_copied_is_the_source_not_the_drawing() {
    // Line numbers, a background and syntax highlighting all change what is
    // on screen; none of them belong in a paste.
    let p = pager_of("```rust\nfn main() {\n    let x = 1;\n}\n```\n", 12);
    let code = p.visible_code().map(String::as_str);
    assert_eq!(code, Some("fn main() {\n    let x = 1;\n}"));
    // No trailing newline, so a shell block pasted into a prompt waits to
    // be read rather than running itself.
    assert!(!code.unwrap().ends_with('\n'));
}

#[test]
fn scrolls_within_bounds() {
    let mut p = pager(100, 25);
    assert_eq!(p.viewport(), 24);
    press(&mut p, Key::Char('j'));
    assert_eq!(p.window.top, 1);
    press(&mut p, Key::Char('k'));
    assert_eq!(p.window.top, 0);
    press(&mut p, Key::Char('k'));
    assert_eq!(p.window.top, 0, "must not scroll above the first line");
}

#[test]
fn cannot_scroll_past_the_last_screenful() {
    let mut p = pager(100, 25);
    press(&mut p, Key::Char('G'));
    assert_eq!(p.window.top, 100 - 24);
    press(&mut p, Key::Char('j'));
    assert_eq!(p.window.top, 100 - 24, "the end is the end");
}

#[test]
fn a_short_document_does_not_scroll() {
    let mut p = pager(3, 25);
    press(&mut p, Key::Char('G'));
    assert_eq!(p.window.top, 0);
    assert_eq!(p.max_top(), 0);
}

#[test]
fn paging_moves_by_almost_a_screen() {
    let mut p = pager(500, 25);
    press(&mut p, Key::Char(' '));
    // Two rows of overlap keep the reader's place.
    assert_eq!(p.window.top, 22);
}

#[test]
fn quits_on_q_and_escape() {
    let mut p = pager(10, 25);
    press(&mut p, Key::Char('q'));
    assert!(p.window.quit);

    let mut p = pager(10, 25);
    press(&mut p, Key::Esc);
    assert!(p.window.quit);
}

#[test]
fn search_is_incremental_and_jumps_to_matches() {
    let mut p = pager(100, 25);
    press(&mut p, Key::Char('/'));
    assert!(matches!(p.window.mode, Mode::Searching { .. }));
    for c in "line 42".chars() {
        press(&mut p, Key::Char(c));
    }
    assert_eq!(p.search.as_ref().unwrap().len(), 1);
    press(&mut p, Key::Enter);
    assert_eq!(p.window.mode, Mode::Normal);
    assert!(
        p.window.top <= 42 && p.window.top + p.viewport() > 42,
        "match should be on screen"
    );
}

#[test]
fn escape_cancels_a_search() {
    let mut p = pager(50, 25);
    press(&mut p, Key::Char('/'));
    press(&mut p, Key::Char('x'));
    press(&mut p, Key::Esc);
    assert_eq!(p.window.mode, Mode::Normal);
    assert!(p.search.is_none());
}

#[test]
fn n_moves_between_matches() {
    let mut p = pager(100, 25);
    press(&mut p, Key::Char('/'));
    for c in "line 1".chars() {
        press(&mut p, Key::Char(c));
    }
    press(&mut p, Key::Enter);
    let first = p.search.as_ref().unwrap().focused().unwrap().line;
    press(&mut p, Key::Char('n'));
    let second = p.search.as_ref().unwrap().focused().unwrap().line;
    assert_ne!(first, second);
}

#[test]
fn reports_when_a_search_finds_nothing() {
    let mut p = pager(10, 25);
    press(&mut p, Key::Char('/'));
    for c in "zzzz".chars() {
        press(&mut p, Key::Char(c));
    }
    press(&mut p, Key::Enter);
    assert!(p.message.as_deref().unwrap().contains("not found"));
}

#[test]
fn horizontal_scrolling_is_bounded() {
    let mut p = pager(10, 25);
    p.screen.lines[0] = Line::from_spans(vec![Span::plain("x".repeat(200))]);
    for _ in 0..100 {
        press(&mut p, Key::Char('l'));
    }
    assert_eq!(p.window.left, 200 - 80);
    press(&mut p, Key::Char('0'));
    assert_eq!(p.window.left, 0);
}

#[test]
fn panels_open_and_close() {
    let mut p = pager(10, 25);
    press(&mut p, Key::Char('H'));
    assert_eq!(p.window.mode, Mode::Panel(Panel::Help));
    press(&mut p, Key::Esc);
    assert_eq!(p.window.mode, Mode::Normal);
}

#[test]
fn the_contents_panel_starts_at_the_nearest_heading() {
    let mut p = pager(100, 25);
    p.screen.headings = vec![
        HeadingEntry {
            level: 1,
            text: "A".into(),
            id: "a".into(),
            line: 0,
        },
        HeadingEntry {
            level: 1,
            text: "B".into(),
            id: "b".into(),
            line: 40,
        },
        HeadingEntry {
            level: 1,
            text: "C".into(),
            id: "c".into(),
            line: 80,
        },
    ];
    p.window.top = 45;
    press(&mut p, Key::Char('t'));
    assert_eq!(
        p.window.selection, 1,
        "should select the heading the reader is under"
    );
}

#[test]
fn selecting_a_heading_jumps_to_it() {
    let mut p = pager(100, 25);
    p.screen.headings = vec![HeadingEntry {
        level: 1,
        text: "Target".into(),
        id: "target".into(),
        line: 60,
    }];
    press(&mut p, Key::Char('t'));
    press(&mut p, Key::Enter);
    assert_eq!(p.window.mode, Mode::Normal);
    assert!(p.window.top <= 60 && p.window.top + p.viewport() > 60);
}

#[test]
fn anchor_links_jump_instead_of_opening_a_browser() {
    let mut p = pager(100, 25);
    p.screen.anchors.insert("section".into(), 55);
    p.follow("#section", false, false);
    assert!(p.window.top <= 55 && p.window.top + p.viewport() > 55);
    assert!(p.message.is_none(), "a successful jump needs no message");
}

#[test]
fn unknown_anchors_say_so_rather_than_opening_anything() {
    let mut p = pager(100, 25);
    p.follow("#nowhere", false, false);
    assert!(p.message.as_deref().unwrap().contains("nowhere"));
    assert_eq!(p.window.top, 0);
}

#[test]
fn clicking_a_link_span_finds_its_target() {
    let mut p = pager(100, 25);
    p.screen.links = vec!["https://example.com".into()];
    p.screen.lines[2] = Line::from_spans(vec![
        Span::plain("see ".into()),
        Span::new("here".into(), Style::plain(), Some(0)),
        Span::plain(" now".into()),
    ]);
    // "here" occupies columns 4..8 on screen row 2.
    assert_eq!(p.link_at(2, 5), Some(0));
    assert_eq!(p.link_at(2, 0), None, "plain text is not a link");
    assert_eq!(p.link_at(2, 9), None, "past the link is not a link");
    assert_eq!(p.link_at(3, 5), None, "wrong row");
}

#[test]
fn clicking_accounts_for_scrolling() {
    let mut p = pager(100, 25);
    p.screen.links = vec!["https://example.com".into()];
    p.screen.lines[40] = Line::from_spans(vec![Span::new("link".into(), Style::plain(), Some(0))]);
    p.window.top = 38;
    assert_eq!(p.link_at(2, 1), Some(0), "row is relative to the viewport");

    p.window.left = 2;
    assert_eq!(
        p.link_at(2, 0),
        Some(0),
        "column accounts for horizontal scroll"
    );
}

#[test]
fn clicks_on_the_status_bar_are_ignored() {
    let mut p = pager(100, 25);
    p.screen.links = vec!["x".into()];
    p.screen.lines[24] = Line::from_spans(vec![Span::new("link".into(), Style::plain(), Some(0))]);
    assert_eq!(p.link_at(24, 1), None, "row 24 is the status bar");
}

#[test]
fn local_markdown_links_are_recognised() {
    let md = "/tmp/follow/other.md";
    assert_eq!(openable(md, false, true), Some(Origin::File(md.into())));
    assert_eq!(
        openable("/tmp/follow/thing.pdf", false, true),
        None,
        "not markdown"
    );
    assert_eq!(
        openable("/tmp/follow/missing.md", false, false),
        None,
        "not a file"
    );
    assert_eq!(openable("mailto:someone@example.com", false, false), None);
    assert_eq!(openable("", false, false), None);

    // A directory is opened as an index of what is in it.
    assert_eq!(
        openable("/tmp/follow", true, false),
        Some(Origin::Directory("/tmp/follow".into()))
    );

    // Remote Markdown is fetched; anything else at a URL is the browser's.
    assert_eq!(
        openable("https://example.com/a.md", false, false),
        Some(Origin::Url("https://example.com/a.md".into()))
    );
    assert_eq!(
        openable("https://example.com/docs/guide.markdown#top", false, false),
        Some(Origin::Url(
            "https://example.com/docs/guide.markdown#top".into()
        ))
    );
    assert_eq!(
        openable("https://example.com/", false, false),
        None,
        "not markdown"
    );
    assert_eq!(openable("https://example.com/page.html", false, false), None);
    assert_eq!(
        openable("ftp://example.com/a.md", false, false),
        None,
        "not fetchable"
    );
    // A host is not a file name, whatever it ends in.
    assert_eq!(openable("https://example.md", false, false), None);
    assert_eq!(openable("https://example.md/", false, false), None);
}

#[test]
fn following_a_local_document_navigates_and_comes_back() {
    let other = "/tmp/nav/other.md";
    let first = "/tmp/nav/first.md";

    let mut p = pager(100, 25);
    p.book.sources = vec![Source {
        origin: Origin::File(first.into()),
        name: "first.md".into(),
        text: "# First\n".into(),
    }];
    p.window.top = 7;

    let action = p.follow(other, false, true);
    assert_eq!(action, Action::Open(Origin::File(other.into()), None));
    p.show(
        Source::file(other.into(), "# The Other Document\n\nBody.\n".into()),
        None,
        &Highlighter::plain(),
        &mut NoImages,
    );
    assert_eq!(p.book.sources[0].path(), Some(other));
    assert!(p.screen.plain_text().contains("The Other Document"));
    assert_eq!(p.window.top, 0, "a new document starts at the top");
    assert_eq!(p.book.history.len(), 1);
    assert_eq!(
        p.message.as_deref(),
        Some("/tmp/nav/other.md (backspace to go back)")
    );

    assert_eq!(press(&mut p, Key::Backspace), Action::Restore(7));
    p.restore(7, &Highlighter::plain(), &mut NoImages);
    assert_eq!(p.book.sources[0].path(), Some(first));
    assert!(p.screen.plain_text().contains("First"));
    assert!(p.book.history.is_empty());
}

#[test]
fn a_document_link_with_a_fragment_lands_on_the_heading() {
    let other = "/tmp/frag/other.md";
    let mut p = pager(100, 25);
    let Action::Open(origin, fragment) =
        p.follow(&format!("{other}#deep-section"), false, true)
    else {
        panic!("a document should open")
    };
    assert_eq!(origin, Origin::File(other.into()));
    assert_eq!(fragment.as_deref(), Some("deep-section"));
    p.show(
        Source::file(
            other.into(),
            "# Top\n\nfiller\n\n## Deep Section\n\nmore\n".into(),
        ),
        fragment,
        &Highlighter::plain(),
        &mut NoImages,
    );
    let line = p
        .screen
        .anchor("deep-section")
        .expect("anchor should exist");
    assert!(
        p.window.top <= line && p.window.top + p.viewport() > line,
        "should land on the heading"
    );
}

#[test]
fn going_back_with_no_history_says_so() {
    let mut p = pager(10, 25);
    p.go_back();
    assert!(p.message.as_deref().unwrap().contains("nothing to go back"));
}

#[test]
fn the_default_mouse_mode_leaves_selection_to_the_terminal() {
    let terminal_owns = mouse_mode(false);
    assert!(terminal_owns.contains("?1000l"), "must not report clicks");
    assert!(
        terminal_owns.contains("?1007h"),
        "but the wheel should still scroll"
    );

    let termmd_owns = mouse_mode(true);
    assert!(termmd_owns.contains("?1000h") && termmd_owns.contains("?1006h"));
    assert!(
        termmd_owns.contains("?1007l"),
        "alternate scroll would double up"
    );
    assert!(
        !termmd_owns.contains("?1003h"),
        "motion tracking is never wanted"
    );
}

#[test]
fn m_toggles_which_side_owns_the_mouse() {
    let mut p = pager(10, 25);
    assert!(!p.window.mouse, "the terminal owns the mouse by default");
    assert_eq!(press(&mut p, Key::Char('m')), Action::Mouse(true));
    assert!(p.window.mouse);
    assert!(p.message.as_deref().unwrap().contains("termmd"));
    press(&mut p, Key::Char('m'));
    assert!(!p.window.mouse);
    assert!(p.message.as_deref().unwrap().contains("select"));
}

#[test]
fn key_releases_are_ignored() {
    let mut p = pager(100, 25);
    p.on_key(KeyPress {
        code: Key::Char('j'),
        ctrl: false,
        release: true,
    });
    assert_eq!(p.window.top, 0, "a release must not scroll");
}

#[test]
fn ctrl_c_quits() {
    let mut p = pager(10, 25);
    p.on_key(KeyPress {
        code: Key::Char('c'),
        ctrl: true,
        release: false,
    });
    assert!(p.window.quit);
}

#[test]
fn links_are_followed_or_handed_on() {
    let mut p = pager(100, 25);
    p.screen.links = vec!["https://example.com/x.html".into()];
    press(&mut p, Key::Char('L'));
    assert_eq!(p.window.mode, Mode::Panel(Panel::Links));
    assert_eq!(
        press(&mut p, Key::Char('y')),
        Action::Copy(
            "https://example.com/x.html".into(),
            "https://example.com/x.html".into()
        )
    );
    assert_eq!(
        press(&mut p, Key::Enter),
        Action::Follow("https://example.com/x.html".into())
    );
    assert_eq!(p.window.mode, Mode::Normal);
    assert_eq!(
        p.follow("https://example.com/x.html", false, false),
        Action::Browse("https://example.com/x.html".into())
    );
    press(&mut p, Key::Char('L'));
    p.screen.links.clear();
    press(&mut p, Key::Char('y'));
    assert_eq!(p.message.as_deref(), Some("no link to copy"));
}

#[test]
fn the_mouse_scrolls_and_follows() {
    let mut p = pager(100, 25);
    p.screen.links = vec!["https://example.com".into()];
    p.screen.lines[6] = Line::from_spans(vec![Span::new("link".into(), Style::plain(), Some(0))]);
    p.window.dirty = false;
    assert_eq!(p.on_mouse(Click::ScrollDown), Action::Nothing);
    assert_eq!(p.window.top, 3);
    assert!(p.window.dirty);
    assert_eq!(
        p.on_mouse(Click::Left { row: 3, column: 2 }),
        Action::Follow("https://example.com".into())
    );
    p.on_mouse(Click::ScrollUp);
    assert_eq!(p.window.top, 0);
    assert_eq!(p.on_mouse(Click::Other), Action::Nothing);
}

#[test]
fn a_resize_keeps_the_reader_in_place() {
    let doc = "Paragraph with a few words in it.\n\n".repeat(50);
    let mut p = pager_of(&doc, 20);
    let lines = p.screen.len();
    p.window.top = lines / 2;
    p.resize(20, 20, &Highlighter::plain(), &mut NoImages);
    assert_eq!(p.book.settings.render.width, 20);
    let now = p.screen.len();
    assert!(now > lines, "narrower is longer");
    let expected = (now as f64 * ((lines / 2) as f64 / lines as f64)) as usize;
    assert_eq!(p.window.top, expected.min(p.max_top()));
    // And widening gives the width back.
    p.resize(80, 20, &Highlighter::plain(), &mut NoImages);
    assert_eq!(p.book.settings.render.width, 80);
    assert_eq!(p.screen.len(), lines);
}

#[test]
fn reloading_shows_what_was_read() {
    let mut p = pager(0, 20);
    assert_eq!(press(&mut p, Key::Char('r')), Action::Reload);
    p.reload(
        vec![Source::file("a.md".into(), "# Changed\n".into())],
        &Highlighter::plain(),
        &mut NoImages,
    );
    assert!(p.screen.plain_text().contains("Changed"));
    assert_eq!(p.message.as_deref(), Some("reloaded"));
}

#[test]
fn images_can_be_switched_off_and_on() {
    let mut p = pager(10, 25);
    assert_eq!(press(&mut p, Key::Char('i')), Action::Relayout);
    assert!(!p.window.images);
    assert_eq!(p.message.as_deref(), Some("images off"));
    p.relayout(&Highlighter::plain(), &mut NoImages);
    assert!(!p.book.settings.render.images);
    press(&mut p, Key::Char('i'));
    assert_eq!(p.message.as_deref(), Some("images on"));
}

#[test]
fn a_frame_holds_the_text_and_the_status_bar() {
    let p = pager(30, 6);
    let frame = p.draw(&mut NoImages);
    assert!(frame.starts_with("\x1b[H\x1b[1;1H\x1b[Kline 0"));
    assert!(frame.contains("\x1b[5;1H\x1b[Kline 4"));
    assert!(!frame.contains("line 5"), "only what fits: {frame:?}");
    assert!(frame.contains("\x1b[6;1H\x1b[K"), "the bar is the last row");
    assert!(frame.contains("1/30  0%  H help  q quit"), "{frame:?}");

    let mut p = pager(30, 6);
    press(&mut p, Key::Char('G'));
    assert!(p.draw(&mut NoImages).contains("26/30  100%"));
    press(&mut p, Key::Char('/'));
    press(&mut p, Key::Char('9'));
    assert!(p.draw(&mut NoImages).contains("/9  (3 matches)"));
    press(&mut p, Key::Char('x'));
    assert!(p.draw(&mut NoImages).contains("/9x  (no matches)"));
    press(&mut p, Key::Esc);
    press(&mut p, Key::Char('H'));
    assert!(p.draw(&mut NoImages).contains(" Keys "));
}

/// A provider that draws every picture as a line of text.
struct Drawn(Vec<(u16, u16, u16, u16)>);

impl ImageProvider for Drawn {
    fn measure(&mut self, _image: &ImageRef) -> Option<(u32, u32)> {
        Some((40, 80))
    }

    fn encode(&mut self, request: ImageRequest<'_>) -> Option<String> {
        self.0.push((
            request.rows,
            request.skip_top,
            request.skip_bottom,
            request.indent,
        ));
        Some(format!("<{}>", request.image.url))
    }

    fn problem(&mut self, _image: &ImageRef) -> Option<String> {
        None
    }
}

#[test]
fn images_are_cropped_to_the_viewport() {
    let mut p = pager(30, 11);
    p.screen.lines[4].image = Some(ImagePlacement {
        image: ImageRef {
            url: "a.png".into(),
            ..Default::default()
        },
        cols: 8,
        rows: 10,
        indent: 3,
    });
    let mut drawn = Drawn(Vec::new());
    // The picture starts on row 4 of 10, so four of its ten rows are below the edge.
    assert!(p.draw(&mut drawn).contains("\x1b[5;4H<a.png>"));
    p.window.top = 6;
    // Two rows have scrolled off the top, and the other eight fit.
    assert!(p.draw(&mut drawn).contains("\x1b[1;4H<a.png>"));
    p.window.top = 14;
    assert!(!p.draw(&mut drawn).contains("<a.png>"), "scrolled past");
    p.window.top = 0;
    p.window.left = 4;
    assert!(!p.draw(&mut drawn).contains("<a.png>"), "off to the left");
    assert_eq!(drawn.0, vec![(10, 0, 4, 3), (10, 2, 0, 3)]);
}

#[test]
fn old_kitty_placements_are_cleared_first() {
    let mut p = pager(3, 10);
    p.book.settings.caps.graphics = GraphicsProtocol::Kitty;
    assert!(p.draw(&mut NoImages).starts_with("\x1b[H"), "no pictures");
    p.screen.lines[0].image = Some(ImagePlacement {
        image: ImageRef::default(),
        cols: 1,
        rows: 1,
        indent: 0,
    });
    assert!(p
        .draw(&mut NoImages)
        .starts_with("\x1b_Ga=d,d=A,q=2\x1b\\\x1b[H"));
}

#[test]
fn a_short_document_is_printed() {
    assert!(prints_instead(5, 24, false, false));
    assert!(!prints_instead(23, 24, false, false));
    assert!(!prints_instead(5, 24, true, false));
    assert!(!prints_instead(5, 24, false, true));
    assert!(!prints_instead(0, 0, false, false));
}

#[test]
fn changes_are_waited_out() {
    let mut d = Debounce { pending: None };
    assert!(!d.changed(false, 1000));
    assert!(!d.changed(true, 1000));
    assert!(!d.changed(true, 1100));
    assert!(!d.changed(false, 1219));
    assert!(d.changed(false, 1220));
    assert!(!d.changed(false, 2000), "acted on once");
}
