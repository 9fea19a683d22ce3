//! The whole way from text to what is printed.
use std::collections::HashMap;

use termmd::cli::{Cli, ColorChoice, ImageChoice, LinkChoice, Settings};
use termmd::config::Config;
use termmd::images::store::Want;
use termmd::images::{ImageProblem, RemotePolicy, Store};
use termmd::markdown::ImageRef;
use termmd::pager::layout::draw_page;
use termmd::render::inline::display_width;
use termmd::render::{Highlighter, ImageProvider, ImageRequest};
use termmd::report::{capabilities_text, front_matter_text, list_text, page_text, toc_text};
use termmd::source::{build_document, origin_of, Source};
use termmd::term::{Capabilities, UnicodeLevel};

const SAMPLE: &str = "\
# Sample Document

An ordinary paragraph with **bold** words, `code`, and a [link](https://example.com).

## A Table

| Name | Description |
|------|-------------|
| one | the first of the rows |
| two | the second, which is long enough that it has to wrap somewhere |

![A picture](picture.png)

```rust
fn main() { println!(\"hello\"); }
```
";

/// A 16x8 PNG, embedded so the tests need no binary fixtures on disk.
const TINY_PNG: &[u8] = &[
    0x89, 0x50, 0x4e, 0x47, 0x0d, 0x0a, 0x1a, 0x0a, 0x00, 0x00, 0x00, 0x0d, 0x49, 0x48, 0x44, 0x52,
    0x00, 0x00, 0x00, 0x10, 0x00, 0x00, 0x00, 0x08, 0x08, 0x02, 0x00, 0x00, 0x00, 0x7f, 0x14, 0xe8,
    0xc0, 0x00, 0x00, 0x00, 0x17, 0x49, 0x44, 0x41, 0x54, 0x78, 0xda, 0x63, 0x3c, 0x11, 0xa0, 0xc1,
    0x40, 0x0a, 0x60, 0x62, 0x20, 0x11, 0x8c, 0x6a, 0x20, 0x06, 0x00, 0x00, 0xf5, 0xf7, 0x01, 0x50,
    0x0f, 0x2c, 0x93, 0x87, 0x00, 0x00, 0x00, 0x00, 0x49, 0x45, 0x4e, 0x44, 0xae, 0x42, 0x60, 0x82,
];

/// Images out of files that are held in memory.
struct Files {
    store: Store,
    files: HashMap<String, Vec<u8>>,
}

impl Files {
    fn load(&mut self, url: &str) {
        let read = match self.store.want(url) {
            Want::Nothing => return,
            Want::Bytes(bytes) => Ok(bytes),
            Want::Download(_) => Err(ImageProblem::Unreadable("no network".into())),
            Want::File(path) => self.files.get(&path).cloned().ok_or(ImageProblem::NotFound),
        };
        self.store.keep(url, read);
    }
}

impl ImageProvider for Files {
    fn measure(&mut self, image: &ImageRef) -> Option<(u32, u32)> {
        self.load(&image.url);
        self.store.size(&image.url)
    }

    fn encode(&mut self, request: ImageRequest<'_>) -> Option<String> {
        self.load(&request.image.url);
        self.store.encode(&request, None)
    }

    fn problem(&mut self, image: &ImageRef) -> Option<String> {
        self.load(&image.url);
        self.store.recorded_problem(&image.url).map(|p| p.message())
    }
}

/// Output that goes into a pipe.
fn piped() -> Capabilities {
    Capabilities {
        unicode: UnicodeLevel::Extended,
        ..Capabilities::default()
    }
}

fn settings(cli: &Cli) -> Settings {
    Settings::resolve(cli, &Config::default(), &piped(), None).unwrap()
}

fn print_files(cli: &Cli, sources: &[Source], files: &[(&str, &[u8])]) -> String {
    let settings = settings(cli);
    let doc = build_document(sources, settings.parse);
    let mut images = Files {
        store: Store::new(&settings.caps, &sources[0].base_dir(), RemotePolicy::Deny)
            .with_protocol(settings.protocol),
        files: files
            .iter()
            .map(|(path, bytes)| (path.to_string(), bytes.to_vec()))
            .collect(),
    };
    let hl = Highlighter::new(&settings.syntax_theme);
    let screen = draw_page(&doc, &settings, settings.render.images, &hl, &mut images);
    page_text(&screen, &settings, &mut images)
}

fn print(cli: &Cli, text: &str) -> String {
    print_files(
        cli,
        &[Source::file("/docs/sample.md".into(), text.into())],
        &[],
    )
}

fn wide(width: usize) -> Cli {
    Cli {
        width: Some(width),
        ..Default::default()
    }
}

#[test]
fn renders_a_file_to_stdout() {
    assert!(print(&wide(60), SAMPLE).contains("Sample Document"));
}

#[test]
fn reads_markdown_from_stdin() {
    let mut source = Source::pending(origin_of("-", false));
    source.text = "# From stdin\n\nBody text.\n".into();
    let out = print_files(&wide(40), &[source], &[]);
    assert!(out.contains("From stdin"));
    assert!(out.contains("Body text."));
}

#[test]
fn a_dash_also_means_stdin() {
    let mut source = Source::pending(origin_of("-", false));
    source.text = "# Dash\n".into();
    let out = print_files(&wide(40), &[source], &[]);
    assert!(out.contains("Dash"));
}

#[test]
fn piped_output_carries_no_escape_sequences() {
    // Colour must be off without being asked.
    let out = print(&wide(60), SAMPLE);
    assert!(
        !out.contains('\x1b'),
        "piped output should be plain: {out:?}"
    );
}

#[test]
fn colour_can_be_forced_through_a_pipe() {
    let cli = Cli {
        color: ColorChoice::TrueColor,
        ..wide(60)
    };
    let out = print(&cli, SAMPLE);
    assert!(out.contains("\x1b[38;2;"), "expected truecolor sequences");
}

#[test]
fn plain_strips_everything() {
    let cli = Cli {
        plain: true,
        color: ColorChoice::Always,
        ..Default::default()
    };
    let out = print(&cli, SAMPLE);
    assert!(!out.contains('\x1b'), "--plain must win over --color");
}

#[test]
fn width_is_respected() {
    for width in [40usize, 72] {
        for line in print(&wide(width), SAMPLE).lines() {
            let columns = unicode_width::UnicodeWidthStr::width(line);
            assert!(
                columns <= width,
                "line exceeds width {width}: {line:?} ({columns})"
            );
        }
    }
}

#[test]
fn prints_a_table_of_contents() {
    let settings = settings(&Cli {
        toc: true,
        ..Default::default()
    });
    let source = Source::file("sample.md".into(), SAMPLE.into());
    let doc = build_document(&[source], settings.parse);
    let mut images = Files {
        store: Store::new(&settings.caps, ".", RemotePolicy::Deny),
        files: HashMap::new(),
    };
    let screen = draw_page(&doc, &settings, false, &Highlighter::plain(), &mut images);
    let out = toc_text(&screen.headings);
    assert!(out.contains("Sample Document"));
    assert!(
        out.contains("#sample-document"),
        "anchors should be shown: {out}"
    );
    // The TOC is not the document.
    assert!(
        !out.contains("paragraph"),
        "TOC should list headings only: {out}"
    );
    assert_eq!(
        out,
        "Sample Document  #sample-document\n  A Table  #a-table\n"
    );
}

#[test]
fn a_table_of_contents_reads_the_way_the_page_does() {
    for (ascii, text) in [(false, "x²  #x2\n"), (true, "x^2  #x2\n")] {
        let settings = settings(&Cli {
            ascii,
            ..Default::default()
        });
        let source = Source::file("sample.md".into(), "# $x^2$\n".into());
        let doc = build_document(&[source], settings.parse);
        let mut images = Files {
            store: Store::new(&settings.caps, ".", RemotePolicy::Deny),
            files: HashMap::new(),
        };
        let screen = draw_page(&doc, &settings, false, &Highlighter::plain(), &mut images);
        assert_eq!(toc_text(&screen.headings), text);
    }
}

#[test]
fn reports_capabilities() {
    let out = capabilities_text(
        &settings(&Cli::default()),
        &Some("xterm-256color".into()),
        &None,
        &Some(("/c/config.toml".into(), false)),
    );
    for field in ["colour", "images", "hyperlinks", "theme", "width"] {
        assert!(out.contains(field), "--caps should report {field}: {out}");
    }
    assert_eq!(
        out,
        "terminal\n  TERM              xterm-256color\n  TERM_PROGRAM      -\n  size              \
         80 x 24 cells\n  cell size         unknown (assuming 8 x 16)\n  stdout is a tty   no\n  \
         multiplexer       no\n\ncapabilities\n  colour            None\n  images            \
         none\n  hyperlinks        no\n  unicode           Extended\n  background        unknown \
         (assuming dark)\n\nsettings\n  theme             mono\n  syntax theme      \
         ansi\n  width             80\n  pager             no\n  config            \
         /c/config.toml (not present)\n"
    );
}

#[test]
fn lists_themes_and_languages() {
    let hl = Highlighter::new("base16-ocean.dark");
    let out = list_text(&hl.theme_names());
    assert!(out.lines().count() > 5, "expected several themes");

    let out = list_text(&hl.language_names());
    assert!(out.contains("Rust"), "expected Rust among the languages");
}

#[test]
fn an_unknown_theme_is_rejected() {
    let cli = Cli {
        theme: Some("no-such-theme".into()),
        ..Default::default()
    };
    let err = Settings::resolve(&cli, &Config::default(), &piped(), None).unwrap_err();
    assert!(err.message().contains("no-such-theme"));
}

#[test]
fn several_files_are_concatenated_and_labelled() {
    let out = print_files(
        &wide(60),
        &[
            Source::file("sample.md".into(), SAMPLE.into()),
            Source::file("second.md".into(), "# Second Document\n".into()),
        ],
        &[],
    );
    assert!(out.contains("Sample Document"));
    assert!(out.contains("Second Document"));
    assert!(
        out.contains("second.md"),
        "each file should be labelled: {out}"
    );
}

#[test]
fn tables_are_drawn_within_the_width() {
    let out = print(&wide(50), SAMPLE);
    assert!(
        out.contains('│') || out.contains('|'),
        "expected a table: {out}"
    );
    let table_rows: Vec<&str> = out.lines().filter(|l| l.contains('│')).collect();
    assert!(table_rows.len() >= 3, "expected several table rows");
    let widths: Vec<usize> = table_rows.iter().map(|l| display_width(l)).collect();
    assert!(
        widths.windows(2).all(|w| w[0] == w[1]),
        "table rows are ragged: {widths:?}"
    );
}

#[test]
fn images_become_placeholders_when_no_protocol_is_available() {
    let cli = Cli {
        images: ImageChoice::Off,
        ..wide(60)
    };
    let out = print(&cli, SAMPLE);
    assert!(
        out.contains("A picture"),
        "the alt text should survive: {out}"
    );
}

#[test]
fn remote_images_are_refused_by_default() {
    let cli = Cli {
        images: ImageChoice::Kitty,
        ..wide(40)
    };
    let out = print(&cli, "![remote](https://example.invalid/nope.png)\n");
    assert!(out.contains("remote"), "should fall back to the alt text");
}

#[test]
fn empty_input_is_not_an_error() {
    assert!(print(&Cli::default(), "").trim().is_empty());
}

#[test]
fn a_relative_image_resolves_against_the_document_not_the_shell() {
    // Joined with a base directory a second time, the picture would be looked for at
    // `doc/doc/images/pic.png`.
    let cli = Cli {
        images: ImageChoice::Kitty,
        no_pager: true,
        ..Default::default()
    };
    let page = "# Page\n\n![The picture](images/pic.png)\n";
    let out = print_files(
        &cli,
        &[Source::file("/tree/doc/page.md".into(), page.into())],
        &[("/tree/doc/images/pic.png", TINY_PNG)],
    );
    assert!(
        out.contains("\x1b_G"),
        "expected a kitty image sequence, got a placeholder instead:\n{out}"
    );
}

#[test]
fn a_missing_image_still_shows_its_alt_text() {
    let cli = Cli {
        images: ImageChoice::Kitty,
        no_pager: true,
        ..Default::default()
    };
    let out = print(&cli, "# Page\n\n![The picture](images/pic.png)\n");
    assert!(
        out.contains("The picture"),
        "alt text should survive: {out}"
    );
    assert!(out.contains("file not found"), "and say why: {out}");
}

#[test]
fn local_document_links_are_emitted_as_file_uris() {
    let cli = Cli {
        links: LinkChoice::Hyperlink,
        color: ColorChoice::Always,
        no_pager: true,
        ..Default::default()
    };
    let out = print(&cli, "[see other](other.md)\n");
    assert!(
        out.contains("\x1b]8;;file:///"),
        "expected a file:// hyperlink:\n{out}"
    );
}

#[test]
fn front_matter_is_printed_for_each_file() {
    let one = vec![("a.md".to_string(), Some("title: A\n\n".to_string()))];
    assert_eq!(front_matter_text(&one), "title: A\n");
    let several = vec![
        ("a.md".to_string(), Some("title: A\n".to_string())),
        ("b.md".to_string(), None),
        ("c.md".to_string(), Some("title: C".to_string())),
    ];
    assert_eq!(
        front_matter_text(&several),
        "--- # a.md\ntitle: A\n--- # c.md\ntitle: C\n"
    );
}
