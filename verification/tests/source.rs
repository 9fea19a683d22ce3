//! Files, directories and URLs.
use std::path::Path;

use termmd::markdown::{parse, Block, ParseOptions, UrlBase};
use termmd::source::{
    as_url, build_document, file_name, first_heading, heading_of, index_of, is_markdown, look_for_markdown,
    origin_of, page_of, sort_names, watchable_paths, watchable_urls, EntryKind, Listing, Look, Origin,
    Source, HOLDS_MARKDOWN_DEPTH,
};

fn source(name: &str, text: &str) -> Source {
    Source::file(name.into(), text.into())
}

#[test]
fn only_urls_are_polled_and_only_paths_are_watched() {
    let sources = vec![
        source("a.md", "# A\n"),
        Source {
            origin: Origin::Url("https://example.com/b.md".into()),
            name: "https://example.com/b.md".into(),
            text: "# B\n".into(),
        },
    ];
    assert_eq!(watchable_paths(&sources), vec!["a.md".to_string()]);
    assert_eq!(
        watchable_urls(&sources),
        vec![("https://example.com/b.md".to_string(), "# B\n".to_string())]
    );
}

#[test]
fn a_single_file_gets_no_extra_heading() {
    let doc = build_document(&[source("a.md", "# Real Title\n")], ParseOptions::default());
    assert_eq!(doc.blocks.len(), 1);
    assert_eq!(doc.title.as_deref(), Some("Real Title"));
}

#[test]
fn several_files_are_labelled_and_separated() {
    let docs = [source("a.md", "alpha\n"), source("b.md", "beta\n")];
    let doc = build_document(&docs, ParseOptions::default());
    let headings = doc.headings();
    assert_eq!(headings.len(), 2);
    assert_eq!(headings[0].1, "a.md");
    assert_eq!(headings[1].1, "b.md");
    assert!(
        doc.blocks.iter().any(|b| matches!(b, Block::Rule)),
        "expected a separator"
    );
}

#[test]
fn footnotes_from_every_file_are_kept() {
    let docs = [
        source("a.md", "one[^a]\n\n[^a]: first\n"),
        source("b.md", "two[^b]\n\n[^b]: second\n"),
    ];
    let doc = build_document(&docs, ParseOptions::default());
    assert_eq!(doc.footnotes.len(), 2);
}

#[test]
fn a_base_is_the_documents_own_directory() {
    assert_eq!(
        Source {
            origin: Origin::Stdin,
            name: "<stdin>".into(),
            text: String::new()
        }
        .base(),
        UrlBase::Dir(".".into())
    );
    assert_eq!(source("bare.md", "").base(), UrlBase::Dir(".".into()));
    assert_eq!(
        source("dir/file.md", "").base(),
        UrlBase::Dir("dir".into())
    );
    let remote = Source {
        origin: Origin::Url("https://example.com/a/b.md".into()),
        name: "b.md".into(),
        text: String::new(),
    };
    assert_eq!(remote.base(), UrlBase::Url("https://example.com/a/b.md".into()));
}

#[test]
fn urls_are_rebased_per_file() {
    let docs = [
        source("one/a.md", "![x](img.png)\n"),
        source("two/b.md", "![y](img.png)\n"),
    ];
    let doc = build_document(&docs, ParseOptions::default());
    let urls: Vec<String> = doc
        .blocks
        .iter()
        .filter_map(|b| match b {
            Block::Figure { image, .. } => Some(image.url.clone()),
            _ => None,
        })
        .collect();
    assert_eq!(urls.len(), 2);
    // Rebasing yields absolute paths, so that nothing downstream can join
    // them against a second base directory.
    assert!(
        urls.iter().all(|u| Path::new(u).is_absolute()),
        "got {urls:?}"
    );
    // Compared as paths: the separator differs between platforms.
    assert!(
        Path::new(&urls[0]).ends_with("one/img.png"),
        "got {}",
        urls[0]
    );
    assert!(
        Path::new(&urls[1]).ends_with("two/img.png"),
        "got {}",
        urls[1]
    );
}

#[test]
fn a_remote_documents_images_stay_remote() {
    let remote = Source {
        origin: Origin::Url("https://example.com/repo/docs/README.md".into()),
        name: "README.md".into(),
        text: "![x](img/logo.png)\n\n![y](/top.png)\n\n![z](../up.png)\n".into(),
    };
    let doc = build_document(&[remote], ParseOptions::default());
    let urls: Vec<String> = doc
        .blocks
        .iter()
        .filter_map(|b| match b {
            Block::Figure { image, .. } => Some(image.url.clone()),
            _ => None,
        })
        .collect();
    assert_eq!(
        urls,
        vec![
            "https://example.com/repo/docs/img/logo.png",
            "https://example.com/top.png",
            "https://example.com/repo/up.png",
        ]
    );
}

#[test]
fn a_url_is_recognised_as_one() {
    assert_eq!(
        as_url("https://example.com/a.md").as_deref(),
        Some("https://example.com/a.md")
    );
    assert_eq!(
        as_url("http://example.com/a.md").as_deref(),
        Some("http://example.com/a.md")
    );
    // A path that merely mentions one, and a scheme we cannot fetch.
    assert_eq!(as_url("./https://a.md"), None);
    assert_eq!(as_url("file:///tmp/a.md"), None);
    assert_eq!(as_url("README.md"), None);
}

/// The index of a directory with the given entries. Directories end in a slash, and
/// in two where there is Markdown under them.
fn index(dir: &str, entries: &[(&str, &str)]) -> String {
    let mut listing = Listing::new();
    for (name, _) in entries {
        let kind = if name.ends_with("//") {
            EntryKind::MarkdownDirectory
        } else if name.ends_with('/') {
            EntryKind::Directory
        } else {
            EntryKind::File
        };
        if !listing.offer(name.trim_end_matches('/'), kind) {
            break;
        }
    }
    let listing = listing.sort();
    let headings = listing
        .files
        .iter()
        .map(|file| {
            entries
                .iter()
                .find(|(name, _)| name == file)
                .and_then(|(_, text)| first_heading(text))
        })
        .collect();
    index_of(dir, &listing, &headings)
}

#[test]
fn a_directory_becomes_an_index_of_its_markdown() {
    let index = index(
        "/tmp/index",
        &[
            ("chapters//", ""),
            ("images/", ""),
            ("guide.md", "# Getting started\n"),
            ("alpha.md", "no heading here\n"),
            ("notes.txt", "not markdown\n"),
            ("README.md", "# The Readme\n"),
        ],
    );
    let lines: Vec<&str> = index.lines().filter(|l| l.starts_with("- ")).collect();

    assert_eq!(
        lines,
        vec![
            "- [README.md](README.md) — The Readme",
            "- [alpha.md](alpha.md)",
            "- [guide.md](guide.md) — Getting started",
            "- [chapters/](chapters)",
        ],
        "README first, then files by name, then directories that hold \
         Markdown; a file with no heading is listed by name alone"
    );
    assert!(!index.contains("notes.txt"), "not Markdown: {index}");
    assert!(!index.contains("images"), "no Markdown in it: {index}");
}

#[test]
fn an_index_links_relative_to_the_directory_it_lists() {
    let mut source = Source::pending(origin_of("/tmp/links", true));
    source.text = index("/tmp/links", &[("one.md", "# One\n")]);
    let base = source.base();
    let doc = build_document(&[source], ParseOptions::default());

    // The index's own base is the directory, so its links resolve into it.
    assert!(doc
        .headings()
        .iter()
        .any(|(_, text, _)| text.contains("links")));
    assert_eq!(
        base,
        UrlBase::Dir("/tmp/links".into()),
        "an index resolves its links against the directory it lists"
    );
}

#[test]
fn a_directory_with_nothing_to_show_says_so() {
    let index = index("/tmp/empty", &[("photo.png", "x")]);
    assert!(index.contains("No Markdown here"), "{index}");
}

#[test]
fn names_that_would_break_a_link_are_encoded() {
    let index = index("/tmp/spaces", &[("a file (1).md", "# Spaced\n")]);
    assert!(
        index.contains("[a file (1).md](a%20file%20%281%29.md)"),
        "{index}"
    );
}

#[test]
fn bytes_that_are_no_text_are_replaced() {
    assert_eq!(page_of(&"# Café\n".as_bytes().to_vec()), "# Café\n");
    assert_eq!(page_of(&b"a\xffb".to_vec()), "a\u{fffd}b");
    // A file cut off in the middle of a character still has its heading.
    assert_eq!(
        heading_of(&b"# Title\n\ncaf\xc3".to_vec()).as_deref(),
        Some("Title")
    );
    assert_eq!(
        heading_of(&b"# T\xff\n".to_vec()).as_deref(),
        Some("T\u{fffd}")
    );
    assert_eq!(heading_of(&b"no heading\n".to_vec()), None);
}

#[test]
fn a_hash_inside_a_code_fence_is_not_the_heading() {
    // A file that opens with a shell block took the comment as its title.
    assert_eq!(
        first_heading("```sh\n# not a heading, a comment\necho hi\n```\n\n# The Real Heading\n")
            .as_deref(),
        Some("The Real Heading")
    );
    assert_eq!(
        first_heading("~~~\n# nor this\n~~~\n\n# Actual\n").as_deref(),
        Some("Actual")
    );
}

#[test]
fn a_cycle_of_symlinked_directories_ends() {
    // A link back up is not a real directory, so there is nothing left to look into.
    let up = vec![("up".to_string(), false)];
    let Look::Deeper(dirs) = look_for_markdown(&up, HOLDS_MARKDOWN_DEPTH) else {
        panic!("there is no Markdown here")
    };
    assert!(dirs.is_empty());
    // And a directory that really does hold Markdown is still found.
    let real = vec![("up".to_string(), false), ("real.md".to_string(), false)];
    assert!(matches!(
        look_for_markdown(&real, HOLDS_MARKDOWN_DEPTH),
        Look::Found
    ));
}

#[test]
fn markdown_deeper_down_still_counts() {
    let mut depth = HOLDS_MARKDOWN_DEPTH;
    for name in ["b", "c"] {
        let level = vec![(name.to_string(), true)];
        let Look::Deeper(dirs) = look_for_markdown(&level, depth) else {
            panic!("there is no Markdown at this level")
        };
        assert_eq!(dirs, vec![name.to_string()]);
        depth -= 1;
    }
    let bottom = vec![("buried.md".to_string(), false)];
    assert!(matches!(look_for_markdown(&bottom, depth), Look::Found));

    // At the bottom of the search, directories are no longer looked into.
    let Look::Deeper(dirs) = look_for_markdown(&vec![("d".to_string(), true)], 0) else {
        panic!("there is no Markdown at this level")
    };
    assert!(dirs.is_empty());
}

#[test]
fn brackets_in_a_name_do_not_break_the_link() {
    let index = index("/tmp/brackets", &[("a [draft].md", "# Draft\n")]);
    assert!(
        index.contains(r"- [a \[draft\].md](a%20%5Bdraft%5D.md)"),
        "{index}"
    );
    // And the link survives being parsed back out of the index.
    let doc = parse(&index, ParseOptions::default());
    let text = doc.headings();
    assert!(!text.is_empty());
}

#[test]
fn a_heading_is_read_past_front_matter() {
    assert_eq!(
        first_heading("---\ntitle: meta\n---\n\n# The Real Heading\n").as_deref(),
        Some("The Real Heading")
    );
}

#[test]
fn only_files_can_be_watched() {
    let sources = vec![
        source("a.md", ""),
        Source::pending(origin_of("/tmp/watch", true)),
        Source {
            origin: Origin::Url("https://example.com/a.md".into()),
            name: "a.md".into(),
            text: String::new(),
        },
        Source {
            origin: Origin::Stdin,
            name: "<stdin>".into(),
            text: String::new(),
        },
    ];
    // The directory counts: its index changes when a file appears in it.
    assert_eq!(
        watchable_paths(&sources),
        vec!["a.md".to_string(), "/tmp/watch".to_string()]
    );
}

#[test]
fn names_are_told_apart() {
    assert_eq!(origin_of("-", false), Origin::Stdin);
    assert_eq!(
        origin_of("https://example.com/a.md", false),
        Origin::Url("https://example.com/a.md".into())
    );
    assert_eq!(origin_of("docs/", true), Origin::Directory("docs/".into()));
    assert_eq!(origin_of("a.md", false), Origin::File("a.md".into()));
    assert_eq!(Source::pending(origin_of("docs//", true)).name, "docs/");
    assert_eq!(Source::pending(Origin::Stdin).name, "<stdin>");
    assert_eq!(Source::pending(Origin::File("x/a.md".into())).path(), Some("x/a.md"));
    assert_eq!(Source::pending(Origin::Stdin).path(), None);
}

#[test]
fn the_directory_of_a_path() {
    for (path, dir) in [
        ("a.md", "."),
        ("./a.md", "."),
        ("x/a.md", "x"),
        ("x//a.md", "x"),
        ("x/./a.md", "x"),
        ("x/y/a.md/", "x/y"),
        ("/a.md", "/"),
        ("..", "."),
        ("", "."),
    ] {
        assert_eq!(source(path, "").base_dir(), dir, "{path:?}");
    }
    let remote = Source::pending(Origin::Url("https://example.com/a/b.md".into()));
    assert_eq!(remote.base_dir(), ".");
}

#[test]
fn markdown_is_told_by_its_extension() {
    for name in ["a.md", "A.MD", "x/b.markdown", "c.mdown", "d.mkd", "e.mdx", "f.md/"] {
        assert!(is_markdown(name), "{name}");
    }
    for name in [".md", "md", "a.txt", "a.md.bak", "", "x.md/.."] {
        assert!(!is_markdown(name), "{name}");
    }
    assert_eq!(file_name("/x/y.md"), "y.md");
    assert_eq!(file_name("/x/.."), "");
}

#[test]
fn names_are_listed_in_a_stable_order() {
    let names: Vec<String> = ["b.md", "a.md", "Zed.md", "A.md", "readme.txt", "README.md"]
        .iter()
        .map(|n| n.to_string())
        .collect();
    assert_eq!(
        sort_names(names, true),
        vec!["README.md", "readme.txt", "A.md", "a.md", "b.md", "Zed.md"]
    );
}
