//! The document tree, and making its URLs absolute.
use std::path::{Path, PathBuf};

use termmd::markdown::{
    plain_text, rebase_urls, Block, Document, ImageRef, Inline, UrlBase,
};

#[test]
fn plain_text_flattens_nested_inlines() {
    let inlines = vec![
        Inline::Text("a ".into()),
        Inline::Strong(vec![Inline::Emph(vec![Inline::Text("b".into())])]),
        Inline::SoftBreak,
        Inline::Code("c".into()),
    ];
    assert_eq!(plain_text(&inlines), "a b c");
}

#[test]
fn headings_are_collected_in_document_order() {
    let doc = Document {
        blocks: vec![
            Block::Heading {
                level: 1,
                id: "one".into(),
                content: vec![Inline::Text("One".into())],
            },
            Block::BlockQuote {
                kind: None,
                blocks: vec![Block::Heading {
                    level: 2,
                    id: "two".into(),
                    content: vec![Inline::Text("Two".into())],
                }],
            },
        ],
        ..Default::default()
    };
    let h = doc.headings();
    assert_eq!(h.len(), 2);
    assert_eq!(h[0], (1, "One".to_string(), "one".to_string()));
    assert_eq!(h[1].0, 2);
}


/// An absolute directory for whatever platform this is: on Windows a path
/// needs a drive letter to count as absolute, so `/docs` will not do.
fn base() -> PathBuf {
    std::path::absolute("docs").expect("a working directory")
}

fn url_after_rebase(url: &str) -> String {
    rebase_from(&base(), url)
}

fn rebase_from(base: &Path, url: &str) -> String {
    let mut doc = Document {
        blocks: vec![Block::Figure {
            image: ImageRef {
                url: url.into(),
                ..Default::default()
            },
            caption: Vec::new(),
        }],
        ..Default::default()
    };
    rebase_urls(&mut doc, &UrlBase::Dir(base.to_str().unwrap().to_string()));
    match &doc.blocks[0] {
        Block::Figure { image, .. } => image.url.clone(),
        _ => unreachable!(),
    }
}

#[test]
fn makes_relative_paths_absolute() {
    // Compared as paths, not strings, so the separator does not matter.
    assert_eq!(
        Path::new(&url_after_rebase("img/logo.png")),
        base().join("img/logo.png")
    );
    assert_eq!(
        Path::new(&url_after_rebase("./logo.png")),
        base().join("logo.png")
    );
}

#[test]
fn leaves_everything_else_alone() {
    for url in [
        "https://example.com/a.png",
        "http://example.com/a.png",
        "/absolute/a.png",
        "data:image/png;base64,AAAA",
        "#anchor",
        "mailto:someone@example.com",
    ] {
        assert_eq!(url_after_rebase(url), url, "{url} should not be rebased");
    }
}

#[test]
fn a_relative_base_still_yields_an_absolute_path() {
    // The guard against a second base being applied further down the line.
    let url = rebase_from(Path::new("doc"), "images/x.png");
    let path = Path::new(&url);
    assert!(path.is_absolute(), "got {url}");
    assert!(path.ends_with("doc/images/x.png"), "got {url}");
}

#[test]
fn rebases_inside_nested_blocks() {
    let mut doc = Document {
        blocks: vec![Block::BlockQuote {
            kind: None,
            blocks: vec![Block::Paragraph(vec![Inline::Link {
                dest: "other.md".into(),
                title: None,
                content: vec![Inline::Text("x".into())],
            }])],
        }],
        ..Default::default()
    };
    rebase_urls(
        &mut doc,
        &UrlBase::Dir(base().to_str().unwrap().to_string()),
    );
    let Block::BlockQuote { blocks, .. } = &doc.blocks[0] else {
        panic!()
    };
    let Block::Paragraph(inlines) = &blocks[0] else {
        panic!()
    };
    let Inline::Link { dest, .. } = &inlines[0] else {
        panic!("expected a link")
    };
    assert_eq!(Path::new(dest), base().join("other.md"));
}

#[test]
fn an_empty_base_is_the_current_directory() {
    let url = rebase_from(Path::new(""), "images/x.png");
    assert_eq!(
        Path::new(&url),
        std::path::absolute("images/x.png").expect("a working directory")
    );
}

#[test]
fn an_absolute_base_is_normalised() {
    assert_eq!(rebase_from(Path::new("/a//b/./c/"), "../x.png"), "/a/b/c/../x.png");
}

#[test]
fn a_second_base_changes_nothing() {
    let once = rebase_from(Path::new("doc"), "images/x.png");
    assert_eq!(rebase_from(Path::new("other"), &once), once);
    assert_eq!(rebase_from(Path::new("/elsewhere"), &once), once);
}
