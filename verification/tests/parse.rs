//! From Markdown to the document tree.
use termmd::markdown::parse::MAX_DEPTH;
use termmd::markdown::{
    parse, plain_text, AlertKind, Alignment, Block, Document, Inline, ParseOptions,
};

fn doc(src: &str) -> Document {
    parse(src, ParseOptions::default())
}

#[test]
fn parse_nesting_has_a_floor() {
    // Every walk over the tree recurses -- rendering, rebasing URLs,
    // dropping it -- so the tree itself has to stop getting deeper. This
    // used to take the stack with it, and a document can arrive from a URL.
    let deep = format!("{}deep\n", "> ".repeat(50_000));
    let doc = parse(&deep, ParseOptions::default());

    // Nothing is lost: the text is still in there, just not 50,000 quotes
    // down.
    let text = collect_text(&doc.blocks);
    assert!(text.contains("deep"), "got {text:?}");
    // One more than the cap: the innermost paragraph counts as a level
    // here, where the parser's floor counts open frames.
    let depth = depth_of(&doc.blocks);
    assert!(depth <= MAX_DEPTH + 1, "{depth} levels deep");
}

#[test]
fn inline_nesting_has_the_same_floor() {
    let deep = format!("{}a{}\n", "*".repeat(20_000), "*".repeat(20_000));
    let doc = parse(&deep, ParseOptions::default());
    assert!(depth_of(&doc.blocks) <= MAX_DEPTH + 1);
}

/// The deepest chain of blocks in a tree.
fn depth_of(blocks: &[Block]) -> usize {
    blocks
        .iter()
        .map(|block| match block {
            Block::BlockQuote { blocks, .. } | Block::FootnoteDefinition { blocks, .. } => {
                1 + depth_of(blocks)
            }
            Block::List(list) => {
                1 + list
                    .items
                    .iter()
                    .map(|i| depth_of(&i.blocks))
                    .max()
                    .unwrap_or(0)
            }
            _ => 1,
        })
        .max()
        .unwrap_or(0)
}

/// The text of every inline in a tree, for asserting nothing was dropped.
fn collect_text(blocks: &[Block]) -> String {
    let mut out = String::new();
    for block in blocks {
        match block {
            Block::Paragraph(inlines)
            | Block::Heading {
                content: inlines, ..
            } => out.push_str(&plain_text(inlines)),
            Block::BlockQuote { blocks, .. } | Block::FootnoteDefinition { blocks, .. } => {
                out.push_str(&collect_text(blocks))
            }
            Block::List(list) => {
                for item in &list.items {
                    out.push_str(&collect_text(&item.blocks));
                }
            }
            _ => {}
        }
    }
    out
}

#[test]
fn parses_headings_with_slugs() {
    let d = doc("# Hello World\n## Hello World\n");
    assert_eq!(d.blocks.len(), 2);
    match (&d.blocks[0], &d.blocks[1]) {
        (Block::Heading { id: a, .. }, Block::Heading { id: b, .. }) => {
            assert_eq!(a, "hello-world");
            assert_eq!(b, "hello-world-1", "duplicate headings must not collide");
        }
        other => panic!("unexpected {other:?}"),
    }
    assert_eq!(d.title.as_deref(), Some("Hello World"));
}

#[test]
fn explicit_heading_ids_win() {
    let d = doc("# Title {#custom}\n");
    assert!(matches!(&d.blocks[0], Block::Heading { id, .. } if id == "custom"));
}

#[test]
fn distinguishes_tight_and_loose_lists() {
    let tight = doc("- a\n- b\n");
    assert!(matches!(&tight.blocks[0], Block::List(l) if l.tight));

    let loose = doc("- a\n\n- b\n");
    assert!(matches!(&loose.blocks[0], Block::List(l) if !l.tight));
}

#[test]
fn tight_items_still_carry_their_text() {
    let d = doc("- hello\n");
    let Block::List(list) = &d.blocks[0] else {
        panic!("expected list")
    };
    assert_eq!(list.items.len(), 1);
    assert_eq!(
        plain_text(match &list.items[0].blocks[0] {
            Block::Paragraph(p) => p,
            other => panic!("unexpected {other:?}"),
        }),
        "hello"
    );
}

#[test]
fn parses_task_lists() {
    let d = doc("- [x] done\n- [ ] todo\n");
    let Block::List(list) = &d.blocks[0] else {
        panic!("expected list")
    };
    assert_eq!(list.items[0].task, Some(true));
    assert_eq!(list.items[1].task, Some(false));
}

#[test]
fn parses_nested_lists() {
    let d = doc("- a\n  - b\n    - c\n");
    let Block::List(l1) = &d.blocks[0] else {
        panic!()
    };
    let Block::List(l2) = &l1.items[0].blocks[1] else {
        panic!("expected nested list")
    };
    assert!(matches!(&l2.items[0].blocks[1], Block::List(_)));
}

#[test]
fn parses_tables_with_alignment() {
    let d = doc("| a | b |\n|:--|--:|\n| 1 | 2 |\n");
    let Block::Table(t) = &d.blocks[0] else {
        panic!("expected table")
    };
    assert_eq!(t.alignments, vec![Alignment::Left, Alignment::Right]);
    assert_eq!(t.head.len(), 2);
    assert_eq!(t.rows.len(), 1);
    assert_eq!(plain_text(&t.rows[0][1]), "2");
}

#[test]
fn parses_github_alerts() {
    let d = doc("> [!WARNING]\n> Careful.\n");
    let Block::BlockQuote { kind, blocks } = &d.blocks[0] else {
        panic!("expected quote")
    };
    assert_eq!(*kind, Some(AlertKind::Warning));
    assert_eq!(blocks.len(), 1);
}

#[test]
fn collects_footnotes_separately() {
    let d = doc("Text[^1]\n\n[^1]: The note.\n");
    assert_eq!(d.footnotes.len(), 1);
    assert_eq!(d.footnotes[0].0, "1");
    assert!(
        !d.blocks
            .iter()
            .any(|b| matches!(b, Block::FootnoteDefinition { .. }))
    );
}

#[test]
fn code_blocks_keep_language_and_drop_trailing_newline() {
    let d = doc("```rust,ignore\nfn main() {}\n```\n");
    let Block::CodeBlock { language, code } = &d.blocks[0] else {
        panic!()
    };
    assert_eq!(language.as_deref(), Some("rust"));
    assert_eq!(code, "fn main() {}");
}

#[test]
fn lone_images_become_figures() {
    let d = doc("![A cat](cat.png)\n");
    let Block::Figure { image, caption } = &d.blocks[0] else {
        panic!("expected figure")
    };
    assert_eq!(image.url, "cat.png");
    assert_eq!(plain_text(caption), "A cat");

    // ...but an image with text beside it stays inline.
    let d = doc("see ![A cat](cat.png) here\n");
    assert!(matches!(&d.blocks[0], Block::Paragraph(_)));
}

#[test]
fn extracts_front_matter_and_title() {
    let d = doc("---\ntitle: From Front Matter\n---\n\n# Body\n");
    assert_eq!(d.title.as_deref(), Some("From Front Matter"));
    assert!(d.front_matter.as_deref().unwrap().contains("title:"));
}

#[test]
fn html_images_survive() {
    let d = doc("<p align=\"center\"><img src=\"banner.png\" alt=\"Banner\"></p>\n");
    assert!(
        d.blocks
            .iter()
            .any(|b| matches!(b, Block::Figure { image, .. } if image.url == "banner.png")),
        "expected the HTML img to become a figure, got {:?}",
        d.blocks
    );
}

#[test]
fn html_tags_split_across_lines_still_work() {
    // Regression: cmark emits an HTML block one line at a time, so this tag
    // reaches the parser in three pieces.
    let d = doc("<p>\n<img src=\n\"pic.png\"\n width=\"300px\">\n</p>\n");
    assert!(
        d.blocks
            .iter()
            .any(|b| matches!(b, Block::Figure { image, .. } if image.url == "pic.png")),
        "expected the image to survive being split: {:?}",
        d.blocks
    );
}

#[test]
fn several_html_images_in_one_block_are_all_kept() {
    let d = doc("<p>\n<img src=\"a.png\">\n<img src=\"b.png\">\n</p>\n");
    let urls: Vec<&str> = d
        .blocks
        .iter()
        .filter_map(|b| match b {
            Block::Figure { image, .. } => Some(image.url.as_str()),
            _ => None,
        })
        .collect();
    assert_eq!(urls, vec!["a.png", "b.png"]);
}

#[test]
fn parses_math() {
    let d = doc("Inline $x^2$ and\n\n$$\\int f$$\n");
    assert!(matches!(&d.blocks[1], Block::DisplayMath(_)));
}

#[test]
fn parses_definition_lists() {
    let d = doc("Term\n\n: Definition here\n");
    assert!(matches!(&d.blocks[0], Block::DefinitionList(items) if items.len() == 1));
}

#[test]
fn handles_truncated_input_without_losing_content() {
    let d = doc("> quote with no end\n\n- item");
    assert!(d.blocks.len() >= 2);
}

#[test]
fn empty_input_yields_empty_document() {
    assert_eq!(doc(""), Document::default());
}
