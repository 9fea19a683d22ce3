//! Folds the events of a parse into the document tree.
//!
//! The stream is flat -- start, content, end -- so a stack of half-built nodes is
//! kept. Each start pushes a frame, each end pops one and hands the finished node
//! to whatever is underneath it.
//!
//! Two details are worth knowing about. First, tight list items have no paragraph
//! events at all, so inline content can arrive with a block container on top of
//! the stack; an implicit paragraph is opened in that case and closed when the
//! container is. Second, footnote definitions arrive inline wherever the author
//! wrote them, but belong at the end of the rendered document, so they are lifted
//! out of the block tree on the way.
use vstd::prelude::*;

use super::events::{cmark, cmark_events, events_view, Event, EventV, Tag, TagEnd, TagV};
use super::html::{self, HtmlPiece, PieceV};
use super::ir::{
    block_view, blocks_view, bodies_view, cells_view, definition_view, definitions_view,
    footnotes_view, inline_view, inlines_view, items_view, opt_text, plain, plain_text, rows_view,
    AlertKind, Alignment, Block, BlockV, Document, DocumentV, ImageRef, ImageRefV, Inline, InlineV,
    List, ListItem, ListItemV, ListV, Table, TableV,
};
use super::slug::{slug_base, slug_given, slug_seen, Seen, Slugger};
use crate::text;

verus! {

/// Which Markdown extensions to enable.
#[derive(Debug, Clone, Copy, PartialEq, Eq, Structural)]
pub struct ParseOptions {
    /// Tables, task lists, strikethrough, footnotes, alerts.
    pub gfm: bool,
    /// `$inline$` and `$$display$$` math.
    pub math: bool,
    /// Curly quotes, en/em dashes, ellipses.
    pub smart_punctuation: bool,
    /// `[[wikilinks]]`.
    pub wikilinks: bool,
    /// Definition lists.
    pub definition_lists: bool,
    /// Treat a leading YAML block as front matter rather than content.
    pub front_matter: bool,
}

impl Default for ParseOptions {
    fn default() -> (r: ParseOptions)
        ensures
            r == (ParseOptions {
                gfm: true,
                math: true,
                smart_punctuation: true,
                wikilinks: true,
                definition_lists: true,
                front_matter: true,
            }),
    {
        ParseOptions {
            gfm: true,
            math: true,
            smart_punctuation: true,
            wikilinks: true,
            definition_lists: true,
            front_matter: true,
        }
    }
}

// The bits of `pulldown_cmark::Options`.
pub const ENABLE_TABLES: u32 = 0x2;

pub const ENABLE_FOOTNOTES: u32 = 0x4;

pub const ENABLE_STRIKETHROUGH: u32 = 0x8;

pub const ENABLE_TASKLISTS: u32 = 0x10;

pub const ENABLE_SMART_PUNCTUATION: u32 = 0x20;

pub const ENABLE_HEADING_ATTRIBUTES: u32 = 0x40;

pub const ENABLE_YAML_STYLE_METADATA_BLOCKS: u32 = 0x80;

pub const ENABLE_PLUSES_DELIMITED_METADATA_BLOCKS: u32 = 0x100;

pub const ENABLE_MATH: u32 = 0x400;

pub const ENABLE_GFM: u32 = 0x800;

pub const ENABLE_DEFINITION_LIST: u32 = 0x1000;

pub const ENABLE_SUPERSCRIPT: u32 = 0x2000;

pub const ENABLE_SUBSCRIPT: u32 = 0x4000;

pub const ENABLE_WIKILINKS: u32 = 0x8000;

/// `bits` when `on`, none otherwise.
pub open spec fn bits_if(on: bool, bits: int) -> int {
    if on {
        bits
    } else {
        0
    }
}

impl ParseOptions {
    /// The parser options these extensions stand for. No two share a bit, so a sum is
    /// a union.
    pub open spec fn bits(self) -> int {
        bits_if(
            self.gfm,
            ENABLE_TABLES + ENABLE_FOOTNOTES + ENABLE_STRIKETHROUGH + ENABLE_TASKLISTS + ENABLE_GFM,
        ) + bits_if(self.math, ENABLE_MATH as int) + bits_if(
            self.smart_punctuation,
            ENABLE_SMART_PUNCTUATION as int,
        ) + bits_if(self.wikilinks, ENABLE_WIKILINKS as int) + bits_if(
            self.definition_lists,
            ENABLE_DEFINITION_LIST as int,
        ) + bits_if(
            self.front_matter,
            ENABLE_YAML_STYLE_METADATA_BLOCKS + ENABLE_PLUSES_DELIMITED_METADATA_BLOCKS,
        ) + ENABLE_HEADING_ATTRIBUTES + ENABLE_SUPERSCRIPT + ENABLE_SUBSCRIPT
    }

    fn to_cmark(self) -> (r: u32)
        ensures
            r == self.bits(),
    {
        let mut o: u32 = ENABLE_HEADING_ATTRIBUTES + ENABLE_SUPERSCRIPT + ENABLE_SUBSCRIPT;
        if self.gfm {
            o = o + ENABLE_TABLES + ENABLE_FOOTNOTES + ENABLE_STRIKETHROUGH + ENABLE_TASKLISTS
                + ENABLE_GFM;
        }
        if self.math {
            o = o + ENABLE_MATH;
        }
        if self.smart_punctuation {
            o = o + ENABLE_SMART_PUNCTUATION;
        }
        if self.wikilinks {
            o = o + ENABLE_WIKILINKS;
        }
        if self.definition_lists {
            o = o + ENABLE_DEFINITION_LIST;
        }
        if self.front_matter {
            o = o + ENABLE_YAML_STYLE_METADATA_BLOCKS + ENABLE_PLUSES_DELIMITED_METADATA_BLOCKS;
        }
        o
    }
}

/// How deep a document may nest before the tree stops getting deeper.
///
/// A hundred is far past anything written on purpose -- a list inside a quote
/// inside a footnote is four -- and far short of what a recursive walk over the
/// result cannot survive.
pub const MAX_DEPTH: usize = 100;

// --- frames -----------------------------------------------------------------

/// A half-built node, as a value.
pub enum FrameV {
    Paragraph { inlines: Seq<InlineV>, implicit: bool },
    Heading { level: u8, id: Option<Seq<char>>, inlines: Seq<InlineV> },
    BlockQuote { kind: Option<AlertKind>, blocks: Seq<BlockV> },
    CodeBlock { language: Option<Seq<char>>, code: Seq<char> },
    List { start: Option<u64>, items: Seq<ListItemV>, tight: bool },
    Item { task: Option<bool>, blocks: Seq<BlockV>, loose: bool },
    Table {
        alignments: Seq<Alignment>,
        head: Seq<Seq<InlineV>>,
        rows: Seq<Seq<Seq<InlineV>>>,
        in_head: bool,
    },
    TableRow { cells: Seq<Seq<InlineV>> },
    TableCell { inlines: Seq<InlineV> },
    Emphasis(Seq<InlineV>),
    Strong(Seq<InlineV>),
    Strike(Seq<InlineV>),
    Superscript(Seq<InlineV>),
    Subscript(Seq<InlineV>),
    Link { dest: Seq<char>, title: Option<Seq<char>>, content: Seq<InlineV> },
    Image { dest: Seq<char>, title: Option<Seq<char>>, alt: Seq<InlineV> },
    FootnoteDefinition { label: Seq<char>, blocks: Seq<BlockV> },
    DefinitionList { terms: Seq<(Seq<InlineV>, Seq<Seq<BlockV>>)> },
    DefinitionTitle(Seq<InlineV>),
    DefinitionBody(Seq<BlockV>),
    HtmlBlock(Seq<char>),
    Metadata(Seq<char>),
}

/// The builder between two events, as a value.
pub struct BuilderV {
    pub stack: Seq<FrameV>,
    /// Opened containers that were not nested, waiting for their closes.
    pub suppressed: nat,
    pub blocks: Seq<BlockV>,
    pub footnotes: Seq<(Seq<char>, Seq<BlockV>)>,
    pub seen: Seen,
    pub front_matter: Option<Seq<char>>,
}

/// A builder that has seen nothing.
pub open spec fn fresh() -> BuilderV {
    BuilderV {
        stack: Seq::empty(),
        suppressed: 0,
        blocks: Seq::empty(),
        footnotes: Seq::empty(),
        seen: Set::empty(),
        front_matter: None,
    }
}

/// The builder with one more open frame.
pub open spec fn opened(b: BuilderV, f: FrameV) -> BuilderV {
    BuilderV { stack: b.stack.push(f), ..b }
}

/// The builder with its top frame replaced.
pub open spec fn retopped(b: BuilderV, f: FrameV) -> BuilderV {
    BuilderV { stack: b.stack.drop_last().push(f), ..b }
}

/// A frame with an inline added, if it takes inlines.
pub open spec fn frame_with_inline(f: FrameV, i: InlineV) -> Option<FrameV> {
    match f {
        FrameV::Paragraph { inlines, implicit } => Some(
            FrameV::Paragraph { inlines: inlines.push(i), implicit },
        ),
        FrameV::Heading { level, id, inlines } => Some(
            FrameV::Heading { level, id, inlines: inlines.push(i) },
        ),
        FrameV::TableCell { inlines } => Some(FrameV::TableCell { inlines: inlines.push(i) }),
        FrameV::Emphasis(c) => Some(FrameV::Emphasis(c.push(i))),
        FrameV::Strong(c) => Some(FrameV::Strong(c.push(i))),
        FrameV::Strike(c) => Some(FrameV::Strike(c.push(i))),
        FrameV::Superscript(c) => Some(FrameV::Superscript(c.push(i))),
        FrameV::Subscript(c) => Some(FrameV::Subscript(c.push(i))),
        FrameV::DefinitionTitle(c) => Some(FrameV::DefinitionTitle(c.push(i))),
        FrameV::Link { dest, title, content } => Some(
            FrameV::Link { dest, title, content: content.push(i) },
        ),
        FrameV::Image { dest, title, alt } => Some(
            FrameV::Image { dest, title, alt: alt.push(i) },
        ),
        _ => None,
    }
}

/// The builder with an inline added to the top frame, or to an implicit paragraph
/// opened for it.
pub open spec fn with_inline(b: BuilderV, i: InlineV) -> BuilderV {
    if b.stack.len() > 0 {
        match frame_with_inline(b.stack.last(), i) {
            Some(f) => retopped(b, f),
            None => opened(b, FrameV::Paragraph { inlines: seq![i], implicit: true }),
        }
    } else {
        opened(b, FrameV::Paragraph { inlines: seq![i], implicit: true })
    }
}

/// A frame with a block added, if it holds blocks.
pub open spec fn frame_with_block(f: FrameV, block: BlockV) -> Option<FrameV> {
    match f {
        FrameV::Item { task, blocks, loose } => Some(
            FrameV::Item { task, blocks: blocks.push(block), loose },
        ),
        FrameV::BlockQuote { kind, blocks } => Some(
            FrameV::BlockQuote { kind, blocks: blocks.push(block) },
        ),
        FrameV::FootnoteDefinition { label, blocks } => Some(
            FrameV::FootnoteDefinition { label, blocks: blocks.push(block) },
        ),
        FrameV::DefinitionBody(blocks) => Some(FrameV::DefinitionBody(blocks.push(block))),
        _ => None,
    }
}

/// The topmost of the lowest `n` frames that holds blocks, or -1.
pub open spec fn container(stack: Seq<FrameV>, n: int) -> int
    decreases n,
{
    if n <= 0 {
        -1
    } else if frame_with_block(stack[n - 1], BlockV::Rule) is Some {
        n - 1
    } else {
        container(stack, n - 1)
    }
}

/// The builder with a block added to the nearest container.
pub open spec fn placed(b: BuilderV, block: BlockV) -> BuilderV {
    let k = container(b.stack, b.stack.len() as int);
    if k < 0 {
        BuilderV { blocks: b.blocks.push(block), ..b }
    } else {
        BuilderV { stack: b.stack.update(k, frame_with_block(b.stack[k], block)->0), ..b }
    }
}

/// True of inline content that shows nothing.
pub open spec fn blank(i: InlineV) -> bool {
    match i {
        InlineV::Text(t) => text::all_space(t),
        InlineV::SoftBreak | InlineV::HardBreak => true,
        _ => false,
    }
}

/// The inlines that show something.
pub open spec fn meaningful(s: Seq<InlineV>) -> Seq<InlineV> {
    s.filter(|i: InlineV| !blank(i))
}

/// The block that a paragraph's content makes: nothing if it is blank, a figure if
/// all it shows is one image, a paragraph otherwise.
pub open spec fn paragraph_of(s: Seq<InlineV>) -> Option<BlockV> {
    let m = meaningful(s);
    if m.len() == 0 {
        None
    } else if m.len() == 1 && m[0] is Image {
        let image = m[0]->Image_0;
        Some(
            BlockV::Figure {
                image,
                caption: if image.alt.len() == 0 {
                    Seq::empty()
                } else {
                    seq![InlineV::Text(image.alt)]
                },
            },
        )
    } else {
        Some(BlockV::Paragraph(s))
    }
}

/// The builder with the implicit paragraph on top closed, if there is one.
pub open spec fn closed_implicit(b: BuilderV) -> BuilderV
    decreases b.stack.len(),
{
    if b.stack.len() > 0 {
        match b.stack.last() {
            FrameV::Paragraph { inlines, implicit } => if implicit {
                let below = BuilderV { stack: b.stack.drop_last(), ..b };
                match paragraph_of(inlines) {
                    Some(block) => placed(closed_implicit(below), block),
                    None => below,
                }
            } else {
                b
            },
            _ => b,
        }
    } else {
        b
    }
}

/// The builder with a finished block added.
pub open spec fn with_block(b: BuilderV, block: BlockV) -> BuilderV {
    placed(closed_implicit(b), block)
}

/// The builder with a paragraph's content added.
pub open spec fn with_paragraph(b: BuilderV, inlines: Seq<InlineV>) -> BuilderV {
    match paragraph_of(inlines) {
        Some(block) => with_block(b, block),
        None => b,
    }
}

/// The builder after the pieces of an HTML block from `k` on. Pictures and breaks
/// end the paragraph that the text before them makes.
pub open spec fn with_pieces(
    b: BuilderV,
    pieces: Seq<PieceV>,
    k: int,
    inlines: Seq<InlineV>,
) -> BuilderV
    decreases pieces.len() - k,
{
    if k < 0 || k >= pieces.len() {
        with_paragraph(b, inlines)
    } else {
        match pieces[k] {
            PieceV::Text(t) => with_pieces(b, pieces, k + 1, inlines.push(InlineV::Text(t))),
            PieceV::Summary(t) => with_pieces(
                b,
                pieces,
                k + 1,
                inlines.push(InlineV::Strong(seq![InlineV::Text(t)])),
            ),
            PieceV::Image(img) => with_pieces(
                with_paragraph(with_paragraph(b, inlines), seq![InlineV::Image(img)]),
                pieces,
                k + 1,
                Seq::empty(),
            ),
            PieceV::Break => with_pieces(
                with_paragraph(b, inlines),
                pieces,
                k + 1,
                Seq::empty(),
            ),
        }
    }
}

/// The builder after a block of raw HTML.
pub open spec fn with_html(b: BuilderV, raw: Seq<char>) -> BuilderV {
    with_pieces(b, html::simplified(raw), 0, Seq::empty())
}

/// The inline that a piece of inline HTML makes.
pub open spec fn piece_inline(p: PieceV) -> InlineV {
    match p {
        PieceV::Text(t) | PieceV::Summary(t) => InlineV::Text(t),
        PieceV::Image(img) => InlineV::Image(img),
        PieceV::Break => InlineV::HardBreak,
    }
}

/// The builder after the first `k` pieces of inline HTML.
pub open spec fn with_inline_pieces(b: BuilderV, pieces: Seq<PieceV>, k: int) -> BuilderV
    decreases k,
{
    if k <= 0 {
        b
    } else {
        with_inline(with_inline_pieces(b, pieces, k - 1), piece_inline(pieces[k - 1]))
    }
}

/// A string, unless it is empty.
pub open spec fn unless_empty(s: Seq<char>) -> Option<Seq<char>> {
    if s.len() == 0 {
        None
    } else {
        Some(s)
    }
}

/// The builder with its top frame closed and folded into what is underneath.
pub open spec fn closed_top(b: BuilderV) -> BuilderV {
    if b.stack.len() == 0 {
        b
    } else {
        let below = BuilderV { stack: b.stack.drop_last(), ..b };
        match b.stack.last() {
            FrameV::Paragraph { inlines, .. } => with_paragraph(below, inlines),
            FrameV::Heading { level, id, inlines } => match id {
                Some(id) => with_block(below, BlockV::Heading { level, id, content: inlines }),
                None => {
                    let base = slug_base(plain(inlines));
                    with_block(
                        BuilderV { seen: slug_seen(b.seen, base), ..below },
                        BlockV::Heading { level, id: slug_given(b.seen, base), content: inlines },
                    )
                },
            },
            FrameV::BlockQuote { kind, blocks } => with_block(
                below,
                BlockV::BlockQuote { kind, blocks },
            ),
            // Fenced blocks always end with a newline the author did not type.
            FrameV::CodeBlock { language, code } => with_block(
                below,
                BlockV::CodeBlock {
                    language,
                    code: if code.len() > 0 && code.last() == '\n' {
                        code.drop_last()
                    } else {
                        code
                    },
                },
            ),
            FrameV::List { start, items, tight } => with_block(
                below,
                BlockV::List(ListV { start, tight, items }),
            ),
            FrameV::Item { task, blocks, loose } => if below.stack.len() > 0 {
                match below.stack.last() {
                    FrameV::List { start, items, tight } => retopped(
                        below,
                        FrameV::List {
                            start,
                            items: items.push(ListItemV { task, blocks }),
                            tight: tight && !loose,
                        },
                    ),
                    _ => below,
                }
            } else {
                below
            },
            FrameV::Table { alignments, head, rows, .. } => with_block(
                below,
                BlockV::Table(TableV { alignments, head, rows }),
            ),
            FrameV::TableRow { cells } => if below.stack.len() > 0 {
                match below.stack.last() {
                    FrameV::Table { alignments, head, rows, in_head } => retopped(
                        below,
                        if in_head {
                            FrameV::Table { alignments, head: cells, rows, in_head: false }
                        } else {
                            FrameV::Table { alignments, head, rows: rows.push(cells), in_head }
                        },
                    ),
                    _ => below,
                }
            } else {
                below
            },
            FrameV::TableCell { inlines } => if below.stack.len() > 0 {
                match below.stack.last() {
                    FrameV::TableRow { cells } => retopped(
                        below,
                        FrameV::TableRow { cells: cells.push(inlines) },
                    ),
                    _ => below,
                }
            } else {
                below
            },
            FrameV::Emphasis(c) => with_inline(below, InlineV::Emph(c)),
            FrameV::Strong(c) => with_inline(below, InlineV::Strong(c)),
            FrameV::Strike(c) => with_inline(below, InlineV::Strike(c)),
            FrameV::Superscript(c) => with_inline(below, InlineV::Superscript(c)),
            FrameV::Subscript(c) => with_inline(below, InlineV::Subscript(c)),
            FrameV::Link { dest, title, content } => with_inline(
                below,
                InlineV::Link { dest, title, content },
            ),
            FrameV::Image { dest, title, alt } => with_inline(
                below,
                InlineV::Image(ImageRefV { url: dest, alt: plain(alt), title }),
            ),
            FrameV::FootnoteDefinition { label, blocks } => BuilderV {
                footnotes: below.footnotes.push((label, blocks)),
                ..below
            },
            FrameV::DefinitionList { terms } => with_block(below, BlockV::DefinitionList(terms)),
            FrameV::DefinitionTitle(inlines) => if below.stack.len() > 0 {
                match below.stack.last() {
                    FrameV::DefinitionList { terms } => retopped(
                        below,
                        FrameV::DefinitionList { terms: terms.push((inlines, Seq::empty())) },
                    ),
                    _ => below,
                }
            } else {
                below
            },
            FrameV::DefinitionBody(blocks) => if below.stack.len() > 0 {
                match below.stack.last() {
                    FrameV::DefinitionList { terms } => if terms.len() > 0 {
                        retopped(
                            below,
                            FrameV::DefinitionList {
                                terms: terms.drop_last().push(
                                    (terms.last().0, terms.last().1.push(blocks)),
                                ),
                            },
                        )
                    } else {
                        below
                    },
                    _ => below,
                }
            } else {
                below
            },
            FrameV::HtmlBlock(raw) => with_html(below, raw),
            FrameV::Metadata(t) => BuilderV { front_matter: Some(t), ..below },
        }
    }
}

// --- events -----------------------------------------------------------------

/// The first position in `i..` that ends the language in an info string.
pub open spec fn language_end(s: Seq<char>, i: int) -> int
    decreases s.len() - i,
{
    if 0 <= i < s.len() && s[i] != ',' && s[i] != ' ' && s[i] != '\t' && s[i] != '{' {
        language_end(s, i + 1)
    } else {
        i
    }
}

/// The language that an info string names. It may carry more, as in `rust,ignore`.
pub open spec fn language_of(info: Option<Seq<char>>) -> Option<Seq<char>> {
    match info {
        Some(s) => unless_empty(text::trim(s.subrange(0, language_end(s, 0)))),
        None => None,
    }
}

/// The builder after a start tag.
pub open spec fn started(b: BuilderV, tag: TagV) -> BuilderV {
    match tag {
        TagV::Paragraph => {
            let c = closed_implicit(b);
            // A paragraph opened directly inside an item means the author left a
            // blank line, so the enclosing list is loose.
            let d = if c.stack.len() > 0 {
                match c.stack.last() {
                    FrameV::Item { task, blocks, .. } => retopped(
                        c,
                        FrameV::Item { task, blocks, loose: true },
                    ),
                    _ => c,
                }
            } else {
                c
            };
            opened(d, FrameV::Paragraph { inlines: Seq::empty(), implicit: false })
        },
        TagV::Heading { level, id } => opened(
            closed_implicit(b),
            FrameV::Heading { level, id, inlines: Seq::empty() },
        ),
        TagV::BlockQuote(kind) => opened(
            closed_implicit(b),
            FrameV::BlockQuote { kind, blocks: Seq::empty() },
        ),
        TagV::CodeBlock(info) => opened(
            closed_implicit(b),
            FrameV::CodeBlock { language: language_of(info), code: Seq::empty() },
        ),
        TagV::List(start) => opened(
            closed_implicit(b),
            FrameV::List { start, items: Seq::empty(), tight: true },
        ),
        TagV::Item => opened(
            b,
            FrameV::Item { task: None, blocks: Seq::empty(), loose: false },
        ),
        TagV::Table(alignments) => opened(
            closed_implicit(b),
            FrameV::Table { alignments, head: Seq::empty(), rows: Seq::empty(), in_head: false },
        ),
        TagV::TableHead => {
            let c = if b.stack.len() > 0 {
                match b.stack.last() {
                    FrameV::Table { alignments, head, rows, .. } => retopped(
                        b,
                        FrameV::Table { alignments, head, rows, in_head: true },
                    ),
                    _ => b,
                }
            } else {
                b
            };
            opened(c, FrameV::TableRow { cells: Seq::empty() })
        },
        TagV::TableRow => opened(b, FrameV::TableRow { cells: Seq::empty() }),
        TagV::TableCell => opened(b, FrameV::TableCell { inlines: Seq::empty() }),
        TagV::Emphasis => opened(b, FrameV::Emphasis(Seq::empty())),
        TagV::Strong => opened(b, FrameV::Strong(Seq::empty())),
        TagV::Strikethrough => opened(b, FrameV::Strike(Seq::empty())),
        TagV::Superscript => opened(b, FrameV::Superscript(Seq::empty())),
        TagV::Subscript => opened(b, FrameV::Subscript(Seq::empty())),
        TagV::Link { dest, title } => opened(
            b,
            FrameV::Link { dest, title: unless_empty(title), content: Seq::empty() },
        ),
        TagV::Image { dest, title } => opened(
            b,
            FrameV::Image { dest, title: unless_empty(title), alt: Seq::empty() },
        ),
        TagV::FootnoteDefinition(label) => opened(
            closed_implicit(b),
            FrameV::FootnoteDefinition { label, blocks: Seq::empty() },
        ),
        TagV::DefinitionList => opened(
            closed_implicit(b),
            FrameV::DefinitionList { terms: Seq::empty() },
        ),
        TagV::DefinitionListTitle => opened(b, FrameV::DefinitionTitle(Seq::empty())),
        TagV::DefinitionListDefinition => opened(b, FrameV::DefinitionBody(Seq::empty())),
        TagV::HtmlBlock => opened(closed_implicit(b), FrameV::HtmlBlock(Seq::empty())),
        TagV::MetadataBlock => opened(b, FrameV::Metadata(Seq::empty())),
    }
}

/// True of the end of a container, which may hold text that stands in no paragraph.
pub open spec fn ends_container(tag: TagEnd) -> bool {
    match tag {
        TagEnd::Item
        | TagEnd::BlockQuote
        | TagEnd::FootnoteDefinition
        | TagEnd::DefinitionListDefinition
        | TagEnd::HtmlBlock => true,
        _ => false,
    }
}

/// The builder after an end tag. Containers close their implicit paragraph before
/// they close themselves.
pub open spec fn ended(b: BuilderV, tag: TagEnd) -> BuilderV {
    if ends_container(tag) {
        closed_top(closed_implicit(b))
    } else {
        closed_top(b)
    }
}

/// The topmost of the lowest `n` frames that is a list item, or -1.
pub open spec fn item_frame(stack: Seq<FrameV>, n: int) -> int
    decreases n,
{
    if n <= 0 {
        -1
    } else if stack[n - 1] is Item {
        n - 1
    } else {
        item_frame(stack, n - 1)
    }
}

/// The builder with the innermost list item marked as done or to do.
pub open spec fn with_task(b: BuilderV, checked: bool) -> BuilderV {
    let k = item_frame(b.stack, b.stack.len() as int);
    if k < 0 {
        b
    } else {
        match b.stack[k] {
            FrameV::Item { blocks, loose, .. } => BuilderV {
                stack: b.stack.update(k, FrameV::Item { task: Some(checked), blocks, loose }),
                ..b
            },
            _ => b,
        }
    }
}

/// The builder after some text: code and metadata take it as it is.
pub open spec fn with_text(b: BuilderV, t: Seq<char>) -> BuilderV {
    if b.stack.len() > 0 {
        match b.stack.last() {
            FrameV::CodeBlock { language, code } => retopped(
                b,
                FrameV::CodeBlock { language, code: code + t },
            ),
            FrameV::Metadata(s) => retopped(b, FrameV::Metadata(s + t)),
            _ => with_inline(b, InlineV::Text(t)),
        }
    } else {
        with_inline(b, InlineV::Text(t))
    }
}

/// The builder after a line of raw HTML, which an open HTML block collects.
pub open spec fn with_html_line(b: BuilderV, h: Seq<char>) -> BuilderV {
    if b.stack.len() > 0 {
        match b.stack.last() {
            FrameV::HtmlBlock(raw) => retopped(b, FrameV::HtmlBlock(raw + h)),
            _ => with_html(b, h),
        }
    } else {
        with_html(b, h)
    }
}

/// The builder after one event.
///
/// Past the depth limit the document stops becoming a deeper tree and its contents
/// join the block already open; the ends of the starts that were not taken are
/// counted off, innermost first.
pub open spec fn after_event(b: BuilderV, e: EventV) -> BuilderV {
    match e {
        EventV::Start(tag) => if b.stack.len() >= MAX_DEPTH {
            BuilderV { suppressed: b.suppressed + 1, ..b }
        } else {
            started(b, tag)
        },
        EventV::End(tag) => if b.suppressed > 0 {
            BuilderV { suppressed: (b.suppressed - 1) as nat, ..b }
        } else {
            ended(b, tag)
        },
        EventV::Text(t) => with_text(b, t),
        EventV::Code(t) => with_inline(b, InlineV::Code(t)),
        EventV::InlineMath(t) => with_inline(b, InlineV::Math { text: t, display: false }),
        EventV::DisplayMath(t) => with_block(b, BlockV::DisplayMath(t)),
        EventV::SoftBreak => with_inline(b, InlineV::SoftBreak),
        EventV::HardBreak => with_inline(b, InlineV::HardBreak),
        EventV::Rule => with_block(b, BlockV::Rule),
        EventV::FootnoteReference(label) => with_inline(b, InlineV::FootnoteRef(label)),
        EventV::TaskListMarker(checked) => with_task(b, checked),
        EventV::Html(h) => with_html_line(b, h),
        EventV::InlineHtml(h) => {
            let pieces = html::simplified(h);
            with_inline_pieces(b, pieces, pieces.len() as int)
        },
    }
}

/// The builder after a run of events.
pub open spec fn after_events(b: BuilderV, events: Seq<EventV>) -> BuilderV
    decreases events.len(),
{
    if events.len() == 0 {
        b
    } else {
        after_event(after_events(b, events.drop_last()), events.last())
    }
}

// --- the end of the document ----------------------------------------------------

/// How far a stack is from being empty: closing a frame may open a paragraph for
/// what it held, which then closes for good.
pub open spec fn weight(stack: Seq<FrameV>) -> nat {
    if stack.len() > 0 && stack.last() is Paragraph {
        2 * stack.len()
    } else {
        2 * stack.len() + 1
    }
}

pub proof fn lemma_container(stack: Seq<FrameV>, n: int)
    requires
        0 <= n <= stack.len(),
    ensures
        -1 <= container(stack, n) < n,
        container(stack, n) >= 0 ==> frame_with_block(stack[container(stack, n)], BlockV::Rule)
            is Some,
    decreases n,
{
    if n > 0 && frame_with_block(stack[n - 1], BlockV::Rule) is None {
        lemma_container(stack, n - 1);
    }
}

pub proof fn lemma_placed_len(b: BuilderV, block: BlockV)
    ensures
        placed(b, block).stack.len() == b.stack.len(),
{
    lemma_container(b.stack, b.stack.len() as int);
}

pub proof fn lemma_closed_implicit_len(b: BuilderV)
    ensures
        closed_implicit(b).stack.len() <= b.stack.len(),
    decreases b.stack.len(),
{
    if b.stack.len() > 0 {
        let below = BuilderV { stack: b.stack.drop_last(), ..b };
        lemma_closed_implicit_len(below);
        match b.stack.last() {
            FrameV::Paragraph { inlines, .. } => match paragraph_of(inlines) {
                Some(block) => lemma_placed_len(closed_implicit(below), block),
                None => {},
            },
            _ => {},
        }
    }
}

pub proof fn lemma_with_block_len(b: BuilderV, block: BlockV)
    ensures
        with_block(b, block).stack.len() <= b.stack.len(),
{
    lemma_closed_implicit_len(b);
    lemma_placed_len(closed_implicit(b), block);
}

pub proof fn lemma_with_paragraph_len(b: BuilderV, inlines: Seq<InlineV>)
    ensures
        with_paragraph(b, inlines).stack.len() <= b.stack.len(),
{
    match paragraph_of(inlines) {
        Some(block) => lemma_with_block_len(b, block),
        None => {},
    }
}

pub proof fn lemma_with_pieces_len(
    b: BuilderV,
    pieces: Seq<PieceV>,
    k: int,
    inlines: Seq<InlineV>,
)
    ensures
        with_pieces(b, pieces, k, inlines).stack.len() <= b.stack.len(),
    decreases pieces.len() - k,
{
    if k < 0 || k >= pieces.len() {
        lemma_with_paragraph_len(b, inlines);
    } else {
        match pieces[k] {
            PieceV::Text(t) => lemma_with_pieces_len(
                b,
                pieces,
                k + 1,
                inlines.push(InlineV::Text(t)),
            ),
            PieceV::Summary(t) => lemma_with_pieces_len(
                b,
                pieces,
                k + 1,
                inlines.push(InlineV::Strong(seq![InlineV::Text(t)])),
            ),
            PieceV::Image(img) => {
                let c = with_paragraph(b, inlines);
                lemma_with_paragraph_len(b, inlines);
                lemma_with_paragraph_len(c, seq![InlineV::Image(img)]);
                lemma_with_pieces_len(
                    with_paragraph(c, seq![InlineV::Image(img)]),
                    pieces,
                    k + 1,
                    Seq::empty(),
                );
            },
            PieceV::Break => {
                lemma_with_paragraph_len(b, inlines);
                lemma_with_pieces_len(with_paragraph(b, inlines), pieces, k + 1, Seq::empty());
            },
        }
    }
}

/// Closing the top frame always brings the stack nearer to empty.
pub proof fn lemma_closed_top_weight(b: BuilderV)
    requires
        b.stack.len() > 0,
    ensures
        0 <= weight(closed_top(b).stack) < weight(b.stack),
{
    let below = BuilderV { stack: b.stack.drop_last(), ..b };
    match b.stack.last() {
        FrameV::Paragraph { inlines, .. } => lemma_with_paragraph_len(below, inlines),
        FrameV::Heading { level, id, inlines } => match id {
            Some(id) => lemma_with_block_len(
                below,
                BlockV::Heading { level, id, content: inlines },
            ),
            None => {
                let base = slug_base(plain(inlines));
                lemma_with_block_len(
                    BuilderV { seen: slug_seen(b.seen, base), ..below },
                    BlockV::Heading { level, id: slug_given(b.seen, base), content: inlines },
                );
            },
        },
        FrameV::BlockQuote { kind, blocks } => lemma_with_block_len(
            below,
            BlockV::BlockQuote { kind, blocks },
        ),
        FrameV::CodeBlock { language, code } => lemma_with_block_len(
            below,
            BlockV::CodeBlock {
                language,
                code: if code.len() > 0 && code.last() == '\n' {
                    code.drop_last()
                } else {
                    code
                },
            },
        ),
        FrameV::List { start, items, tight } => lemma_with_block_len(
            below,
            BlockV::List(ListV { start, tight, items }),
        ),
        FrameV::Table { alignments, head, rows, .. } => lemma_with_block_len(
            below,
            BlockV::Table(TableV { alignments, head, rows }),
        ),
        FrameV::DefinitionList { terms } => lemma_with_block_len(
            below,
            BlockV::DefinitionList(terms),
        ),
        FrameV::HtmlBlock(raw) => lemma_with_pieces_len(
            below,
            html::simplified(raw),
            0,
            Seq::empty(),
        ),
        _ => {},
    }
}

/// The builder with every open frame closed. Unbalanced input, such as a truncated
/// file, can leave frames open; closing them keeps their content.
pub open spec fn closed_all(b: BuilderV) -> BuilderV
    decreases weight(b.stack),
{
    if b.stack.len() == 0 {
        b
    } else {
        proof {
            lemma_closed_top_weight(b);
        }
        closed_all(closed_top(b))
    }
}

/// True of the characters that may quote a title.
pub open spec fn is_quote(c: char) -> bool {
    c == '"' || c == '\''
}

pub open spec fn unquoted_start(s: Seq<char>) -> Seq<char>
    decreases s.len(),
{
    if s.len() > 0 && is_quote(s.first()) {
        unquoted_start(s.drop_first())
    } else {
        s
    }
}

pub open spec fn unquoted_end(s: Seq<char>) -> Seq<char>
    decreases s.len(),
{
    if s.len() > 0 && is_quote(s.last()) {
        unquoted_end(s.drop_last())
    } else {
        s
    }
}

/// The title that a line of front matter gives, if it gives one.
pub open spec fn line_title(line: Seq<char>) -> Option<Seq<char>> {
    if text::starts_with(line, "title:"@) {
        unless_empty(
            text::trim(
                unquoted_end(unquoted_start(text::trim(line.subrange(6, line.len() as int)))),
            ),
        )
    } else {
        None
    }
}

/// The first title in a run of lines.
pub open spec fn first_title(lines: Seq<Seq<char>>, k: int) -> Option<Seq<char>>
    decreases lines.len() - k,
{
    if k < 0 || k >= lines.len() {
        None
    } else {
        match line_title(lines[k]) {
            Some(t) => Some(t),
            None => first_title(lines, k + 1),
        }
    }
}

/// The text of the first level-1 heading from `k` on.
pub open spec fn h1_from(blocks: Seq<BlockV>, k: int) -> Option<Seq<char>>
    decreases blocks.len() - k,
{
    if k < 0 || k >= blocks.len() {
        None
    } else {
        match blocks[k] {
            BlockV::Heading { level, content, .. } => if level == 1 {
                Some(plain(content))
            } else {
                h1_from(blocks, k + 1)
            },
            _ => h1_from(blocks, k + 1),
        }
    }
}

/// The document's title: from the front matter, or else from its first heading.
pub open spec fn title_of(front_matter: Option<Seq<char>>, blocks: Seq<BlockV>) -> Option<
    Seq<char>,
> {
    let given = match front_matter {
        Some(fm) => first_title(text::lines(fm), 0),
        None => None,
    };
    match given {
        Some(t) => Some(t),
        None => h1_from(blocks, 0),
    }
}

/// The document that a run of events makes.
pub open spec fn document_of(events: Seq<EventV>) -> DocumentV {
    let b = closed_all(after_events(fresh(), events));
    DocumentV {
        blocks: b.blocks,
        footnotes: b.footnotes,
        title: title_of(b.front_matter, b.blocks),
        front_matter: b.front_matter,
    }
}

// --- the builder ------------------------------------------------------------------

/// A half-built node on the stack.
enum Frame {
    Paragraph { inlines: Vec<Inline>, implicit: bool },
    Heading { level: u8, id: Option<String>, inlines: Vec<Inline> },
    BlockQuote { kind: Option<AlertKind>, blocks: Vec<Block> },
    CodeBlock { language: Option<String>, code: String },
    List { start: Option<u64>, items: Vec<ListItem>, tight: bool },
    /// `loose` records whether a real paragraph was opened directly inside this
    /// item, which is exactly the signal that the source had a blank line --
    /// implicit paragraphs must not be mistaken for it.
    Item { task: Option<bool>, blocks: Vec<Block>, loose: bool },
    Table {
        alignments: Vec<Alignment>,
        head: Vec<Vec<Inline>>,
        rows: Vec<Vec<Vec<Inline>>>,
        in_head: bool,
    },
    TableRow { cells: Vec<Vec<Inline>> },
    TableCell { inlines: Vec<Inline> },
    Emphasis(Vec<Inline>),
    Strong(Vec<Inline>),
    Strike(Vec<Inline>),
    Superscript(Vec<Inline>),
    Subscript(Vec<Inline>),
    Link { dest: String, title: Option<String>, content: Vec<Inline> },
    Image { dest: String, title: Option<String>, alt: Vec<Inline> },
    FootnoteDefinition { label: String, blocks: Vec<Block> },
    DefinitionList { terms: Vec<(Vec<Inline>, Vec<Vec<Block>>)> },
    DefinitionTitle(Vec<Inline>),
    DefinitionBody(Vec<Block>),
    /// Raw HTML accumulated across the events of one block.
    HtmlBlock(String),
    Metadata(String),
}

spec fn frame_view(f: Frame) -> FrameV {
    match f {
        Frame::Paragraph { inlines, implicit } => FrameV::Paragraph {
            inlines: inlines_view(inlines),
            implicit,
        },
        Frame::Heading { level, id, inlines } => FrameV::Heading {
            level,
            id: opt_text(id),
            inlines: inlines_view(inlines),
        },
        Frame::BlockQuote { kind, blocks } => FrameV::BlockQuote {
            kind,
            blocks: blocks_view(blocks),
        },
        Frame::CodeBlock { language, code } => FrameV::CodeBlock {
            language: opt_text(language),
            code: code@,
        },
        Frame::List { start, items, tight } => FrameV::List {
            start,
            items: items_view(items),
            tight,
        },
        Frame::Item { task, blocks, loose } => FrameV::Item {
            task,
            blocks: blocks_view(blocks),
            loose,
        },
        Frame::Table { alignments, head, rows, in_head } => FrameV::Table {
            alignments: alignments@,
            head: cells_view(head),
            rows: rows_view(rows),
            in_head,
        },
        Frame::TableRow { cells } => FrameV::TableRow { cells: cells_view(cells) },
        Frame::TableCell { inlines } => FrameV::TableCell { inlines: inlines_view(inlines) },
        Frame::Emphasis(c) => FrameV::Emphasis(inlines_view(c)),
        Frame::Strong(c) => FrameV::Strong(inlines_view(c)),
        Frame::Strike(c) => FrameV::Strike(inlines_view(c)),
        Frame::Superscript(c) => FrameV::Superscript(inlines_view(c)),
        Frame::Subscript(c) => FrameV::Subscript(inlines_view(c)),
        Frame::Link { dest, title, content } => FrameV::Link {
            dest: dest@,
            title: opt_text(title),
            content: inlines_view(content),
        },
        Frame::Image { dest, title, alt } => FrameV::Image {
            dest: dest@,
            title: opt_text(title),
            alt: inlines_view(alt),
        },
        Frame::FootnoteDefinition { label, blocks } => FrameV::FootnoteDefinition {
            label: label@,
            blocks: blocks_view(blocks),
        },
        Frame::DefinitionList { terms } => FrameV::DefinitionList {
            terms: definitions_view(terms),
        },
        Frame::DefinitionTitle(c) => FrameV::DefinitionTitle(inlines_view(c)),
        Frame::DefinitionBody(blocks) => FrameV::DefinitionBody(blocks_view(blocks)),
        Frame::HtmlBlock(raw) => FrameV::HtmlBlock(raw@),
        Frame::Metadata(t) => FrameV::Metadata(t@),
    }
}

spec fn frames_view(v: Seq<Frame>) -> Seq<FrameV> {
    Seq::new(v.len(), |k: int| frame_view(v[k]))
}

/// Adds an inline to a run of them.
fn add_inline(v: &mut Vec<Inline>, i: Inline)
    ensures
        inlines_view(*final(v)) == inlines_view(*old(v)).push(inline_view(i)),
{
    v.push(i);
    assert(inlines_view(*v) =~= inlines_view(*old(v)).push(inline_view(i)));
}

/// Adds a block to a run of them.
fn add_block(v: &mut Vec<Block>, b: Block)
    ensures
        blocks_view(*final(v)) == blocks_view(*old(v)).push(block_view(b)),
{
    v.push(b);
    assert(blocks_view(*v) =~= blocks_view(*old(v)).push(block_view(b)));
}

fn no_inlines() -> (r: Vec<Inline>)
    ensures
        inlines_view(r) == Seq::<InlineV>::empty(),
{
    let r: Vec<Inline> = Vec::new();
    assert(inlines_view(r) =~= Seq::<InlineV>::empty());
    r
}

fn no_blocks() -> (r: Vec<Block>)
    ensures
        blocks_view(r) == Seq::<BlockV>::empty(),
{
    let r: Vec<Block> = Vec::new();
    assert(blocks_view(r) =~= Seq::<BlockV>::empty());
    r
}

fn one_inline(i: Inline) -> (r: Vec<Inline>)
    ensures
        inlines_view(r) == seq![inline_view(i)],
{
    let mut r = no_inlines();
    add_inline(&mut r, i);
    assert(inlines_view(r) =~= seq![inline_view(i)]);
    r
}

/// Adds an inline to a frame that takes inlines; hands it back otherwise.
fn give_inline(f: &mut Frame, i: Inline) -> (r: Option<Inline>)
    ensures
        match frame_with_inline(frame_view(*old(f)), inline_view(i)) {
            Some(g) => r is None && frame_view(*final(f)) == g,
            None => r == Some(i) && *final(f) == *old(f),
        },
{
    match f {
        Frame::Paragraph { inlines, .. } => add_inline(inlines, i),
        Frame::Heading { inlines, .. } => add_inline(inlines, i),
        Frame::TableCell { inlines } => add_inline(inlines, i),
        Frame::Emphasis(c) => add_inline(c, i),
        Frame::Strong(c) => add_inline(c, i),
        Frame::Strike(c) => add_inline(c, i),
        Frame::Superscript(c) => add_inline(c, i),
        Frame::Subscript(c) => add_inline(c, i),
        Frame::DefinitionTitle(c) => add_inline(c, i),
        Frame::Link { content, .. } => add_inline(content, i),
        Frame::Image { alt, .. } => add_inline(alt, i),
        _ => {
            return Some(i);
        },
    }
    None
}

/// Adds a block to a frame that holds blocks; hands it back otherwise.
fn give_block(f: &mut Frame, block: Block) -> (r: Option<Block>)
    ensures
        match frame_with_block(frame_view(*old(f)), block_view(block)) {
            Some(g) => r is None && frame_view(*final(f)) == g,
            None => r == Some(block) && *final(f) == *old(f),
        },
{
    match f {
        Frame::Item { blocks, .. } => add_block(blocks, block),
        Frame::BlockQuote { blocks, .. } => add_block(blocks, block),
        Frame::FootnoteDefinition { blocks, .. } => add_block(blocks, block),
        Frame::DefinitionBody(blocks) => add_block(blocks, block),
        _ => {
            return Some(block);
        },
    }
    None
}

struct Builder {
    stack: Vec<Frame>,
    suppressed: usize,
    blocks: Vec<Block>,
    footnotes: Vec<(String, Vec<Block>)>,
    slugger: Slugger,
    front_matter: Option<String>,
}

impl Builder {
    spec fn value(self) -> BuilderV {
        BuilderV {
            stack: frames_view(self.stack@),
            suppressed: self.suppressed as nat,
            blocks: blocks_view(self.blocks),
            footnotes: footnotes_view(self.footnotes),
            seen: self.slugger@,
            front_matter: opt_text(self.front_matter),
        }
    }

    fn new() -> (r: Builder)
        ensures
            r.value() == fresh(),
    {
        let r = Builder {
            stack: Vec::new(),
            suppressed: 0,
            blocks: Vec::new(),
            footnotes: Vec::new(),
            slugger: Slugger::new(),
            front_matter: None,
        };
        assert(frames_view(r.stack@) =~= Seq::empty());
        assert(blocks_view(r.blocks) =~= Seq::empty());
        assert(footnotes_view(r.footnotes) =~= Seq::empty());
        r
    }

    fn open(&mut self, f: Frame)
        ensures
            final(self).value() == opened(old(self).value(), frame_view(f)),
            final(self).suppressed == old(self).suppressed,
    {
        self.stack.push(f);
        assert(frames_view(self.stack@) =~= frames_view(old(self).stack@).push(frame_view(f)));
    }

    /// Adds an inline to the nearest frame that accepts one, opening an implicit
    /// paragraph if the nearest frame is a block container.
    fn push_inline(&mut self, inline: Inline)
        ensures
            final(self).value() == with_inline(old(self).value(), inline_view(inline)),
            final(self).suppressed == old(self).suppressed,
    {
        let n: usize = self.stack.len();
        let ghost before = self.stack@;
        let ghost v = frames_view(before);
        if n > 0 {
            let top = n - 1;
            assert(v.last() == frame_view(before[n - 1]));
            match give_inline(&mut self.stack[top], inline) {
                None => {
                    assert(frames_view(self.stack@) =~= v.drop_last().push(
                        frame_view(self.stack@[n - 1]),
                    ));
                },
                Some(back) => {
                    assert(self.stack@ =~= before);
                    self.open(
                        Frame::Paragraph { inlines: one_inline(back), implicit: true },
                    );
                },
            }
        } else {
            self.open(Frame::Paragraph { inlines: one_inline(inline), implicit: true });
        }
    }

    /// Adds a block to the nearest container, without closing anything.
    fn place(&mut self, block: Block)
        ensures
            final(self).value() == placed(old(self).value(), block_view(block)),
            final(self).suppressed == old(self).suppressed,
    {
        let mut k: usize = self.stack.len();
        let mut pending: Block = block;
        let ghost v = frames_view(self.stack@);
        let ghost n = self.stack@.len() as int;
        while k > 0
            invariant
                self.value() == old(self).value(),
                self.suppressed == old(self).suppressed,
                pending == block,
                v == frames_view(self.stack@),
                n == self.stack.len(),
                k <= n,
                container(v, k as int) == container(v, n),
            decreases k,
        {
            let at = k - 1;
            let ghost before = self.stack@;
            assert(v[at as int] == frame_view(before[at as int]));
            match give_block(&mut self.stack[at], pending) {
                None => {
                    proof {
                        lemma_frame_with_block(v[at as int], block_view(block));
                    }
                    assert(frames_view(self.stack@) =~= v.update(
                        at as int,
                        frame_view(self.stack@[at as int]),
                    ));
                    return;
                },
                Some(back) => {
                    proof {
                        lemma_frame_with_block(v[at as int], block_view(block));
                    }
                    assert(self.stack@ =~= before);
                    pending = back;
                },
            }
            k = at;
        }
        add_block(&mut self.blocks, pending);
    }

    /// Closes a paragraph that was opened implicitly for a tight list item.
    fn close_implicit(&mut self)
        ensures
            final(self).value() == closed_implicit(old(self).value()),
            final(self).suppressed == old(self).suppressed,
        decreases old(self).stack.len(),
    {
        let n: usize = self.stack.len();
        let ghost v = frames_view(self.stack@);
        if n == 0 {
            return;
        }
        assert(v.last() == frame_view(self.stack@[n - 1]));
        let implicit = match &self.stack[n - 1] {
            Frame::Paragraph { implicit, .. } => *implicit,
            _ => false,
        };
        if implicit {
            let frame = self.stack.pop();
            assert(frames_view(self.stack@) =~= v.drop_last());
            match frame {
                Some(Frame::Paragraph { inlines, .. }) => {
                    match paragraph_block(inlines) {
                        Some(block) => {
                            self.close_implicit();
                            self.place(block);
                        },
                        None => {},
                    }
                },
                _ => {},
            }
        }
    }

    /// Adds a finished block to the nearest block container.
    fn push_block(&mut self, block: Block)
        ensures
            final(self).value() == with_block(old(self).value(), block_view(block)),
            final(self).suppressed == old(self).suppressed,
    {
        self.close_implicit();
        self.place(block);
    }

    fn push_paragraph(&mut self, inlines: Vec<Inline>)
        ensures
            final(self).value() == with_paragraph(old(self).value(), inlines_view(inlines)),
            final(self).suppressed == old(self).suppressed,
    {
        match paragraph_block(inlines) {
            Some(block) => self.push_block(block),
            None => {},
        }
    }
}

/// Whether a frame holds blocks does not depend on the block.
proof fn lemma_frame_with_block(f: FrameV, block: BlockV)
    ensures
        frame_with_block(f, block) is Some <==> frame_with_block(f, BlockV::Rule) is Some,
{
}

pub fn is_blank(i: &Inline) -> (r: bool)
    ensures
        r == blank(inline_view(*i)),
{
    match i {
        Inline::Text(t) => text::is_all_space(t),
        Inline::SoftBreak | Inline::HardBreak => true,
        _ => false,
    }
}

fn clone_image(i: &Inline) -> (r: Option<ImageRef>)
    ensures
        match (r, inline_view(*i)) {
            (Some(img), InlineV::Image(v)) => img@ == v,
            (None, InlineV::Image(_)) => false,
            (Some(_), _) => false,
            (None, _) => true,
        },
{
    match i {
        Inline::Image(img) => Some(img.clone()),
        _ => None,
    }
}

/// Builds a paragraph, promoting an image-only paragraph to a figure.
///
/// Authors write `![alt](x.png)` on a line of its own to mean "show this picture",
/// not "here is a sentence containing a picture", and the distinction decides how
/// much room it is given.
pub fn paragraph_block(inlines: Vec<Inline>) -> (r: Option<Block>)
    ensures
        match r {
            Some(b) => paragraph_of(inlines_view(inlines)) == Some(block_view(b)),
            None => paragraph_of(inlines_view(inlines)) is None,
        },
{
    let n: usize = inlines.len();
    let ghost v = inlines_view(inlines);
    let ghost p = |i: InlineV| !blank(i);
    let mut shown: usize = 0;
    let mut first: usize = 0;
    assert(v.take(0) =~= Seq::empty());
    assert(v.take(0).filter(p) =~= Seq::empty()) by {
        reveal(Seq::filter);
    }
    for i in 0..n
        invariant
            n == inlines.len(),
            v == inlines_view(inlines),
            p == |i: InlineV| !blank(i),
            shown == v.take(i as int).filter(p).len(),
            shown <= i,
            shown > 0 ==> first < i && v.take(i as int).filter(p)[0] == v[first as int],
    {
        assert(v[i as int] == inline_view(inlines@[i as int]));
        assert(v.take(i + 1) =~= v.take(i as int).push(v[i as int]));
        proof {
            v.take(i as int).lemma_filter_push(v[i as int], p);
        }
        if !is_blank(&inlines[i]) {
            if shown == 0 {
                first = i;
            }
            shown = shown + 1;
        }
    }
    assert(v.take(n as int) =~= v);
    if shown == 0 {
        return None;
    }
    if shown == 1 {
        match clone_image(&inlines[first]) {
            Some(image) => {
                let caption = if image.alt.as_str().is_empty() {
                    no_inlines()
                } else {
                    one_inline(Inline::Text(image.alt.clone()))
                };
                return Some(Block::Figure { image, caption });
            },
            None => {},
        }
    }
    Some(Block::Paragraph(inlines))
}

fn non_empty(s: String) -> (r: Option<String>)
    ensures
        opt_text(r) == unless_empty(s@),
{
    if s.as_str().is_empty() {
        None
    } else {
        Some(s)
    }
}

fn language(info: Option<String>) -> (r: Option<String>)
    ensures
        opt_text(r) == language_of(opt_text(info)),
{
    match info {
        None => None,
        Some(info) => {
            let v = text::chars_of(&info);
            let mut i: usize = 0;
            while i < v.len() && v[i] != ',' && v[i] != ' ' && v[i] != '\t' && v[i] != '{'
                invariant
                    i <= v.len(),
                    language_end(v@, i as int) == language_end(v@, 0),
                decreases v.len() - i,
            {
                i = i + 1;
            }
            let word = text::string_of_range(&v, 0, i);
            non_empty(text::trimmed(&word))
        },
    }
}

impl Builder {
    /// Turns a raw HTML block into whatever can actually be drawn.
    fn html_block(&mut self, raw: &str)
        ensures
            final(self).value() == with_html(old(self).value(), raw@),
            final(self).suppressed == old(self).suppressed,
    {
        let mut pieces = html::simplify(raw);
        let ghost all = html::pieces_view(pieces@);
        let mut inlines = no_inlines();
        let ghost n = all.len() as int;
        let mut k: usize = 0;
        let len: usize = pieces.len();
        while k < len
            invariant
                self.suppressed == old(self).suppressed,
                len == pieces.len(),
                k <= len,
                all == html::pieces_view(pieces@),
                with_pieces(self.value(), all, k as int, inlines_view(inlines)) == with_pieces(
                    old(self).value(),
                    all,
                    0,
                    Seq::empty(),
                ),
            decreases len - k,
        {
            assert(all[k as int] == pieces@[k as int]@);
            match &pieces[k] {
                HtmlPiece::Text(t) => {
                    add_inline(&mut inlines, Inline::Text(t.clone()));
                },
                HtmlPiece::Summary(t) => {
                    add_inline(
                        &mut inlines,
                        Inline::Strong(one_inline(Inline::Text(t.clone()))),
                    );
                },
                HtmlPiece::Image(img) => {
                    // Each picture becomes its own figure. A terminal cannot put two
                    // images side by side on one row anyway, and a row of badges reads
                    // better stacked than merged into a sentence.
                    self.push_paragraph(inlines);
                    self.push_paragraph(one_inline(Inline::Image(img.clone())));
                    inlines = no_inlines();
                },
                HtmlPiece::Break => {
                    // Each break starts a fresh paragraph so banner-style HTML does
                    // not run together.
                    self.push_paragraph(inlines);
                    inlines = no_inlines();
                },
            }
            k = k + 1;
        }
        self.push_paragraph(inlines);
    }

    fn inline_html(&mut self, raw: &str)
        ensures
            final(self).value() == with_inline_pieces(
                old(self).value(),
                html::simplified(raw@),
                html::simplified(raw@).len() as int,
            ),
            final(self).suppressed == old(self).suppressed,
    {
        let pieces = html::simplify(raw);
        let ghost all = html::pieces_view(pieces@);
        let n: usize = pieces.len();
        for k in 0..n
            invariant
                self.suppressed == old(self).suppressed,
                n == pieces.len(),
                all == html::pieces_view(pieces@),
                self.value() == with_inline_pieces(old(self).value(), all, k as int),
        {
            assert(all[k as int] == pieces@[k as int]@);
            let inline = match &pieces[k] {
                HtmlPiece::Text(t) | HtmlPiece::Summary(t) => Inline::Text(t.clone()),
                HtmlPiece::Image(img) => Inline::Image(img.clone()),
                HtmlPiece::Break => Inline::HardBreak,
            };
            self.push_inline(inline);
        }
    }

    /// Pops the top frame and folds it into its parent.
    fn close_top(&mut self)
        ensures
            final(self).value() == closed_top(old(self).value()),
            final(self).suppressed == old(self).suppressed,
    {
        let ghost v = frames_view(self.stack@);
        let n: usize = self.stack.len();
        let frame = match self.stack.pop() {
            Some(frame) => frame,
            None => {
                assert(frames_view(self.stack@) =~= v);
                return;
            },
        };
        let ghost below = self.value();
        assert(frames_view(self.stack@) =~= v.drop_last());
        assert(v.last() == frame_view(frame));
        assert(below == (BuilderV { stack: v.drop_last(), ..old(self).value() }));
        match frame {
            Frame::Paragraph { inlines, .. } => self.push_paragraph(inlines),
            Frame::Heading { level, id, inlines } => {
                let id = match id {
                    Some(id) => id,
                    None => {
                        let name = plain_text(&inlines);
                        self.slugger.slug(&name)
                    },
                };
                self.push_block(Block::Heading { level, id, content: inlines });
            },
            Frame::BlockQuote { kind, blocks } => {
                self.push_block(Block::BlockQuote { kind, blocks });
            },
            Frame::CodeBlock { language, code } => {
                self.push_block(Block::CodeBlock { language, code: without_newline(code) });
            },
            Frame::List { start, items, tight } => {
                self.push_block(Block::List(List { start, tight, items }));
            },
            Frame::Item { task, blocks, loose } => self.close_item(task, blocks, loose),
            Frame::Table { alignments, head, rows, .. } => {
                self.push_block(Block::Table(Table { alignments, head, rows }));
            },
            Frame::TableRow { cells } => self.close_row(cells),
            Frame::TableCell { inlines } => self.close_cell(inlines),
            Frame::Emphasis(c) => self.push_inline(Inline::Emph(c)),
            Frame::Strong(c) => self.push_inline(Inline::Strong(c)),
            Frame::Strike(c) => self.push_inline(Inline::Strike(c)),
            Frame::Superscript(c) => self.push_inline(Inline::Superscript(c)),
            Frame::Subscript(c) => self.push_inline(Inline::Subscript(c)),
            Frame::Link { dest, title, content } => {
                self.push_inline(Inline::Link { dest, title, content });
            },
            Frame::Image { dest, title, alt } => {
                let alt = plain_text(&alt);
                self.push_inline(Inline::Image(ImageRef { url: dest, alt, title }));
            },
            Frame::FootnoteDefinition { label, blocks } => {
                let ghost notes = footnotes_view(self.footnotes);
                let ghost one = (label@, blocks_view(blocks));
                self.footnotes.push((label, blocks));
                assert(footnotes_view(self.footnotes) =~= notes.push(one));
            },
            Frame::DefinitionList { terms } => self.push_block(Block::DefinitionList(terms)),
            Frame::DefinitionTitle(inlines) => self.close_title(inlines),
            Frame::DefinitionBody(blocks) => self.close_body(blocks),
            Frame::HtmlBlock(raw) => self.html_block(&raw),
            Frame::Metadata(t) => {
                self.front_matter = Some(t);
            },
        }
    }

    fn close_item(&mut self, task: Option<bool>, blocks: Vec<Block>, loose: bool)
        ensures
            final(self).value() == (if old(self).value().stack.len() > 0 {
                match old(self).value().stack.last() {
                    FrameV::List { start, items, tight } => retopped(
                        old(self).value(),
                        FrameV::List {
                            start,
                            items: items.push(ListItemV { task, blocks: blocks_view(blocks) }),
                            tight: tight && !loose,
                        },
                    ),
                    _ => old(self).value(),
                }
            } else {
                old(self).value()
            }),
            final(self).suppressed == old(self).suppressed,
    {
        let n: usize = self.stack.len();
        let ghost before = self.stack@;
        let ghost v = frames_view(before);
        if n > 0 {
            assert(v.last() == frame_view(before[n - 1]));
            match &mut self.stack[n - 1] {
                Frame::List { items, tight, .. } => {
                    let ghost all = items_view(*items);
                    let ghost one = ListItemV { task, blocks: blocks_view(blocks) };
                    if loose {
                        *tight = false;
                    }
                    items.push(ListItem { task, blocks });
                    assert(items_view(*items) =~= all.push(one));
                },
                _ => {},
            }
            assert(frames_view(self.stack@) =~= v.drop_last().push(frame_view(self.stack@[n - 1])));
            assert(v =~= v.drop_last().push(v.last()));
        }
    }

    fn close_row(&mut self, cells: Vec<Vec<Inline>>)
        ensures
            final(self).value() == (if old(self).value().stack.len() > 0 {
                match old(self).value().stack.last() {
                    FrameV::Table { alignments, head, rows, in_head } => retopped(
                        old(self).value(),
                        if in_head {
                            FrameV::Table {
                                alignments,
                                head: cells_view(cells),
                                rows,
                                in_head: false,
                            }
                        } else {
                            FrameV::Table {
                                alignments,
                                head,
                                rows: rows.push(cells_view(cells)),
                                in_head,
                            }
                        },
                    ),
                    _ => old(self).value(),
                }
            } else {
                old(self).value()
            }),
            final(self).suppressed == old(self).suppressed,
    {
        let n: usize = self.stack.len();
        let ghost before = self.stack@;
        let ghost v = frames_view(before);
        if n > 0 {
            assert(v.last() == frame_view(before[n - 1]));
            match &mut self.stack[n - 1] {
                Frame::Table { head, rows, in_head, .. } => {
                    if *in_head {
                        *head = cells;
                        *in_head = false;
                    } else {
                        let ghost all = rows_view(*rows);
                        let ghost one = cells_view(cells);
                        rows.push(cells);
                        assert(rows_view(*rows) =~= all.push(one));
                    }
                },
                _ => {},
            }
            assert(frames_view(self.stack@) =~= v.drop_last().push(frame_view(self.stack@[n - 1])));
            assert(v =~= v.drop_last().push(v.last()));
        }
    }

    fn close_cell(&mut self, inlines: Vec<Inline>)
        ensures
            final(self).value() == (if old(self).value().stack.len() > 0 {
                match old(self).value().stack.last() {
                    FrameV::TableRow { cells } => retopped(
                        old(self).value(),
                        FrameV::TableRow { cells: cells.push(inlines_view(inlines)) },
                    ),
                    _ => old(self).value(),
                }
            } else {
                old(self).value()
            }),
            final(self).suppressed == old(self).suppressed,
    {
        let n: usize = self.stack.len();
        let ghost before = self.stack@;
        let ghost v = frames_view(before);
        if n > 0 {
            assert(v.last() == frame_view(before[n - 1]));
            match &mut self.stack[n - 1] {
                Frame::TableRow { cells } => {
                    let ghost all = cells_view(*cells);
                    let ghost one = inlines_view(inlines);
                    cells.push(inlines);
                    assert(cells_view(*cells) =~= all.push(one));
                },
                _ => {},
            }
            assert(frames_view(self.stack@) =~= v.drop_last().push(frame_view(self.stack@[n - 1])));
            assert(v =~= v.drop_last().push(v.last()));
        }
    }

    fn close_title(&mut self, inlines: Vec<Inline>)
        ensures
            final(self).value() == (if old(self).value().stack.len() > 0 {
                match old(self).value().stack.last() {
                    FrameV::DefinitionList { terms } => retopped(
                        old(self).value(),
                        FrameV::DefinitionList {
                            terms: terms.push((inlines_view(inlines), Seq::empty())),
                        },
                    ),
                    _ => old(self).value(),
                }
            } else {
                old(self).value()
            }),
            final(self).suppressed == old(self).suppressed,
    {
        let n: usize = self.stack.len();
        let ghost before = self.stack@;
        let ghost v = frames_view(before);
        if n > 0 {
            assert(v.last() == frame_view(before[n - 1]));
            match &mut self.stack[n - 1] {
                Frame::DefinitionList { terms } => {
                    let ghost all = definitions_view(*terms);
                    let ghost one = (inlines_view(inlines), Seq::<Seq<BlockV>>::empty());
                    let bodies: Vec<Vec<Block>> = Vec::new();
                    assert(bodies_view(bodies) =~= Seq::<Seq<BlockV>>::empty());
                    terms.push((inlines, bodies));
                    assert(definitions_view(*terms) =~= all.push(one));
                },
                _ => {},
            }
            assert(frames_view(self.stack@) =~= v.drop_last().push(frame_view(self.stack@[n - 1])));
            assert(v =~= v.drop_last().push(v.last()));
        }
    }

    fn close_body(&mut self, blocks: Vec<Block>)
        ensures
            final(self).value() == (if old(self).value().stack.len() > 0 {
                match old(self).value().stack.last() {
                    FrameV::DefinitionList { terms } => if terms.len() > 0 {
                        retopped(
                            old(self).value(),
                            FrameV::DefinitionList {
                                terms: terms.drop_last().push(
                                    (terms.last().0, terms.last().1.push(blocks_view(blocks))),
                                ),
                            },
                        )
                    } else {
                        old(self).value()
                    },
                    _ => old(self).value(),
                }
            } else {
                old(self).value()
            }),
            final(self).suppressed == old(self).suppressed,
    {
        let n: usize = self.stack.len();
        let ghost before = self.stack@;
        let ghost v = frames_view(before);
        if n > 0 {
            assert(v.last() == frame_view(before[n - 1]));
            match &mut self.stack[n - 1] {
                Frame::DefinitionList { terms } => {
                    let m: usize = terms.len();
                    if m > 0 {
                        let ghost all = definitions_view(*terms);
                        let ghost one = blocks_view(blocks);
                        let ghost old_bodies = bodies_view(terms@[m - 1].1);
                        assert(all.last() == definition_view(terms@[m - 1]));
                        terms[m - 1].1.push(blocks);
                        assert(bodies_view(terms@[m - 1].1) =~= old_bodies.push(one));
                        assert(definitions_view(*terms) =~= all.drop_last().push(
                            (all.last().0, all.last().1.push(one)),
                        ));
                    }
                },
                _ => {},
            }
            assert(frames_view(self.stack@) =~= v.drop_last().push(frame_view(self.stack@[n - 1])));
            assert(v =~= v.drop_last().push(v.last()));
        }
    }
}

/// A code block without the newline that ends it.
fn without_newline(code: String) -> (r: String)
    ensures
        r@ == (if code@.len() > 0 && code@.last() == '\n' {
            code@.drop_last()
        } else {
            code@
        }),
{
    let v = text::chars_of(&code);
    let n: usize = v.len();
    if n > 0 && v[n - 1] == '\n' {
        let r = text::string_of_range(&v, 0, n - 1);
        assert(r@ =~= code@.drop_last());
        r
    } else {
        code
    }
}

impl Builder {
    /// Marks the item on top as loose, if an item is on top.
    fn loosen(&mut self)
        ensures
            final(self).value() == (if old(self).value().stack.len() > 0 {
                match old(self).value().stack.last() {
                    FrameV::Item { task, blocks, .. } => retopped(
                        old(self).value(),
                        FrameV::Item { task, blocks, loose: true },
                    ),
                    _ => old(self).value(),
                }
            } else {
                old(self).value()
            }),
            final(self).suppressed == old(self).suppressed,
    {
        let n: usize = self.stack.len();
        let ghost v = frames_view(self.stack@);
        if n > 0 {
            assert(v.last() == frame_view(self.stack@[n - 1]));
            match &mut self.stack[n - 1] {
                Frame::Item { loose, .. } => {
                    *loose = true;
                },
                _ => {},
            }
            assert(frames_view(self.stack@) =~= v.drop_last().push(frame_view(self.stack@[n - 1])));
            assert(v =~= v.drop_last().push(v.last()));
        }
    }

    /// Tells the table on top that its head comes next, if a table is on top.
    fn expect_head(&mut self)
        ensures
            final(self).value() == (if old(self).value().stack.len() > 0 {
                match old(self).value().stack.last() {
                    FrameV::Table { alignments, head, rows, .. } => retopped(
                        old(self).value(),
                        FrameV::Table { alignments, head, rows, in_head: true },
                    ),
                    _ => old(self).value(),
                }
            } else {
                old(self).value()
            }),
            final(self).suppressed == old(self).suppressed,
    {
        let n: usize = self.stack.len();
        let ghost v = frames_view(self.stack@);
        if n > 0 {
            assert(v.last() == frame_view(self.stack@[n - 1]));
            match &mut self.stack[n - 1] {
                Frame::Table { in_head, .. } => {
                    *in_head = true;
                },
                _ => {},
            }
            assert(frames_view(self.stack@) =~= v.drop_last().push(frame_view(self.stack@[n - 1])));
            assert(v =~= v.drop_last().push(v.last()));
        }
    }

    fn start(&mut self, tag: Tag)
        ensures
            final(self).value() == started(old(self).value(), tag@),
            final(self).suppressed == old(self).suppressed,
    {
        match tag {
            Tag::Paragraph => {
                self.close_implicit();
                self.loosen();
                self.open(Frame::Paragraph { inlines: no_inlines(), implicit: false });
            },
            Tag::Heading { level, id } => {
                self.close_implicit();
                self.open(Frame::Heading { level, id, inlines: no_inlines() });
            },
            Tag::BlockQuote(kind) => {
                self.close_implicit();
                self.open(Frame::BlockQuote { kind, blocks: no_blocks() });
            },
            Tag::CodeBlock(info) => {
                self.close_implicit();
                self.open(
                    Frame::CodeBlock { language: language(info), code: String::new() },
                );
            },
            Tag::List(start) => {
                self.close_implicit();
                let items: Vec<ListItem> = Vec::new();
                assert(items_view(items) =~= Seq::empty());
                self.open(Frame::List { start, items, tight: true });
            },
            Tag::Item => {
                self.open(Frame::Item { task: None, blocks: no_blocks(), loose: false });
            },
            Tag::Table(alignments) => {
                self.close_implicit();
                let head: Vec<Vec<Inline>> = Vec::new();
                let rows: Vec<Vec<Vec<Inline>>> = Vec::new();
                assert(cells_view(head) =~= Seq::empty());
                assert(rows_view(rows) =~= Seq::empty());
                self.open(Frame::Table { alignments, head, rows, in_head: false });
            },
            Tag::TableHead => {
                self.expect_head();
                self.open_row();
            },
            Tag::TableRow => self.open_row(),
            Tag::TableCell => self.open(Frame::TableCell { inlines: no_inlines() }),
            Tag::Emphasis => self.open(Frame::Emphasis(no_inlines())),
            Tag::Strong => self.open(Frame::Strong(no_inlines())),
            Tag::Strikethrough => self.open(Frame::Strike(no_inlines())),
            Tag::Superscript => self.open(Frame::Superscript(no_inlines())),
            Tag::Subscript => self.open(Frame::Subscript(no_inlines())),
            Tag::Link { dest, title } => {
                self.open(
                    Frame::Link { dest, title: non_empty(title), content: no_inlines() },
                );
            },
            Tag::Image { dest, title } => {
                self.open(Frame::Image { dest, title: non_empty(title), alt: no_inlines() });
            },
            Tag::FootnoteDefinition(label) => {
                self.close_implicit();
                self.open(Frame::FootnoteDefinition { label, blocks: no_blocks() });
            },
            Tag::DefinitionList => {
                self.close_implicit();
                let terms: Vec<(Vec<Inline>, Vec<Vec<Block>>)> = Vec::new();
                assert(definitions_view(terms) =~= Seq::empty());
                self.open(Frame::DefinitionList { terms });
            },
            Tag::DefinitionListTitle => self.open(Frame::DefinitionTitle(no_inlines())),
            Tag::DefinitionListDefinition => self.open(Frame::DefinitionBody(no_blocks())),
            Tag::HtmlBlock => {
                self.close_implicit();
                self.open(Frame::HtmlBlock(String::new()));
            },
            Tag::MetadataBlock => self.open(Frame::Metadata(String::new())),
        }
    }

    fn open_row(&mut self)
        ensures
            final(self).value() == opened(
                old(self).value(),
                FrameV::TableRow { cells: Seq::empty() },
            ),
            final(self).suppressed == old(self).suppressed,
    {
        let cells: Vec<Vec<Inline>> = Vec::new();
        assert(cells_view(cells) =~= Seq::empty());
        self.open(Frame::TableRow { cells });
    }

    fn end(&mut self, tag: TagEnd)
        ensures
            final(self).value() == ended(old(self).value(), tag),
            final(self).suppressed == old(self).suppressed,
    {
        match tag {
            TagEnd::Item
            | TagEnd::BlockQuote
            | TagEnd::FootnoteDefinition
            | TagEnd::DefinitionListDefinition
            | TagEnd::HtmlBlock => self.close_implicit(),
            _ => {},
        }
        self.close_top();
    }

    /// Adds text where code or metadata is being collected, and as an inline
    /// elsewhere.
    fn push_text(&mut self, t: String)
        ensures
            final(self).value() == with_text(old(self).value(), t@),
            final(self).suppressed == old(self).suppressed,
    {
        let n: usize = self.stack.len();
        let ghost v = frames_view(self.stack@);
        let mut taken: bool = false;
        if n > 0 {
            assert(v.last() == frame_view(self.stack@[n - 1]));
            match &mut self.stack[n - 1] {
                Frame::CodeBlock { code, .. } => {
                    code.push_str(&t);
                    taken = true;
                },
                Frame::Metadata(s) => {
                    s.push_str(&t);
                    taken = true;
                },
                _ => {},
            }
            assert(frames_view(self.stack@) =~= v.drop_last().push(frame_view(self.stack@[n - 1])));
            assert(v =~= v.drop_last().push(v.last()));
        }
        if !taken {
            self.push_inline(Inline::Text(t));
        }
    }

    /// Collects a line of an open HTML block, or draws what there is of it.
    ///
    /// An HTML block arrives as one event per line, so a tag written across lines
    /// would never be seen whole if each event were scanned on its own.
    fn push_html(&mut self, h: &str)
        ensures
            final(self).value() == with_html_line(old(self).value(), h@),
            final(self).suppressed == old(self).suppressed,
    {
        let n: usize = self.stack.len();
        let ghost v = frames_view(self.stack@);
        let mut taken: bool = false;
        if n > 0 {
            assert(v.last() == frame_view(self.stack@[n - 1]));
            match &mut self.stack[n - 1] {
                Frame::HtmlBlock(raw) => {
                    raw.push_str(h);
                    taken = true;
                },
                _ => {},
            }
            assert(frames_view(self.stack@) =~= v.drop_last().push(frame_view(self.stack@[n - 1])));
            assert(v =~= v.drop_last().push(v.last()));
        }
        if !taken {
            self.html_block(h);
        }
    }

    /// Marks the innermost item. The marker arrives just inside the item it belongs
    /// to, possibly after an implicit paragraph has been opened.
    fn mark_task(&mut self, checked: bool)
        ensures
            final(self).value() == with_task(old(self).value(), checked),
            final(self).suppressed == old(self).suppressed,
    {
        let mut k: usize = self.stack.len();
        let ghost v = frames_view(self.stack@);
        let ghost n = self.stack@.len() as int;
        while k > 0
            invariant
                self.value() == old(self).value(),
                self.suppressed == old(self).suppressed,
                v == frames_view(self.stack@),
                n == self.stack.len(),
                k <= n,
                item_frame(v, k as int) == item_frame(v, n),
            decreases k,
        {
            let at = k - 1;
            let ghost before = self.stack@;
            let mut found: bool = false;
            assert(v[at as int] == frame_view(before[at as int]));
            match &mut self.stack[at] {
                Frame::Item { task, .. } => {
                    *task = Some(checked);
                    found = true;
                },
                _ => {},
            }
            assert(frames_view(self.stack@) =~= v.update(
                at as int,
                frame_view(self.stack@[at as int]),
            ));
            if found {
                return;
            }
            assert(v.update(at as int, v[at as int]) =~= v);
            k = at;
        }
    }

    fn event(&mut self, event: Event)
        requires
            old(self).suppressed < usize::MAX,
        ensures
            final(self).value() == after_event(old(self).value(), event@),
            final(self).suppressed <= old(self).suppressed + 1,
    {
        match event {
            Event::Start(tag) => {
                if self.stack.len() >= MAX_DEPTH {
                    self.suppressed = self.suppressed + 1;
                } else {
                    self.start(tag);
                }
            },
            Event::End(tag) => {
                if self.suppressed > 0 {
                    self.suppressed = self.suppressed - 1;
                } else {
                    self.end(tag);
                }
            },
            Event::Text(t) => self.push_text(t),
            Event::Code(t) => self.push_inline(Inline::Code(t)),
            Event::InlineMath(t) => self.push_inline(Inline::Math { text: t, display: false }),
            Event::DisplayMath(t) => self.push_block(Block::DisplayMath(t)),
            Event::SoftBreak => self.push_inline(Inline::SoftBreak),
            Event::HardBreak => self.push_inline(Inline::HardBreak),
            Event::Rule => self.push_block(Block::Rule),
            Event::FootnoteReference(label) => self.push_inline(Inline::FootnoteRef(label)),
            Event::TaskListMarker(checked) => self.mark_task(checked),
            Event::Html(h) => self.push_html(&h),
            Event::InlineHtml(h) => self.inline_html(&h),
        }
    }
}

/// Pulls `title:` out of YAML front matter without a YAML parser.
pub fn front_matter_title(fm: &str) -> (r: Option<String>)
    ensures
        opt_text(r) == first_title(text::lines(fm@), 0),
{
    let all = text::lines_of(fm);
    let ghost v = text::views(all@);
    let mut k: usize = 0;
    while k < all.len()
        invariant
            k <= all.len(),
            v == text::views(all@),
            v == text::lines(fm@),
            first_title(v, k as int) == first_title(v, 0),
        decreases all.len() - k,
    {
        assert(v[k as int] == all@[k as int]@);
        match title_in(&all[k]) {
            Some(t) => {
                return Some(t);
            },
            None => {},
        }
        k = k + 1;
    }
    None
}

fn title_in(line: &str) -> (r: Option<String>)
    ensures
        opt_text(r) == line_title(line@),
{
    proof {
        reveal_strlit("title:");
    }
    if !text::has_prefix(line, "title:") {
        return None;
    }
    let v = text::chars_of(line);
    let n: usize = v.len();
    let mut a = text::trim_start_at(&v, 6, n);
    let mut b = text::trim_end_at(&v, a, n);
    let ghost t = v@.subrange(a as int, b as int);
    let end: usize = b;
    while a < end && (v[a] == '"' || v[a] == '\'')
        invariant
            a <= end <= v.len(),
            unquoted_start(v@.subrange(a as int, end as int)) == unquoted_start(t),
        decreases end - a,
    {
        assert(v@.subrange(a as int, end as int).drop_first() =~= v@.subrange(a + 1, end as int));
        a = a + 1;
    }
    let ghost u = v@.subrange(a as int, end as int);
    while b > a && (v[b - 1] == '"' || v[b - 1] == '\'')
        invariant
            a <= b <= end <= v.len(),
            unquoted_end(v@.subrange(a as int, b as int)) == unquoted_end(u),
        decreases b,
    {
        assert(v@.subrange(a as int, b as int).drop_last() =~= v@.subrange(a as int, b - 1));
        b = b - 1;
    }
    let inner = text::string_of_range(&v, a, b);
    non_empty(text::trimmed(&inner))
}

fn first_h1(blocks: &Vec<Block>) -> (r: Option<String>)
    ensures
        opt_text(r) == h1_from(blocks_view(*blocks), 0),
{
    let ghost v = blocks_view(*blocks);
    let mut k: usize = 0;
    while k < blocks.len()
        invariant
            k <= blocks.len(),
            v == blocks_view(*blocks),
            h1_from(v, k as int) == h1_from(v, 0),
        decreases blocks.len() - k,
    {
        assert(v[k as int] == block_view(blocks@[k as int]));
        match &blocks[k] {
            Block::Heading { level, content, .. } => {
                if *level == 1 {
                    return Some(plain_text(content));
                }
            },
            _ => {},
        }
        k = k + 1;
    }
    None
}

/// Folds a run of events into a document.
pub fn build(events: Vec<Event>) -> (r: Document)
    ensures
        r@ == document_of(events_view(events@)),
{
    let mut events = events;
    let ghost all = events_view(events@);
    let n: usize = events.len();
    let mut queue: Vec<Event> = Vec::new();
    // Reversed, so that taking them off the end gives them in order.
    while events.len() > 0
        invariant
            n == events.len() + queue.len(),
            n == all.len(),
            forall|k: int| 0 <= k < events.len() ==> #[trigger] events@[k]@ == all[k],
            forall|k: int| 0 <= k < queue.len() ==> #[trigger] queue@[k]@ == all[n - 1 - k],
        decreases events.len(),
    {
        match events.pop() {
            Some(e) => queue.push(e),
            None => {},
        }
    }
    let mut b = Builder::new();
    assert(all.take(0) =~= Seq::empty());
    let mut done: usize = 0;
    while queue.len() > 0
        invariant
            n == done + queue.len(),
            n == all.len(),
            forall|k: int| 0 <= k < queue.len() ==> #[trigger] queue@[k]@ == all[n - 1 - k],
            b.suppressed <= done,
            b.value() == after_events(fresh(), all.take(done as int)),
        decreases queue.len(),
    {
        match queue.pop() {
            Some(e) => {
                assert(e@ == all[done as int]);
                assert(all.take(done + 1).drop_last() =~= all.take(done as int));
                assert(all.take(done + 1).last() == all[done as int]);
                b.event(e);
                done = done + 1;
            },
            None => {},
        }
    }
    assert(all.take(n as int) =~= all);
    b.finish()
}

impl Builder {
    /// Closes what is still open and hands the document over.
    fn finish(self) -> (r: Document)
        ensures
            r@ == ({
                let b = closed_all(self.value());
                DocumentV {
                    blocks: b.blocks,
                    footnotes: b.footnotes,
                    title: title_of(b.front_matter, b.blocks),
                    front_matter: b.front_matter,
                }
            }),
    {
        let mut b = self;
        while b.stack.len() > 0
            invariant
                    closed_all(b.value()) == closed_all(self.value()),
            decreases weight(b.value().stack),
        {
            proof {
                lemma_closed_top_weight(b.value());
            }
            b.close_top();
        }
        let given = match &b.front_matter {
            Some(fm) => front_matter_title(fm),
            None => None,
        };
        let title = match given {
            Some(t) => Some(t),
            None => first_h1(&b.blocks),
        };
        Document {
            blocks: b.blocks,
            footnotes: b.footnotes,
            title,
            front_matter: b.front_matter,
        }
    }
}

/// Parses Markdown into a document.
pub fn parse(source: &str, options: ParseOptions) -> (r: Document)
    ensures
        r@ == document_of(cmark_events(source@, options.bits() as u32)),
{
    build(cmark(source, options.to_cmark()))
}

} // verus!
