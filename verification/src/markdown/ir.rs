//! The document tree.
//!
//! A Markdown parser hands out a flat event stream, which is ideal for streaming
//! and awkward for laying out a terminal page: to wrap a table column or indent a
//! nested list the whole subtree has to be known first. So events are folded into
//! this tree once, and every later stage works on it.
use vstd::prelude::*;

use crate::text;

verus! {

/// A parsed document plus the bits of metadata worth keeping.
#[derive(Debug, PartialEq)]
pub struct Document {
    pub blocks: Vec<Block>,
    /// Footnote bodies, in first-reference order.
    pub footnotes: Vec<(String, Vec<Block>)>,
    /// Title from YAML front matter, or the first level-1 heading.
    pub title: Option<String>,
    /// Raw front matter, kept so the program can expose it.
    pub front_matter: Option<String>,
}

/// A block-level element.
#[derive(Debug, PartialEq)]
pub enum Block {
    Heading { level: u8, id: String, content: Vec<Inline> },
    Paragraph(Vec<Inline>),
    CodeBlock { language: Option<String>, code: String },
    /// A quote, or one of GitHub's alert callouts when `kind` is set.
    BlockQuote { kind: Option<AlertKind>, blocks: Vec<Block> },
    List(List),
    Table(Table),
    /// A paragraph whose only content is an image, which can be drawn large.
    Figure { image: ImageRef, caption: Vec<Inline> },
    Rule,
    /// Raw HTML that is shown rather than silently dropped.
    Html(String),
    /// `$$ ... $$`
    DisplayMath(String),
    /// Terms and their definitions.
    DefinitionList(Vec<(Vec<Inline>, Vec<Vec<Block>>)>),
    /// A footnote body, rendered at the end of the document.
    FootnoteDefinition { label: String, blocks: Vec<Block> },
}

/// GitHub's alert callouts.
#[derive(Debug, Clone, Copy, PartialEq, Eq, Structural)]
pub enum AlertKind {
    Note,
    Tip,
    Important,
    Warning,
    Caution,
}

/// The word that introduces a callout.
pub open spec fn alert_label(kind: AlertKind) -> Seq<char> {
    match kind {
        AlertKind::Note => "NOTE"@,
        AlertKind::Tip => "TIP"@,
        AlertKind::Important => "IMPORTANT"@,
        AlertKind::Warning => "WARNING"@,
        AlertKind::Caution => "CAUTION"@,
    }
}

impl AlertKind {
    pub fn label(self) -> (r: &'static str)
        ensures
            r@ == alert_label(self),
    {
        match self {
            AlertKind::Note => "NOTE",
            AlertKind::Tip => "TIP",
            AlertKind::Important => "IMPORTANT",
            AlertKind::Warning => "WARNING",
            AlertKind::Caution => "CAUTION",
        }
    }
}

#[derive(Debug, PartialEq)]
pub struct List {
    /// `Some(start)` for ordered lists.
    pub start: Option<u64>,
    /// Tight lists set their items solid; loose lists get blank lines between.
    pub tight: bool,
    pub items: Vec<ListItem>,
}

#[derive(Debug, PartialEq)]
pub struct ListItem {
    /// `Some(checked)` when this is a task list item.
    pub task: Option<bool>,
    pub blocks: Vec<Block>,
}

/// A table. Cells hold inline content only.
#[derive(Debug, PartialEq)]
pub struct Table {
    pub alignments: Vec<Alignment>,
    pub head: Vec<Vec<Inline>>,
    pub rows: Vec<Vec<Vec<Inline>>>,
}

#[derive(Debug, Clone, Copy, PartialEq, Eq, Structural)]
pub enum Alignment {
    Unset,
    Left,
    Center,
    Right,
}

#[derive(Debug, PartialEq)]
pub enum Inline {
    Text(String),
    Code(String),
    Emph(Vec<Inline>),
    Strong(Vec<Inline>),
    Strike(Vec<Inline>),
    Superscript(Vec<Inline>),
    Subscript(Vec<Inline>),
    Link { dest: String, title: Option<String>, content: Vec<Inline> },
    Image(ImageRef),
    SoftBreak,
    HardBreak,
    FootnoteRef(String),
    Math { text: String, display: bool },
    Html(String),
}

/// A reference to an image, before anyone has gone looking for the bytes.
#[derive(Debug, PartialEq, Eq)]
pub struct ImageRef {
    pub url: String,
    pub alt: String,
    pub title: Option<String>,
}

// --- what the values stand for ---------------------------------------------

/// The characters of an optional string.
pub open spec fn opt_text(o: Option<String>) -> Option<Seq<char>> {
    match o {
        Some(s) => Some(s@),
        None => None,
    }
}

pub struct ImageRefV {
    pub url: Seq<char>,
    pub alt: Seq<char>,
    pub title: Option<Seq<char>>,
}

impl View for ImageRef {
    type V = ImageRefV;

    open spec fn view(&self) -> ImageRefV {
        ImageRefV { url: self.url@, alt: self.alt@, title: opt_text(self.title) }
    }
}

/// Inline content as a value: strings are sequences of characters.
pub enum InlineV {
    Text(Seq<char>),
    Code(Seq<char>),
    Emph(Seq<InlineV>),
    Strong(Seq<InlineV>),
    Strike(Seq<InlineV>),
    Superscript(Seq<InlineV>),
    Subscript(Seq<InlineV>),
    Link { dest: Seq<char>, title: Option<Seq<char>>, content: Seq<InlineV> },
    Image(ImageRefV),
    SoftBreak,
    HardBreak,
    FootnoteRef(Seq<char>),
    Math { text: Seq<char>, display: bool },
    Html(Seq<char>),
}

pub struct ListItemV {
    pub task: Option<bool>,
    pub blocks: Seq<BlockV>,
}

pub struct ListV {
    pub start: Option<u64>,
    pub tight: bool,
    pub items: Seq<ListItemV>,
}

pub struct TableV {
    pub alignments: Seq<Alignment>,
    pub head: Seq<Seq<InlineV>>,
    pub rows: Seq<Seq<Seq<InlineV>>>,
}

/// A block as a value.
pub enum BlockV {
    Heading { level: u8, id: Seq<char>, content: Seq<InlineV> },
    Paragraph(Seq<InlineV>),
    CodeBlock { language: Option<Seq<char>>, code: Seq<char> },
    BlockQuote { kind: Option<AlertKind>, blocks: Seq<BlockV> },
    List(ListV),
    Table(TableV),
    Figure { image: ImageRefV, caption: Seq<InlineV> },
    Rule,
    Html(Seq<char>),
    DisplayMath(Seq<char>),
    DefinitionList(Seq<(Seq<InlineV>, Seq<Seq<BlockV>>)>),
    FootnoteDefinition { label: Seq<char>, blocks: Seq<BlockV> },
}

/// A document as a value.
pub struct DocumentV {
    pub blocks: Seq<BlockV>,
    pub footnotes: Seq<(Seq<char>, Seq<BlockV>)>,
    pub title: Option<Seq<char>>,
    pub front_matter: Option<Seq<char>>,
}

pub open spec fn inline_view(i: Inline) -> InlineV
    decreases i,
{
    match i {
        Inline::Text(t) => InlineV::Text(t@),
        Inline::Code(t) => InlineV::Code(t@),
        Inline::Emph(c) => InlineV::Emph(inlines_view(c)),
        Inline::Strong(c) => InlineV::Strong(inlines_view(c)),
        Inline::Strike(c) => InlineV::Strike(inlines_view(c)),
        Inline::Superscript(c) => InlineV::Superscript(inlines_view(c)),
        Inline::Subscript(c) => InlineV::Subscript(inlines_view(c)),
        Inline::Link { dest, title, content } => InlineV::Link {
            dest: dest@,
            title: opt_text(title),
            content: inlines_view(content),
        },
        Inline::Image(img) => InlineV::Image(img@),
        Inline::SoftBreak => InlineV::SoftBreak,
        Inline::HardBreak => InlineV::HardBreak,
        Inline::FootnoteRef(t) => InlineV::FootnoteRef(t@),
        Inline::Math { text, display } => InlineV::Math { text: text@, display },
        Inline::Html(t) => InlineV::Html(t@),
    }
}

pub open spec fn inlines_view(v: Vec<Inline>) -> Seq<InlineV>
    decreases v,
{
    Seq::new(
        v@.len(),
        |k: int|
            if 0 <= k < v@.len() {
                inline_view(v@[k])
            } else {
                arbitrary()
            },
    )
}

pub open spec fn cells_view(v: Vec<Vec<Inline>>) -> Seq<Seq<InlineV>> {
    Seq::new(v@.len(), |k: int| inlines_view(v@[k]))
}

pub open spec fn rows_view(v: Vec<Vec<Vec<Inline>>>) -> Seq<Seq<Seq<InlineV>>> {
    Seq::new(v@.len(), |k: int| cells_view(v@[k]))
}

pub open spec fn table_view(t: Table) -> TableV {
    TableV {
        alignments: t.alignments@,
        head: cells_view(t.head),
        rows: rows_view(t.rows),
    }
}

pub open spec fn block_view(b: Block) -> BlockV
    decreases b,
{
    match b {
        Block::Heading { level, id, content } => BlockV::Heading {
            level,
            id: id@,
            content: inlines_view(content),
        },
        Block::Paragraph(c) => BlockV::Paragraph(inlines_view(c)),
        Block::CodeBlock { language, code } => BlockV::CodeBlock {
            language: opt_text(language),
            code: code@,
        },
        Block::BlockQuote { kind, blocks } => BlockV::BlockQuote {
            kind,
            blocks: blocks_view(blocks),
        },
        Block::List(list) => BlockV::List(list_view(list)),
        Block::Table(table) => BlockV::Table(table_view(table)),
        Block::Figure { image, caption } => BlockV::Figure {
            image: image@,
            caption: inlines_view(caption),
        },
        Block::Rule => BlockV::Rule,
        Block::Html(t) => BlockV::Html(t@),
        Block::DisplayMath(t) => BlockV::DisplayMath(t@),
        Block::DefinitionList(items) => BlockV::DefinitionList(definitions_view(items)),
        Block::FootnoteDefinition { label, blocks } => BlockV::FootnoteDefinition {
            label: label@,
            blocks: blocks_view(blocks),
        },
    }
}

pub open spec fn blocks_view(v: Vec<Block>) -> Seq<BlockV>
    decreases v,
{
    Seq::new(
        v@.len(),
        |k: int|
            if 0 <= k < v@.len() {
                block_view(v@[k])
            } else {
                arbitrary()
            },
    )
}

pub open spec fn bodies_view(v: Vec<Vec<Block>>) -> Seq<Seq<BlockV>>
    decreases v,
{
    Seq::new(
        v@.len(),
        |k: int|
            if 0 <= k < v@.len() {
                blocks_view(v@[k])
            } else {
                arbitrary()
            },
    )
}

pub open spec fn definition_view(d: (Vec<Inline>, Vec<Vec<Block>>)) -> (
    Seq<InlineV>,
    Seq<Seq<BlockV>>,
)
    decreases d,
{
    (inlines_view(d.0), bodies_view(d.1))
}

pub open spec fn definitions_view(v: Vec<(Vec<Inline>, Vec<Vec<Block>>)>) -> Seq<
    (Seq<InlineV>, Seq<Seq<BlockV>>),
>
    decreases v,
{
    Seq::new(
        v@.len(),
        |k: int|
            if 0 <= k < v@.len() {
                definition_view(v@[k])
            } else {
                arbitrary()
            },
    )
}

pub open spec fn item_view(i: ListItem) -> ListItemV
    decreases i,
{
    ListItemV { task: i.task, blocks: blocks_view(i.blocks) }
}

pub open spec fn items_view(v: Vec<ListItem>) -> Seq<ListItemV>
    decreases v,
{
    Seq::new(
        v@.len(),
        |k: int|
            if 0 <= k < v@.len() {
                item_view(v@[k])
            } else {
                arbitrary()
            },
    )
}

pub open spec fn list_view(l: List) -> ListV
    decreases l,
{
    ListV { start: l.start, tight: l.tight, items: items_view(l.items) }
}

pub open spec fn footnotes_view(v: Vec<(String, Vec<Block>)>) -> Seq<(Seq<char>, Seq<BlockV>)> {
    Seq::new(v@.len(), |k: int| (v@[k].0@, blocks_view(v@[k].1)))
}

impl View for Document {
    type V = DocumentV;

    open spec fn view(&self) -> DocumentV {
        DocumentV {
            blocks: blocks_view(self.blocks),
            footnotes: footnotes_view(self.footnotes),
            title: opt_text(self.title),
            front_matter: opt_text(self.front_matter),
        }
    }
}

impl Default for Document {
    fn default() -> (r: Document)
        ensures
            r@ == (DocumentV {
                blocks: Seq::empty(),
                footnotes: Seq::empty(),
                title: None,
                front_matter: None,
            }),
    {
        let r = Document {
            blocks: Vec::new(),
            footnotes: Vec::new(),
            title: None,
            front_matter: None,
        };
        assert(blocks_view(r.blocks) =~= Seq::empty());
        assert(footnotes_view(r.footnotes) =~= Seq::empty());
        r
    }
}

impl Default for ImageRef {
    fn default() -> (r: ImageRef)
        ensures
            r@ == (ImageRefV { url: Seq::empty(), alt: Seq::empty(), title: None }),
    {
        ImageRef { url: String::new(), alt: String::new(), title: None }
    }
}

impl Clone for ImageRef {
    fn clone(&self) -> (r: ImageRef)
        ensures
            r@ == self@,
    {
        ImageRef { url: self.url.clone(), alt: self.alt.clone(), title: clone_text(&self.title) }
    }
}

/// A copy of an optional string.
pub fn clone_text(t: &Option<String>) -> (r: Option<String>)
    ensures
        opt_text(r) == opt_text(*t),
{
    match t {
        Some(s) => Some(s.clone()),
        None => None,
    }
}

// --- plain text -------------------------------------------------------------

/// Inline content flattened to plain text.
pub open spec fn plain(s: Seq<InlineV>) -> Seq<char>
    decreases s,
{
    if s.len() == 0 {
        Seq::empty()
    } else {
        plain(s.drop_last()) + plain_inline(s.last())
    }
}

/// One inline element flattened to plain text.
pub open spec fn plain_inline(i: InlineV) -> Seq<char>
    decreases i,
{
    match i {
        InlineV::Text(t) | InlineV::Code(t) => t,
        InlineV::Math { text, .. } => text,
        InlineV::Emph(c) | InlineV::Strong(c) | InlineV::Strike(c) => plain(c),
        InlineV::Superscript(c) | InlineV::Subscript(c) => plain(c),
        InlineV::Link { content, .. } => plain(content),
        InlineV::Image(img) => img.alt,
        InlineV::SoftBreak | InlineV::HardBreak => seq![' '],
        InlineV::FootnoteRef(label) => seq!['['] + label + seq![']'],
        InlineV::Html(_) => Seq::empty(),
    }
}

/// Flattens inline content to plain text, for slugs, titles and search.
pub fn plain_text(inlines: &Vec<Inline>) -> (r: String)
    ensures
        r@ == plain(inlines_view(*inlines)),
{
    let mut s: String = String::new();
    push_plain(inlines, &mut s);
    assert(s@ =~= plain(inlines_view(*inlines)));
    s
}

fn push_plain(inlines: &Vec<Inline>, out: &mut String)
    ensures
        final(out)@ == old(out)@ + plain(inlines_view(*inlines)),
    decreases inlines,
{
    let n: usize = inlines.len();
    let ghost v = inlines_view(*inlines);
    assert(v.take(0) =~= Seq::empty());
    assert(out@ + plain(v.take(0)) =~= out@);
    for i in 0..n
        invariant
            n == inlines@.len(),
            v == inlines_view(*inlines),
            out@ == old(out)@ + plain(v.take(i as int)),
    {
        let ghost before = out@;
        assert(v[i as int] == inline_view(inlines@[i as int]));
        match &inlines[i] {
            Inline::Text(t) | Inline::Code(t) | Inline::Math { text: t, .. } => out.push_str(t),
            Inline::Emph(c) | Inline::Strong(c) | Inline::Strike(c) => push_plain(c, out),
            Inline::Superscript(c) | Inline::Subscript(c) => push_plain(c, out),
            Inline::Link { content, .. } => push_plain(content, out),
            Inline::Image(img) => out.push_str(&img.alt),
            Inline::SoftBreak | Inline::HardBreak => out.push(' '),
            Inline::FootnoteRef(label) => {
                out.push('[');
                out.push_str(label);
                out.push(']');
            },
            Inline::Html(_) => {},
        }
        assert(v.take(i + 1).drop_last() =~= v.take(i as int));
        assert(v.take(i + 1).last() == v[i as int]);
        assert(out@ =~= before + plain_inline(v[i as int]));
        assert(out@ =~= old(out)@ + plain(v.take(i + 1)));
    }
    assert(v.take(n as int) =~= v);
}

// --- headings ----------------------------------------------------------------

/// A heading's level, text and anchor.
pub type HeadingV = (u8, Seq<char>, Seq<char>);

/// The headings in a run of blocks, in document order. Quotes and lists are looked
/// into; other containers are not.
pub open spec fn headings_in(s: Seq<BlockV>) -> Seq<HeadingV>
    decreases s,
{
    if s.len() == 0 {
        Seq::empty()
    } else {
        headings_in(s.drop_last()) + block_headings(s.last())
    }
}

pub open spec fn item_headings(s: Seq<ListItemV>) -> Seq<HeadingV>
    decreases s,
{
    if s.len() == 0 {
        Seq::empty()
    } else {
        item_headings(s.drop_last()) + headings_in(s.last().blocks)
    }
}

/// The headings in one block.
pub open spec fn block_headings(b: BlockV) -> Seq<HeadingV>
    decreases b,
{
    match b {
        BlockV::Heading { level, id, content } => seq![(level, plain(content), id)],
        BlockV::BlockQuote { blocks, .. } => headings_in(blocks),
        BlockV::List(list) => item_headings(list.items),
        _ => Seq::empty(),
    }
}

pub open spec fn heading_views(v: Seq<(u8, String, String)>) -> Seq<HeadingV> {
    Seq::new(v.len(), |i: int| (v[i].0, v[i].1@, v[i].2@))
}

impl Document {
    /// Headings in document order, for the table of contents.
    pub fn headings(&self) -> (r: Vec<(u8, String, String)>)
        ensures
            heading_views(r@) == headings_in(self@.blocks),
    {
        let mut out: Vec<(u8, String, String)> = Vec::new();
        collect_headings(&self.blocks, &mut out);
        assert(heading_views(out@) =~= headings_in(self@.blocks));
        out
    }
}

fn collect_headings(blocks: &Vec<Block>, out: &mut Vec<(u8, String, String)>)
    ensures
        heading_views(final(out)@) == heading_views(old(out)@) + headings_in(blocks_view(*blocks)),
    decreases blocks,
{
    let n: usize = blocks.len();
    let ghost v = blocks_view(*blocks);
    assert(v.take(0) =~= Seq::empty());
    assert(heading_views(out@) + headings_in(v.take(0)) =~= heading_views(out@));
    for i in 0..n
        invariant
            n == blocks@.len(),
            v == blocks_view(*blocks),
            heading_views(out@) == heading_views(old(out)@) + headings_in(v.take(i as int)),
    {
        let ghost before = heading_views(out@);
        assert(v[i as int] == block_view(blocks@[i as int]));
        match &blocks[i] {
            Block::Heading { level, id, content } => {
                out.push((*level, plain_text(content), id.clone()));
            },
            Block::BlockQuote { blocks, .. } => collect_headings(blocks, out),
            Block::List(list) => collect_item_headings(&list.items, out),
            _ => {},
        }
        assert(v.take(i + 1).drop_last() =~= v.take(i as int));
        assert(v.take(i + 1).last() == v[i as int]);
        assert(heading_views(out@) =~= before + block_headings(v[i as int]));
        assert(heading_views(out@) =~= heading_views(old(out)@) + headings_in(v.take(i + 1)));
    }
    assert(v.take(n as int) =~= v);
}

fn collect_item_headings(items: &Vec<ListItem>, out: &mut Vec<(u8, String, String)>)
    ensures
        heading_views(final(out)@) == heading_views(old(out)@) + item_headings(items_view(*items)),
    decreases items,
{
    let n: usize = items.len();
    let ghost v = items_view(*items);
    assert(v.take(0) =~= Seq::empty());
    assert(heading_views(out@) + item_headings(v.take(0)) =~= heading_views(out@));
    for i in 0..n
        invariant
            n == items@.len(),
            v == items_view(*items),
            heading_views(out@) == heading_views(old(out)@) + item_headings(v.take(i as int)),
    {
        let ghost before = heading_views(out@);
        assert(v[i as int] == item_view(items@[i as int]));
        collect_headings(&items[i].blocks, out);
        assert(v.take(i + 1).drop_last() =~= v.take(i as int));
        assert(v.take(i + 1).last() == v[i as int]);
        assert(heading_views(out@) =~= heading_views(old(out)@) + item_headings(v.take(i + 1)));
    }
    assert(v.take(n as int) =~= v);
}

} // verus!
