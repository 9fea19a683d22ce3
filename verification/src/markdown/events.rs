//! The events of a Markdown parse, and where they come from.
//!
//! `pulldown-cmark` reads the Markdown. What it finds is taken over into the plain
//! values of this module, which is all the rest of the library sees of it.
use vstd::prelude::*;

use pulldown_cmark::Event as CmEvent;
use pulldown_cmark::Event::{
    Code as CmCode, DisplayMath as CmDisplayMath, End as CmEnd,
    FootnoteReference as CmFootnoteReference, HardBreak as CmHardBreak, Html as CmHtml,
    InlineHtml as CmInlineHtml, InlineMath as CmInlineMath, Rule as CmRule,
    SoftBreak as CmSoftBreak, Start as CmStart, TaskListMarker as CmTaskListMarker, Text as CmText,
};
use pulldown_cmark::Tag as CmTag;
use pulldown_cmark::TagEnd as CmTagEnd;
use pulldown_cmark::{Alignment as CmAlignment, BlockQuoteKind, CodeBlockKind, CowStr};

use super::ir::{opt_text, AlertKind, Alignment};

verus! {

/// One event of a parse.
#[derive(Debug, PartialEq)]
pub enum Event {
    Start(Tag),
    End(TagEnd),
    Text(String),
    Code(String),
    InlineMath(String),
    DisplayMath(String),
    Html(String),
    InlineHtml(String),
    FootnoteReference(String),
    SoftBreak,
    HardBreak,
    Rule,
    TaskListMarker(bool),
}

/// What a start event opens.
#[derive(Debug, PartialEq)]
pub enum Tag {
    Paragraph,
    Heading { level: u8, id: Option<String> },
    BlockQuote(Option<AlertKind>),
    /// The info string of a fenced block; an indented block has none.
    CodeBlock(Option<String>),
    HtmlBlock,
    List(Option<u64>),
    Item,
    FootnoteDefinition(String),
    DefinitionList,
    DefinitionListTitle,
    DefinitionListDefinition,
    Table(Vec<Alignment>),
    TableHead,
    TableRow,
    TableCell,
    Emphasis,
    Strong,
    Strikethrough,
    Superscript,
    Subscript,
    Link { dest: String, title: String },
    Image { dest: String, title: String },
    MetadataBlock,
}

/// What an end event closes.
#[derive(Debug, Clone, Copy, PartialEq, Eq, Structural)]
pub enum TagEnd {
    Paragraph,
    Heading,
    BlockQuote,
    CodeBlock,
    HtmlBlock,
    List,
    Item,
    FootnoteDefinition,
    DefinitionList,
    DefinitionListTitle,
    DefinitionListDefinition,
    Table,
    TableHead,
    TableRow,
    TableCell,
    Emphasis,
    Strong,
    Strikethrough,
    Superscript,
    Subscript,
    Link,
    Image,
    MetadataBlock,
}

pub enum TagV {
    Paragraph,
    Heading { level: u8, id: Option<Seq<char>> },
    BlockQuote(Option<AlertKind>),
    CodeBlock(Option<Seq<char>>),
    HtmlBlock,
    List(Option<u64>),
    Item,
    FootnoteDefinition(Seq<char>),
    DefinitionList,
    DefinitionListTitle,
    DefinitionListDefinition,
    Table(Seq<Alignment>),
    TableHead,
    TableRow,
    TableCell,
    Emphasis,
    Strong,
    Strikethrough,
    Superscript,
    Subscript,
    Link { dest: Seq<char>, title: Seq<char> },
    Image { dest: Seq<char>, title: Seq<char> },
    MetadataBlock,
}

pub enum EventV {
    Start(TagV),
    End(TagEnd),
    Text(Seq<char>),
    Code(Seq<char>),
    InlineMath(Seq<char>),
    DisplayMath(Seq<char>),
    Html(Seq<char>),
    InlineHtml(Seq<char>),
    FootnoteReference(Seq<char>),
    SoftBreak,
    HardBreak,
    Rule,
    TaskListMarker(bool),
}

impl View for Tag {
    type V = TagV;

    open spec fn view(&self) -> TagV {
        match *self {
            Tag::Paragraph => TagV::Paragraph,
            Tag::Heading { level, id } => TagV::Heading { level, id: opt_text(id) },
            Tag::BlockQuote(kind) => TagV::BlockQuote(kind),
            Tag::CodeBlock(info) => TagV::CodeBlock(opt_text(info)),
            Tag::HtmlBlock => TagV::HtmlBlock,
            Tag::List(start) => TagV::List(start),
            Tag::Item => TagV::Item,
            Tag::FootnoteDefinition(label) => TagV::FootnoteDefinition(label@),
            Tag::DefinitionList => TagV::DefinitionList,
            Tag::DefinitionListTitle => TagV::DefinitionListTitle,
            Tag::DefinitionListDefinition => TagV::DefinitionListDefinition,
            Tag::Table(alignments) => TagV::Table(alignments@),
            Tag::TableHead => TagV::TableHead,
            Tag::TableRow => TagV::TableRow,
            Tag::TableCell => TagV::TableCell,
            Tag::Emphasis => TagV::Emphasis,
            Tag::Strong => TagV::Strong,
            Tag::Strikethrough => TagV::Strikethrough,
            Tag::Superscript => TagV::Superscript,
            Tag::Subscript => TagV::Subscript,
            Tag::Link { dest, title } => TagV::Link { dest: dest@, title: title@ },
            Tag::Image { dest, title } => TagV::Image { dest: dest@, title: title@ },
            Tag::MetadataBlock => TagV::MetadataBlock,
        }
    }
}

impl View for Event {
    type V = EventV;

    open spec fn view(&self) -> EventV {
        match *self {
            Event::Start(tag) => EventV::Start(tag@),
            Event::End(tag) => EventV::End(tag),
            Event::Text(t) => EventV::Text(t@),
            Event::Code(t) => EventV::Code(t@),
            Event::InlineMath(t) => EventV::InlineMath(t@),
            Event::DisplayMath(t) => EventV::DisplayMath(t@),
            Event::Html(t) => EventV::Html(t@),
            Event::InlineHtml(t) => EventV::InlineHtml(t@),
            Event::FootnoteReference(t) => EventV::FootnoteReference(t@),
            Event::SoftBreak => EventV::SoftBreak,
            Event::HardBreak => EventV::HardBreak,
            Event::Rule => EventV::Rule,
            Event::TaskListMarker(checked) => EventV::TaskListMarker(checked),
        }
    }
}

pub open spec fn events_view(v: Seq<Event>) -> Seq<EventV> {
    v.map_values(|e: Event| e@)
}

/// An event as `pulldown-cmark` gives it.
#[verifier::external_type_specification]
#[verifier::external_body]
pub struct ExEvent<'a>(CmEvent<'a>);

/// A start tag as `pulldown-cmark` gives it.
#[verifier::external_type_specification]
#[verifier::external_body]
pub struct ExTag<'a>(CmTag<'a>);

/// An end tag as `pulldown-cmark` gives it.
#[verifier::external_type_specification]
#[verifier::external_body]
pub struct ExTagEnd(CmTagEnd);

/// The kind of a callout as `pulldown-cmark` gives it.
#[verifier::external_type_specification]
#[verifier::external_body]
pub struct ExBlockQuoteKind(pulldown_cmark::BlockQuoteKind);

/// The alignment of a table column as `pulldown-cmark` gives it.
#[verifier::external_type_specification]
#[verifier::external_body]
pub struct ExAlignment(CmAlignment);

/// The events that `pulldown_cmark::Parser::new_ext` iterates over, for a source
/// text and the bits of its `Options`.
pub uninterp spec fn cmark_events(source: Seq<char>, options: u32) -> Seq<EventV>;

/// Runs `pulldown_cmark::Parser::new_ext` over a text and collects its events. They
/// depend on the text and the options alone; what they are is not stated.
#[verifier::external_body]
pub(crate) fn cmark(source: &str, options: u32) -> (r: Vec<Event>)
    ensures
        events_view(r@) == cmark_events(source@, options),
{
    pulldown_cmark::Parser::new_ext(source, pulldown_cmark::Options::from_bits_truncate(options))
        .map(convert_event)
        .collect()
}

/// Takes over a `pulldown_cmark::Event`, variant by variant.
#[verifier::external_body]
fn convert_event(event: CmEvent<'_>) -> Event {
    match event {
        CmStart(t) => Event::Start(convert_tag(t)),
        CmEnd(t) => Event::End(convert_end(t)),
        CmText(t) => Event::Text(t.into_string()),
        CmCode(t) => Event::Code(t.into_string()),
        CmInlineMath(t) => Event::InlineMath(t.into_string()),
        CmDisplayMath(t) => Event::DisplayMath(t.into_string()),
        CmHtml(t) => Event::Html(t.into_string()),
        CmInlineHtml(t) => Event::InlineHtml(t.into_string()),
        CmFootnoteReference(t) => Event::FootnoteReference(t.into_string()),
        CmSoftBreak => Event::SoftBreak,
        CmHardBreak => Event::HardBreak,
        CmRule => Event::Rule,
        CmTaskListMarker(checked) => Event::TaskListMarker(checked),
    }
}

/// Takes over a `pulldown_cmark::Tag` that carries something.
#[verifier::external_body]
fn convert_tag(tag: CmTag<'_>) -> Tag {
    match tag {
        CmTag::Heading { level, id, .. } => {
            Tag::Heading { level: level as u8, id: id.map(CowStr::into_string) }
        },
        CmTag::BlockQuote(kind) => Tag::BlockQuote(kind.map(convert_kind)),
        CmTag::CodeBlock(CodeBlockKind::Fenced(info)) => Tag::CodeBlock(Some(info.into_string())),
        CmTag::CodeBlock(CodeBlockKind::Indented) => Tag::CodeBlock(None),
        CmTag::List(start) => Tag::List(start),
        CmTag::FootnoteDefinition(label) => Tag::FootnoteDefinition(label.into_string()),
        CmTag::Table(aligns) => Tag::Table(aligns.into_iter().map(convert_alignment).collect()),
        CmTag::MetadataBlock(_) => Tag::MetadataBlock,
        other => convert_span(other),
    }
}

/// Takes over a `pulldown_cmark::Tag` that opens a link, an image or a span.
#[verifier::external_body]
fn convert_span(tag: CmTag<'_>) -> Tag {
    match tag {
        CmTag::Link { dest_url, title, .. } => {
            Tag::Link { dest: dest_url.into_string(), title: title.into_string() }
        },
        CmTag::Image { dest_url, title, .. } => {
            Tag::Image { dest: dest_url.into_string(), title: title.into_string() }
        },
        CmTag::Emphasis => Tag::Emphasis,
        CmTag::Strong => Tag::Strong,
        CmTag::Strikethrough => Tag::Strikethrough,
        CmTag::Superscript => Tag::Superscript,
        CmTag::Subscript => Tag::Subscript,
        other => convert_container(other),
    }
}

/// Takes over the `pulldown_cmark::Tag`s that carry nothing; the last arm is left
/// with `Paragraph` alone.
#[verifier::external_body]
fn convert_container(tag: CmTag<'_>) -> Tag {
    match tag {
        CmTag::HtmlBlock => Tag::HtmlBlock,
        CmTag::Item => Tag::Item,
        CmTag::DefinitionList => Tag::DefinitionList,
        CmTag::DefinitionListTitle => Tag::DefinitionListTitle,
        CmTag::DefinitionListDefinition => Tag::DefinitionListDefinition,
        CmTag::TableHead => Tag::TableHead,
        CmTag::TableRow => Tag::TableRow,
        CmTag::TableCell => Tag::TableCell,
        _ => Tag::Paragraph,
    }
}

/// Takes over a `pulldown_cmark::TagEnd`, variant by variant.
#[verifier::external_body]
fn convert_end(tag: CmTagEnd) -> TagEnd {
    match tag {
        CmTagEnd::Heading(_) => TagEnd::Heading,
        CmTagEnd::BlockQuote(_) => TagEnd::BlockQuote,
        CmTagEnd::CodeBlock => TagEnd::CodeBlock,
        CmTagEnd::HtmlBlock => TagEnd::HtmlBlock,
        CmTagEnd::List(_) => TagEnd::List,
        CmTagEnd::Item => TagEnd::Item,
        CmTagEnd::FootnoteDefinition => TagEnd::FootnoteDefinition,
        CmTagEnd::DefinitionList => TagEnd::DefinitionList,
        CmTagEnd::DefinitionListTitle => TagEnd::DefinitionListTitle,
        CmTagEnd::DefinitionListDefinition => TagEnd::DefinitionListDefinition,
        CmTagEnd::MetadataBlock(_) => TagEnd::MetadataBlock,
        other => convert_span_end(other),
    }
}

/// Takes over the `pulldown_cmark::TagEnd`s of tables and spans; the last arm is left
/// with `Paragraph` alone.
#[verifier::external_body]
fn convert_span_end(tag: CmTagEnd) -> TagEnd {
    match tag {
        CmTagEnd::Table => TagEnd::Table,
        CmTagEnd::TableHead => TagEnd::TableHead,
        CmTagEnd::TableRow => TagEnd::TableRow,
        CmTagEnd::TableCell => TagEnd::TableCell,
        CmTagEnd::Emphasis => TagEnd::Emphasis,
        CmTagEnd::Strong => TagEnd::Strong,
        CmTagEnd::Strikethrough => TagEnd::Strikethrough,
        CmTagEnd::Superscript => TagEnd::Superscript,
        CmTagEnd::Subscript => TagEnd::Subscript,
        CmTagEnd::Link => TagEnd::Link,
        CmTagEnd::Image => TagEnd::Image,
        _ => TagEnd::Paragraph,
    }
}

/// Takes over a `pulldown_cmark::BlockQuoteKind`, variant by variant.
#[verifier::external_body]
fn convert_kind(kind: BlockQuoteKind) -> AlertKind {
    match kind {
        BlockQuoteKind::Note => AlertKind::Note,
        BlockQuoteKind::Tip => AlertKind::Tip,
        BlockQuoteKind::Important => AlertKind::Important,
        BlockQuoteKind::Warning => AlertKind::Warning,
        BlockQuoteKind::Caution => AlertKind::Caution,
    }
}

/// Takes over a `pulldown_cmark::Alignment`, variant by variant.
#[verifier::external_body]
fn convert_alignment(alignment: CmAlignment) -> Alignment {
    match alignment {
        CmAlignment::None => Alignment::Unset,
        CmAlignment::Left => Alignment::Left,
        CmAlignment::Center => Alignment::Center,
        CmAlignment::Right => Alignment::Right,
    }
}

} // verus!
