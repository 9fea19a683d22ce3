//! Trees written down as events, and read back.
//!
//! The events of a tree are those that a reader of it would name one after the other: a
//! node begins, its contents follow in their order, the node ends. Folding them gives the
//! tree back.
use vstd::prelude::*;

use super::events::{EventV, TagEnd, TagV};
use super::ir::{plain, plain_inline, BlockV, DocumentV, InlineV, ListItemV, TableV};
use super::parse::{
    after_event, after_events, blank, closed_all, closed_implicit, closed_top, container,
    document_of, ends_container, fresh, h1_from, item_frame, language_end, language_of, line_title,
    meaningful, opened, paragraph_of, placed, started, title_of, unless_empty, unquoted_end,
    unquoted_start, with_inline, BuilderV, FrameV, ParseOptions, MAX_DEPTH,
};
use super::slug::{slug_base, slug_given, slug_seen};
use crate::text;

verus! {

// --- runs of events ---------------------------------------------------------------------

pub(crate) proof fn lemma_after_both(b: BuilderV, x: Seq<EventV>, y: Seq<EventV>)
    ensures
        after_events(b, x + y) == after_events(after_events(b, x), y),
    decreases y.len(),
{
    if y.len() == 0 {
        assert(x + y =~= x);
    } else {
        lemma_after_both(b, x, y.drop_last());
        assert((x + y).drop_last() =~= x + y.drop_last());
    }
}

pub(crate) proof fn lemma_after_one(b: BuilderV, e: EventV)
    ensures
        after_events(b, seq![e]) == after_event(b, e),
{
    assert(seq![e].drop_last() =~= Seq::empty());
    assert(after_events(b, Seq::empty()) == b);
}

/// A node: its start, what it holds, its end.
pub open spec fn node(tag: TagV, inner: Seq<EventV>, end: TagEnd) -> Seq<EventV> {
    seq![EventV::Start(tag)] + inner + seq![EventV::End(end)]
}

pub(crate) proof fn lemma_after_node(b: BuilderV, tag: TagV, inner: Seq<EventV>, end: TagEnd)
    ensures
        after_events(b, node(tag, inner, end)) == after_event(
            after_events(after_event(b, EventV::Start(tag)), inner),
            EventV::End(end),
        ),
{
    let first = seq![EventV::Start(tag)];
    lemma_after_both(b, first + inner, seq![EventV::End(end)]);
    lemma_after_both(b, first, inner);
    lemma_after_one(b, EventV::Start(tag));
    lemma_after_one(after_events(b, first + inner), EventV::End(end));
}

// --- inline content -----------------------------------------------------------------------

/// A title as an event carries it: empty where there is none.
pub open spec fn title_text(title: Option<Seq<char>>) -> Seq<char> {
    match title {
        Some(t) => t,
        None => Seq::empty(),
    }
}

/// Inline content as events.
pub open spec fn inlines_events(s: Seq<InlineV>) -> Seq<EventV>
    decreases s,
{
    if s.len() == 0 {
        Seq::empty()
    } else {
        inlines_events(s.drop_last()) + inline_events(s.last())
    }
}

/// One inline element as events.
pub open spec fn inline_events(i: InlineV) -> Seq<EventV>
    decreases i,
{
    match i {
        InlineV::Text(t) => seq![EventV::Text(t)],
        InlineV::Code(t) => seq![EventV::Code(t)],
        InlineV::Emph(c) => node(TagV::Emphasis, inlines_events(c), TagEnd::Emphasis),
        InlineV::Strong(c) => node(TagV::Strong, inlines_events(c), TagEnd::Strong),
        InlineV::Strike(c) => node(TagV::Strikethrough, inlines_events(c), TagEnd::Strikethrough),
        InlineV::Superscript(c) => node(TagV::Superscript, inlines_events(c), TagEnd::Superscript),
        InlineV::Subscript(c) => node(TagV::Subscript, inlines_events(c), TagEnd::Subscript),
        InlineV::Link { dest, title, content } => node(
            TagV::Link { dest, title: title_text(title) },
            inlines_events(content),
            TagEnd::Link,
        ),
        InlineV::Image(img) => node(
            TagV::Image { dest: img.url, title: title_text(img.title) },
            seq![EventV::Text(img.alt)],
            TagEnd::Image,
        ),
        InlineV::SoftBreak => seq![EventV::SoftBreak],
        InlineV::HardBreak => seq![EventV::HardBreak],
        InlineV::FootnoteRef(label) => seq![EventV::FootnoteReference(label)],
        InlineV::Math { text, .. } => seq![EventV::InlineMath(text)],
        InlineV::Html(_) => Seq::empty(),
    }
}

/// True of inline content that events can carry: no raw HTML, which is taken apart, no
/// empty titles, and at most `room` levels.
pub open spec fn inlines_fit(s: Seq<InlineV>, room: int) -> bool
    decreases s,
{
    s.len() == 0 || (inlines_fit(s.drop_last(), room) && inline_fits(s.last(), room))
}

pub open spec fn inline_fits(i: InlineV, room: int) -> bool
    decreases i,
{
    match i {
        InlineV::Text(_) | InlineV::Code(_) | InlineV::FootnoteRef(_) => true,
        InlineV::SoftBreak | InlineV::HardBreak => true,
        InlineV::Emph(c) => room >= 1 && inlines_fit(c, room - 1),
        InlineV::Strong(c) => room >= 1 && inlines_fit(c, room - 1),
        InlineV::Strike(c) => room >= 1 && inlines_fit(c, room - 1),
        InlineV::Superscript(c) => room >= 1 && inlines_fit(c, room - 1),
        InlineV::Subscript(c) => room >= 1 && inlines_fit(c, room - 1),
        InlineV::Link { title, content, .. } => room >= 1 && inlines_fit(content, room - 1)
            && title != Some(Seq::<char>::empty()),
        InlineV::Image(img) => room >= 1 && img.title != Some(Seq::<char>::empty()),
        InlineV::Math { display, .. } => !display,
        InlineV::Html(_) => false,
    }
}

/// The inline content of a half-built node, if it holds any.
pub open spec fn content_of(f: FrameV) -> Option<Seq<InlineV>> {
    match f {
        FrameV::Paragraph { inlines, .. } => Some(inlines),
        FrameV::Heading { inlines, .. } => Some(inlines),
        FrameV::TableCell { inlines } => Some(inlines),
        FrameV::Emphasis(c) => Some(c),
        FrameV::Strong(c) => Some(c),
        FrameV::Strike(c) => Some(c),
        FrameV::Superscript(c) => Some(c),
        FrameV::Subscript(c) => Some(c),
        FrameV::Link { content, .. } => Some(content),
        FrameV::Image { alt, .. } => Some(alt),
        FrameV::DefinitionTitle(c) => Some(c),
        _ => None,
    }
}

/// The same half-built node with other inline content.
pub open spec fn holding(f: FrameV, s: Seq<InlineV>) -> FrameV {
    match f {
        FrameV::Paragraph { implicit, .. } => FrameV::Paragraph { inlines: s, implicit },
        FrameV::Heading { level, id, .. } => FrameV::Heading { level, id, inlines: s },
        FrameV::TableCell { .. } => FrameV::TableCell { inlines: s },
        FrameV::Emphasis(_) => FrameV::Emphasis(s),
        FrameV::Strong(_) => FrameV::Strong(s),
        FrameV::Strike(_) => FrameV::Strike(s),
        FrameV::Superscript(_) => FrameV::Superscript(s),
        FrameV::Subscript(_) => FrameV::Subscript(s),
        FrameV::Link { dest, title, .. } => FrameV::Link { dest, title, content: s },
        FrameV::Image { dest, title, .. } => FrameV::Image { dest, title, alt: s },
        FrameV::DefinitionTitle(_) => FrameV::DefinitionTitle(s),
        other => other,
    }
}

/// A builder whose innermost node has inline content added to it, and nothing else.
pub open spec fn gaining(b: BuilderV, s: Seq<InlineV>) -> BuilderV {
    BuilderV {
        stack: b.stack.drop_last().push(
            holding(b.stack.last(), content_of(b.stack.last())->0 + s),
        ),
        ..b
    }
}

/// True of a builder whose innermost node takes text as it comes, as code does.
spec fn takes_raw(b: BuilderV) -> bool {
    b.stack.len() > 0 && (b.stack.last() is CodeBlock || b.stack.last() is Metadata)
}

/// True of a builder in which inline content is open.
pub open spec fn in_content(b: BuilderV) -> bool {
    b.stack.len() > 0 && content_of(b.stack.last()) is Some
}

proof fn lemma_gain_one(b: BuilderV, i: InlineV)
    requires
        in_content(b),
    ensures
        with_inline(b, i) == gaining(b, seq![i]),
        in_content(with_inline(b, i)),
{
    let c = content_of(b.stack.last())->0;
    assert(c.push(i) =~= c + seq![i]);
}

proof fn lemma_gain_more(b: BuilderV, s: Seq<InlineV>, t: Seq<InlineV>)
    requires
        in_content(b),
    ensures
        gaining(gaining(b, s), t) == gaining(b, s + t),
        in_content(gaining(b, s)),
{
    let c = content_of(b.stack.last())->0;
    assert((c + s) + t =~= c + (s + t));
    assert(gaining(gaining(b, s), t).stack =~= gaining(b, s + t).stack);
}

proof fn lemma_gain_none(b: BuilderV)
    requires
        in_content(b),
    ensures
        gaining(b, Seq::empty()) == b,
{
    let c = content_of(b.stack.last())->0;
    assert(c + Seq::<InlineV>::empty() =~= c);
    assert(holding(b.stack.last(), c) == b.stack.last());
    assert(gaining(b, Seq::empty()).stack =~= b.stack);
}

/// A node around inline content that has just begun, and what it holds at its end.
proof fn lemma_filled(b: BuilderV, f: FrameV, c: Seq<InlineV>)
    requires
        content_of(f) == Some(Seq::<InlineV>::empty()),
    ensures
        gaining(opened(b, f), c) == opened(b, holding(f, c)),
        (BuilderV { stack: opened(b, holding(f, c)).stack.drop_last(), ..b }) == b,
{
    assert(Seq::<InlineV>::empty() + c =~= c);
    assert(gaining(opened(b, f), c).stack =~= opened(b, holding(f, c)).stack);
    assert(opened(b, holding(f, c)).stack.drop_last() =~= b.stack);
}

/// The frame that a node around inline content begins with.
spec fn first_frame(i: InlineV) -> FrameV {
    match i {
        InlineV::Emph(_) => FrameV::Emphasis(Seq::empty()),
        InlineV::Strong(_) => FrameV::Strong(Seq::empty()),
        InlineV::Strike(_) => FrameV::Strike(Seq::empty()),
        InlineV::Superscript(_) => FrameV::Superscript(Seq::empty()),
        InlineV::Subscript(_) => FrameV::Subscript(Seq::empty()),
        InlineV::Link { dest, title, .. } => FrameV::Link { dest, title, content: Seq::empty() },
        InlineV::Image(img) => FrameV::Image {
            dest: img.url,
            title: img.title,
            alt: Seq::empty(),
        },
        _ => FrameV::HtmlBlock(Seq::empty()),
    }
}

proof fn lemma_container(b: BuilderV, i: InlineV, tag: TagV, c: Seq<InlineV>, end: TagEnd)
    requires
        b.suppressed == 0,
        b.stack.len() < MAX_DEPTH,
        content_of(first_frame(i)) is Some,
        started(b, tag) == opened(b, first_frame(i)),
        after_events(opened(b, first_frame(i)), inlines_events(c)) == gaining(
            opened(b, first_frame(i)),
            c,
        ),
        !ends_container(end),
        closed_top(opened(b, holding(first_frame(i), c))) == with_inline(b, i),
    ensures
        after_events(b, node(tag, inlines_events(c), end)) == with_inline(b, i),
{
    lemma_after_node(b, tag, inlines_events(c), end);
    lemma_filled(b, first_frame(i), c);
}

#[verifier::rlimit(40)]
proof fn lemma_inline(b: BuilderV, i: InlineV, room: int)
    requires
        !takes_raw(b),
        b.suppressed == 0,
        inline_fits(i, room),
        b.stack.len() + room <= MAX_DEPTH,
    ensures
        after_events(b, inline_events(i)) == with_inline(b, i),
    decreases i,
{
    let f = first_frame(i);
    lemma_filled_below(b, f);
    match i {
        InlineV::Text(t) => lemma_after_one(b, EventV::Text(t)),
        InlineV::Code(t) => lemma_after_one(b, EventV::Code(t)),
        InlineV::SoftBreak => lemma_after_one(b, EventV::SoftBreak),
        InlineV::HardBreak => lemma_after_one(b, EventV::HardBreak),
        InlineV::FootnoteRef(label) => lemma_after_one(b, EventV::FootnoteReference(label)),
        InlineV::Math { text, .. } => lemma_after_one(b, EventV::InlineMath(text)),
        InlineV::Html(_) => {},
        InlineV::Emph(c) => {
            lemma_inlines(opened(b, f), c, room - 1);
            lemma_filled(b, f, c);
            lemma_container(b, i, TagV::Emphasis, c, TagEnd::Emphasis);
        },
        InlineV::Strong(c) => {
            lemma_inlines(opened(b, f), c, room - 1);
            lemma_filled(b, f, c);
            lemma_container(b, i, TagV::Strong, c, TagEnd::Strong);
        },
        InlineV::Strike(c) => {
            lemma_inlines(opened(b, f), c, room - 1);
            lemma_filled(b, f, c);
            lemma_container(b, i, TagV::Strikethrough, c, TagEnd::Strikethrough);
        },
        InlineV::Superscript(c) => {
            lemma_inlines(opened(b, f), c, room - 1);
            lemma_filled(b, f, c);
            lemma_container(b, i, TagV::Superscript, c, TagEnd::Superscript);
        },
        InlineV::Subscript(c) => {
            lemma_inlines(opened(b, f), c, room - 1);
            lemma_filled(b, f, c);
            lemma_container(b, i, TagV::Subscript, c, TagEnd::Subscript);
        },
        InlineV::Link { dest, title, content } => {
            lemma_inlines(opened(b, f), content, room - 1);
            lemma_filled(b, f, content);
            lemma_title(title);
            lemma_container(
                b,
                i,
                TagV::Link { dest, title: title_text(title) },
                content,
                TagEnd::Link,
            );
        },
        InlineV::Image(img) => {
            let c = seq![InlineV::Text(img.alt)];
            lemma_title(img.title);
            lemma_plain_text(img.alt);
            lemma_events_of_text(img.alt);
            lemma_gain_one(opened(b, f), InlineV::Text(img.alt));
            lemma_after_one(opened(b, f), EventV::Text(img.alt));
            lemma_filled(b, f, c);
            lemma_container(
                b,
                i,
                TagV::Image { dest: img.url, title: title_text(img.title) },
                c,
                TagEnd::Image,
            );
        },
    }
}

proof fn lemma_filled_below(b: BuilderV, f: FrameV)
    ensures
        opened(b, f).stack.drop_last() == b.stack,
        opened(b, f).stack.last() == f,
        opened(b, f).stack.len() == b.stack.len() + 1,
{
    assert(opened(b, f).stack.drop_last() =~= b.stack);
}

proof fn lemma_title(title: Option<Seq<char>>)
    requires
        title != Some(Seq::<char>::empty()),
    ensures
        unless_empty(title_text(title)) == title,
{
    match title {
        Some(t) => {
            if t.len() == 0 {
                assert(t =~= Seq::empty());
            }
        },
        None => {},
    }
}

proof fn lemma_plain_text(t: Seq<char>)
    ensures
        plain(seq![InlineV::Text(t)]) == t,
{
    let s = seq![InlineV::Text(t)];
    assert(s.drop_last() =~= Seq::empty());
    assert(plain(Seq::<InlineV>::empty()) =~= Seq::empty());
    assert(plain_inline(s.last()) == t);
    assert(plain(s) =~= t);
}

proof fn lemma_events_of_text(t: Seq<char>)
    ensures
        inlines_events(seq![InlineV::Text(t)]) == seq![EventV::Text(t)],
{
    let s = seq![InlineV::Text(t)];
    assert(s.drop_last() =~= Seq::empty());
    let none = inlines_events(Seq::<InlineV>::empty());
    assert(none =~= Seq::empty());
    let own = inline_events(InlineV::Text(t));
    assert(own == seq![EventV::Text(t)]);
    assert(s.last() == InlineV::Text(t));
    assert(inlines_events(s) == none + own);
    assert(none + own =~= own);
}

proof fn lemma_inlines(b: BuilderV, s: Seq<InlineV>, room: int)
    requires
        in_content(b),
        b.suppressed == 0,
        inlines_fit(s, room),
        b.stack.len() + room <= MAX_DEPTH,
    ensures
        after_events(b, inlines_events(s)) == gaining(b, s),
    decreases s,
{
    if s.len() == 0 {
        assert(s =~= Seq::empty());
        lemma_gain_none(b);
    } else {
        lemma_inlines(b, s.drop_last(), room);
        lemma_after_both(b, inlines_events(s.drop_last()), inline_events(s.last()));
        let before = gaining(b, s.drop_last());
        lemma_gain_more(b, s.drop_last(), seq![s.last()]);
        lemma_inline(before, s.last(), room);
        lemma_gain_one(before, s.last());
        assert(s.drop_last() + seq![s.last()] =~= s);
    }
}

/// Inline content is read as what it was written as. Whatever node is open, and whatever
/// it holds already, the events of some inline content add exactly that content to it:
/// strong text as strong text, emphasised text as emphasised text, a link with its
/// destination, an image with its description, each with what it holds, in order.
/// Nothing else changes.
pub proof fn inline_content_is_read_back(b: BuilderV, s: Seq<InlineV>)
    requires
        in_content(b),
        b.suppressed == 0,
        b.stack.len() <= MAX_DEPTH,
        inlines_fit(s, MAX_DEPTH - b.stack.len()),
    ensures
        after_events(b, inlines_events(s)) == gaining(b, s),
{
    lemma_inlines(b, s, MAX_DEPTH - b.stack.len());
}

/// The frame and the node of each kind of marked text.
spec fn marked_frame(tag: TagV) -> FrameV {
    match tag {
        TagV::Strong => FrameV::Strong(Seq::empty()),
        TagV::Emphasis => FrameV::Emphasis(Seq::empty()),
        TagV::Strikethrough => FrameV::Strike(Seq::empty()),
        TagV::Superscript => FrameV::Superscript(Seq::empty()),
        _ => FrameV::Subscript(Seq::empty()),
    }
}

proof fn lemma_marked(b: BuilderV, tag: TagV, end: TagEnd, t: Seq<char>)
    requires
        b.suppressed == 0,
        b.stack.len() < MAX_DEPTH,
        started(b, tag) == opened(b, marked_frame(tag)),
        !ends_container(end),
    ensures
        after_events(b, node(tag, seq![EventV::Text(t)], end)) == closed_top(
            opened(b, holding(marked_frame(tag), seq![InlineV::Text(t)])),
        ),
        opened(b, holding(marked_frame(tag), seq![InlineV::Text(t)])).stack.drop_last() == b.stack,
        opened(b, holding(marked_frame(tag), seq![InlineV::Text(t)])).stack.last() == holding(
            marked_frame(tag),
            seq![InlineV::Text(t)],
        ),
{
    let f = marked_frame(tag);
    let one = seq![InlineV::Text(t)];
    lemma_filled_below(b, f);
    lemma_filled_below(b, holding(f, one));
    lemma_after_node(b, tag, seq![EventV::Text(t)], end);
    lemma_after_one(opened(b, f), EventV::Text(t));
    lemma_gain_one(opened(b, f), InlineV::Text(t));
    lemma_filled(b, f, one);
}

/// Marked text keeps its kind. Whatever node is open, strong text adds one strong node to
/// it that holds the text, and emphasised, struck, raised and lowered text one of theirs.
pub proof fn marked_text_keeps_its_kind(b: BuilderV, t: Seq<char>)
    requires
        in_content(b),
        b.suppressed == 0,
        b.stack.len() < MAX_DEPTH,
    ensures
        after_events(b, node(TagV::Strong, seq![EventV::Text(t)], TagEnd::Strong)) == gaining(
            b,
            seq![InlineV::Strong(seq![InlineV::Text(t)])],
        ),
        after_events(b, node(TagV::Emphasis, seq![EventV::Text(t)], TagEnd::Emphasis)) == gaining(
            b,
            seq![InlineV::Emph(seq![InlineV::Text(t)])],
        ),
        after_events(b, node(TagV::Strikethrough, seq![EventV::Text(t)], TagEnd::Strikethrough))
            == gaining(b, seq![InlineV::Strike(seq![InlineV::Text(t)])]),
        after_events(b, node(TagV::Superscript, seq![EventV::Text(t)], TagEnd::Superscript))
            == gaining(b, seq![InlineV::Superscript(seq![InlineV::Text(t)])]),
        after_events(b, node(TagV::Subscript, seq![EventV::Text(t)], TagEnd::Subscript))
            == gaining(b, seq![InlineV::Subscript(seq![InlineV::Text(t)])]),
{
    let one = seq![InlineV::Text(t)];
    lemma_gain_one(b, InlineV::Strong(one));
    lemma_gain_one(b, InlineV::Emph(one));
    lemma_gain_one(b, InlineV::Strike(one));
    lemma_gain_one(b, InlineV::Superscript(one));
    lemma_gain_one(b, InlineV::Subscript(one));
    lemma_marked(b, TagV::Strong, TagEnd::Strong, t);
    lemma_marked(b, TagV::Emphasis, TagEnd::Emphasis, t);
    lemma_marked(b, TagV::Strikethrough, TagEnd::Strikethrough, t);
    lemma_marked(b, TagV::Superscript, TagEnd::Superscript, t);
    lemma_marked(b, TagV::Subscript, TagEnd::Subscript, t);
}

// --- blocks ---------------------------------------------------------------------------------

/// True of a block that is inline content standing by itself.
pub open spec fn is_text(b: BlockV) -> bool {
    b is Paragraph || b is Figure
}

/// True where some block is inline content standing by itself.
pub open spec fn any_text(s: Seq<BlockV>) -> bool
    decreases s.len(),
{
    s.len() > 0 && (any_text(s.drop_last()) || is_text(s.last()))
}

/// A paragraph's events. In a tight list nothing says where it begins and ends.
pub open spec fn paragraph_events(inner: Seq<EventV>, tight: bool) -> Seq<EventV> {
    if tight {
        inner
    } else {
        node(TagV::Paragraph, inner, TagEnd::Paragraph)
    }
}

/// Blocks as events.
pub open spec fn blocks_events(s: Seq<BlockV>, tight: bool) -> Seq<EventV>
    decreases s,
{
    if s.len() == 0 {
        Seq::empty()
    } else {
        blocks_events(s.drop_last(), tight) + block_events(s.last(), tight)
    }
}

/// One block as events.
pub open spec fn block_events(b: BlockV, tight: bool) -> Seq<EventV>
    decreases b,
{
    match b {
        BlockV::Paragraph(s) => paragraph_events(inlines_events(s), tight),
        BlockV::Figure { image, .. } => paragraph_events(
            inlines_events(seq![InlineV::Image(image)]),
            tight,
        ),
        BlockV::Heading { level, id, content } => node(
            TagV::Heading { level, id: Some(id) },
            inlines_events(content),
            TagEnd::Heading,
        ),
        BlockV::CodeBlock { language, code } => node(
            TagV::CodeBlock(language),
            seq![EventV::Text(code.push('\n'))],
            TagEnd::CodeBlock,
        ),
        BlockV::BlockQuote { kind, blocks } => node(
            TagV::BlockQuote(kind),
            blocks_events(blocks, false),
            TagEnd::BlockQuote,
        ),
        BlockV::List(l) => node(
            TagV::List(l.start),
            items_events(l.items, l.tight),
            TagEnd::List,
        ),
        BlockV::Table(t) => node(TagV::Table(t.alignments), table_events(t), TagEnd::Table),
        BlockV::Rule => seq![EventV::Rule],
        BlockV::DisplayMath(t) => seq![EventV::DisplayMath(t)],
        BlockV::DefinitionList(terms) => node(
            TagV::DefinitionList,
            terms_events(terms),
            TagEnd::DefinitionList,
        ),
        BlockV::Html(_) | BlockV::FootnoteDefinition { .. } => Seq::empty(),
    }
}

/// The mark of a task.
pub open spec fn task_events(task: Option<bool>) -> Seq<EventV> {
    match task {
        Some(done) => seq![EventV::TaskListMarker(done)],
        None => Seq::empty(),
    }
}

pub open spec fn items_events(s: Seq<ListItemV>, tight: bool) -> Seq<EventV>
    decreases s,
{
    if s.len() == 0 {
        Seq::empty()
    } else {
        items_events(s.drop_last(), tight) + node(
            TagV::Item,
            task_events(s.last().task) + blocks_events(s.last().blocks, tight),
            TagEnd::Item,
        )
    }
}

pub open spec fn cells_events(s: Seq<Seq<InlineV>>) -> Seq<EventV>
    decreases s.len(),
{
    if s.len() == 0 {
        Seq::empty()
    } else {
        cells_events(s.drop_last()) + node(
            TagV::TableCell,
            inlines_events(s.last()),
            TagEnd::TableCell,
        )
    }
}

pub open spec fn rows_events(s: Seq<Seq<Seq<InlineV>>>) -> Seq<EventV>
    decreases s.len(),
{
    if s.len() == 0 {
        Seq::empty()
    } else {
        rows_events(s.drop_last()) + node(
            TagV::TableRow,
            cells_events(s.last()),
            TagEnd::TableRow,
        )
    }
}

pub open spec fn table_events(t: TableV) -> Seq<EventV> {
    node(TagV::TableHead, cells_events(t.head), TagEnd::TableHead) + rows_events(t.rows)
}

pub open spec fn bodies_events(s: Seq<Seq<BlockV>>) -> Seq<EventV>
    decreases s,
{
    if s.len() == 0 {
        Seq::empty()
    } else {
        bodies_events(s.drop_last()) + node(
            TagV::DefinitionListDefinition,
            blocks_events(s.last(), false),
            TagEnd::DefinitionListDefinition,
        )
    }
}

pub open spec fn terms_events(s: Seq<(Seq<InlineV>, Seq<Seq<BlockV>>)>) -> Seq<EventV>
    decreases s,
{
    if s.len() == 0 {
        Seq::empty()
    } else {
        terms_events(s.drop_last()) + (node(
            TagV::DefinitionListTitle,
            inlines_events(s.last().0),
            TagEnd::DefinitionListTitle,
        ) + bodies_events(s.last().1))
    }
}

// --- what can be written ----------------------------------------------------------------------

/// True of inline content that shows nothing.
pub open spec fn inkless(i: InlineV) -> bool {
    match i {
        InlineV::Text(t) => text::all_space(t),
        InlineV::SoftBreak => true,
        InlineV::HardBreak => true,
        _ => false,
    }
}

/// What shows of inline content.
pub open spec fn visible(s: Seq<InlineV>) -> Seq<InlineV>
    decreases s.len(),
{
    if s.len() == 0 {
        Seq::empty()
    } else if inkless(s.last()) {
        visible(s.drop_last())
    } else {
        visible(s.drop_last()).push(s.last())
    }
}

/// True of a language as an info string can name it: one word, without the signs that
/// end it.
pub open spec fn is_language(l: Seq<char>) -> bool {
    &&& l.len() > 0
    &&& forall|k: int|
        0 <= k < l.len() ==> #[trigger] l[k] != ',' && l[k] != ' ' && l[k] != '\t' && l[k] != '{'
    &&& !text::is_space(l[0])
    &&& !text::is_space(l[l.len() - 1])
}

/// True of blocks that events can carry, within `room` levels. In a tight list two
/// paragraphs cannot follow each other.
pub open spec fn blocks_fit(s: Seq<BlockV>, room: int, tight: bool) -> bool
    decreases s,
{
    s.len() == 0 || {
        &&& blocks_fit(s.drop_last(), room, tight)
        &&& block_fits(s.last(), room)
        &&& tight && s.len() > 1 && is_text(s.last()) ==> !is_text(s[s.len() - 2])
    }
}

pub open spec fn block_fits(b: BlockV, room: int) -> bool
    decreases b,
{
    room >= 1 && match b {
        // Blank paragraphs do not show, and a picture by itself is a figure.
        BlockV::Paragraph(s) => inlines_fit(s, room - 1) && visible(s).len() > 0 && !(visible(s).len()
            == 1 && visible(s)[0] is Image),
        BlockV::Figure { image, caption } => inline_fits(InlineV::Image(image), room - 1)
            && caption == (if image.alt.len() == 0 {
            Seq::empty()
        } else {
            seq![InlineV::Text(image.alt)]
        }),
        BlockV::Heading { content, .. } => inlines_fit(content, room - 1),
        BlockV::CodeBlock { language, .. } => language matches Some(l) ==> is_language(l),
        BlockV::BlockQuote { blocks, .. } => blocks_fit(blocks, room - 1, false),
        // A list is loose where a paragraph in it is.
        BlockV::List(l) => items_fit(l.items, room - 1, l.tight) && (!l.tight ==> loose_items(
            l.items,
        )),
        BlockV::Table(t) => room >= 3 && cells_fit(t.head, room - 3) && rows_fit(t.rows, room - 3),
        BlockV::Rule => true,
        BlockV::DisplayMath(_) => true,
        BlockV::DefinitionList(terms) => room >= 2 && terms_fit(terms, room - 2),
        BlockV::Html(_) | BlockV::FootnoteDefinition { .. } => false,
    }
}

pub open spec fn items_fit(s: Seq<ListItemV>, room: int, tight: bool) -> bool
    decreases s,
{
    s.len() == 0 || (items_fit(s.drop_last(), room, tight) && room >= 2 && blocks_fit(
        s.last().blocks,
        room - 2,
        tight,
    ))
}

/// True where an item holds a paragraph of its own.
pub open spec fn loose_items(s: Seq<ListItemV>) -> bool
    decreases s.len(),
{
    s.len() > 0 && (loose_items(s.drop_last()) || any_text(s.last().blocks))
}

pub open spec fn cells_fit(s: Seq<Seq<InlineV>>, room: int) -> bool
    decreases s.len(),
{
    s.len() == 0 || (cells_fit(s.drop_last(), room) && inlines_fit(s.last(), room))
}

pub open spec fn rows_fit(s: Seq<Seq<Seq<InlineV>>>, room: int) -> bool
    decreases s.len(),
{
    s.len() == 0 || (rows_fit(s.drop_last(), room) && cells_fit(s.last(), room))
}

pub open spec fn bodies_fit(s: Seq<Seq<BlockV>>, room: int) -> bool
    decreases s,
{
    s.len() == 0 || (bodies_fit(s.drop_last(), room) && blocks_fit(s.last(), room, false))
}

pub open spec fn terms_fit(s: Seq<(Seq<InlineV>, Seq<Seq<BlockV>>)>, room: int) -> bool
    decreases s,
{
    s.len() == 0 || (terms_fit(s.drop_last(), room) && inlines_fit(s.last().0, room)
        && bodies_fit(s.last().1, room))
}

// --- reading blocks back ------------------------------------------------------------------------

/// True of a half-built node that holds blocks.
spec fn holds_blocks(f: FrameV) -> bool {
    f is Item || f is BlockQuote || f is FootnoteDefinition || f is DefinitionBody
}

/// True of a builder that is between two blocks.
spec fn between_blocks(b: BuilderV) -> bool {
    b.stack.len() > 0 ==> holds_blocks(b.stack.last())
}

/// A half-built node with blocks added, and made loose where they ask for it.
spec fn with_more(f: FrameV, s: Seq<BlockV>, loosen: bool) -> FrameV {
    match f {
        FrameV::Item { task, blocks, loose } => FrameV::Item {
            task,
            blocks: blocks + s,
            loose: loose || loosen,
        },
        FrameV::BlockQuote { kind, blocks } => FrameV::BlockQuote { kind, blocks: blocks + s },
        FrameV::FootnoteDefinition { label, blocks } => FrameV::FootnoteDefinition {
            label,
            blocks: blocks + s,
        },
        FrameV::DefinitionBody(blocks) => FrameV::DefinitionBody(blocks + s),
        other => other,
    }
}

/// A builder whose innermost node, or whose document, has blocks added to it.
spec fn growing(b: BuilderV, s: Seq<BlockV>, loosen: bool) -> BuilderV {
    if b.stack.len() == 0 {
        BuilderV { blocks: b.blocks + s, ..b }
    } else {
        BuilderV {
            stack: b.stack.drop_last().push(with_more(b.stack.last(), s, loosen)),
            ..b
        }
    }
}

proof fn lemma_grow_none(b: BuilderV)
    requires
        between_blocks(b),
    ensures
        growing(b, Seq::empty(), false) == b,
{
    let none = Seq::<BlockV>::empty();
    assert(forall|x: Seq<BlockV>| #[trigger] (x + none) =~= x);
    if b.stack.len() > 0 {
        assert(with_more(b.stack.last(), none, false) == b.stack.last());
        assert(growing(b, none, false).stack =~= b.stack);
    }
}

proof fn lemma_grow_more(b: BuilderV, s: Seq<BlockV>, x: BlockV, one: bool, two: bool)
    requires
        between_blocks(b),
    ensures
        growing(growing(b, s, one), seq![x], two) == growing(b, s.push(x), one || two),
        between_blocks(growing(b, s, one)),
        growing(b, s, one).stack.len() == b.stack.len(),
{
    assert forall|y: Seq<BlockV>| #[trigger] (y + s.push(x)) == (y + s) + seq![x] by {
        assert(y + s.push(x) =~= (y + s) + seq![x]);
    }
    if b.stack.len() > 0 {
        let l = growing(growing(b, s, one), seq![x], two).stack;
        let r = growing(b, s.push(x), one || two).stack;
        assert(l.last() == r.last());
        assert(l =~= r);
    }
}

/// A finished block goes to the innermost node that holds blocks.
proof fn lemma_placed(b: BuilderV, x: BlockV)
    requires
        between_blocks(b),
    ensures
        placed(b, x) == growing(b, seq![x], false),
        closed_implicit(b) == b,
{
    assert forall|y: Seq<BlockV>| #[trigger] y.push(x) == y + seq![x] by {
        assert(y.push(x) =~= y + seq![x]);
    }
    if b.stack.len() > 0 {
        assert(container(b.stack, b.stack.len() as int) == b.stack.len() - 1);
        assert(placed(b, x).stack =~= growing(b, seq![x], false).stack);
    }
}

proof fn lemma_visible(s: Seq<InlineV>)
    ensures
        meaningful(s) == visible(s),
    decreases s.len(),
{
    reveal(Seq::filter);
    let f = |i: InlineV| !blank(i);
    if s.len() > 0 {
        lemma_visible(s.drop_last());
        assert(s.filter(f) == if f(s.last()) {
            s.drop_last().filter(f).push(s.last())
        } else {
            s.drop_last().filter(f)
        });
    } else {
        assert(s.filter(f) =~= Seq::empty());
    }
}

/// What a block that is inline content by itself holds.
spec fn text_of(b: BlockV) -> Seq<InlineV> {
    match b {
        BlockV::Paragraph(s) => s,
        BlockV::Figure { image, .. } => seq![InlineV::Image(image)],
        _ => Seq::empty(),
    }
}

proof fn lemma_text_block(x: BlockV, room: int)
    requires
        is_text(x),
        block_fits(x, room),
    ensures
        paragraph_of(text_of(x)) == Some(x),
        inlines_fit(text_of(x), room - 1),
        text_of(x).len() > 0,
        forall|tight: bool| #[trigger] block_events(x, tight) == paragraph_events(
            inlines_events(text_of(x)),
            tight,
        ),
{
    lemma_visible(text_of(x));
    match x {
        BlockV::Figure { image, caption } => {
            let s = seq![InlineV::Image(image)];
            assert(s.drop_last() =~= Seq::empty());
            assert(visible(s.drop_last()) =~= Seq::empty());
            assert(visible(s) =~= s);
            assert(inlines_fit(s.drop_last(), room - 1));
        },
        BlockV::Paragraph(s) => {
            if s.len() == 0 {
                assert(visible(s).len() == 0);
            }
        },
        _ => {},
    }
}

/// A paragraph with its own start and end.
proof fn lemma_paragraph(b: BuilderV, x: BlockV, room: int)
    requires
        between_blocks(b),
        b.suppressed == 0,
        is_text(x),
        block_fits(x, room),
        b.stack.len() + room <= MAX_DEPTH,
    ensures
        after_events(b, block_events(x, false)) == growing(b, seq![x], true),
{
    let s = text_of(x);
    lemma_text_block(x, room);
    assert(block_events(x, false) == node(TagV::Paragraph, inlines_events(s), TagEnd::Paragraph));
    lemma_after_node(b, TagV::Paragraph, inlines_events(s), TagEnd::Paragraph);
    lemma_placed(b, x);
    // The item around it is loose from here on.
    let l = growing(b, Seq::empty(), true);
    let d = after_event(b, EventV::Start(TagV::Paragraph));
    let f = FrameV::Paragraph { inlines: Seq::empty(), implicit: false };
    assert(forall|y: Seq<BlockV>| #[trigger] (y + Seq::<BlockV>::empty()) =~= y);
    assert(d.stack =~= opened(l, f).stack);
    assert(d == opened(l, f));
    lemma_inlines(d, s, room - 1);
    lemma_filled(l, f, s);
    lemma_filled_below(l, holding(f, s));
    let below = BuilderV { stack: opened(l, holding(f, s)).stack.drop_last(), ..l };
    assert(below == l);
    lemma_placed(l, x);
    lemma_grow_more(b, Seq::empty(), x, true, false);
    assert(Seq::<BlockV>::empty().push(x) =~= seq![x]);
}

/// A paragraph that is left open, as in a tight list.
proof fn lemma_open_text(b: BuilderV, s: Seq<InlineV>, room: int)
    requires
        between_blocks(b),
        b.suppressed == 0,
        s.len() > 0,
        inlines_fit(s, room - 1),
        b.stack.len() + room <= MAX_DEPTH,
    ensures
        after_events(b, inlines_events(s)) == opened(
            b,
            FrameV::Paragraph { inlines: s, implicit: true },
        ),
    decreases s.len(),
{
    let d = s.drop_last();
    let i = s.last();
    lemma_after_both(b, inlines_events(d), inline_events(i));
    if d.len() == 0 {
        assert(d =~= Seq::empty());
        assert(after_events(b, inlines_events(d)) == b);
        lemma_inline(b, i, room - 1);
        assert(s =~= seq![i]);
    } else {
        lemma_open_text(b, d, room);
        let p = opened(b, FrameV::Paragraph { inlines: d, implicit: true });
        lemma_filled_below(b, FrameV::Paragraph { inlines: d, implicit: true });
        lemma_inline(p, i, room - 1);
        lemma_gain_one(p, i);
        assert(d + seq![i] =~= s);
        assert(gaining(p, seq![i]).stack =~= opened(
            b,
            FrameV::Paragraph { inlines: s, implicit: true },
        ).stack);
    }
}

/// A node that holds inline content and becomes a block.
proof fn lemma_content_block(
    b: BuilderV,
    tag: TagV,
    f: FrameV,
    s: Seq<InlineV>,
    end: TagEnd,
    room: int,
)
    requires
        b.suppressed == 0,
        b.stack.len() < MAX_DEPTH,
        content_of(f) == Some(Seq::<InlineV>::empty()),
        started(b, tag) == opened(b, f),
        !ends_container(end),
        inlines_fit(s, room),
        b.stack.len() + 1 + room <= MAX_DEPTH,
    ensures
        after_events(b, node(tag, inlines_events(s), end)) == closed_top(
            opened(b, holding(f, s)),
        ),
        opened(b, holding(f, s)).stack.drop_last() == b.stack,
        opened(b, holding(f, s)).stack.last() == holding(f, s),
{
    lemma_after_node(b, tag, inlines_events(s), end);
    lemma_inlines(opened(b, f), s, room);
    lemma_filled(b, f, s);
    lemma_filled_below(b, holding(f, s));
}

proof fn lemma_language(language: Option<Seq<char>>)
    requires
        language matches Some(l) ==> is_language(l),
    ensures
        language_of(language) == language,
{
    match language {
        Some(l) => {
            lemma_language_end(l, 0);
            assert(l.subrange(0, l.len() as int) =~= l);
        },
        None => {},
    }
}

proof fn lemma_language_end(l: Seq<char>, k: int)
    requires
        is_language(l),
        0 <= k <= l.len(),
    ensures
        language_end(l, k) == l.len(),
    decreases l.len() - k,
{
    if k < l.len() {
        lemma_language_end(l, k + 1);
    }
}

proof fn lemma_cells(b: BuilderV, cells: Seq<Seq<InlineV>>, s: Seq<Seq<InlineV>>, room: int)
    requires
        b.suppressed == 0,
        cells_fit(s, room),
        0 <= room,
        b.stack.len() + 2 + room <= MAX_DEPTH,
    ensures
        after_events(opened(b, FrameV::TableRow { cells }), cells_events(s)) == opened(
            b,
            FrameV::TableRow { cells: cells + s },
        ),
    decreases s.len(),
{
    if s.len() == 0 {
        assert(cells + s =~= cells);
    } else {
        let d = s.drop_last();
        lemma_cells(b, cells, d, room);
        let row = opened(b, FrameV::TableRow { cells: cells + d });
        lemma_after_both(
            opened(b, FrameV::TableRow { cells }),
            cells_events(d),
            node(TagV::TableCell, inlines_events(s.last()), TagEnd::TableCell),
        );
        let f = FrameV::TableCell { inlines: Seq::empty() };
        lemma_filled_below(b, FrameV::TableRow { cells: cells + d });
        lemma_content_block(row, TagV::TableCell, f, s.last(), TagEnd::TableCell, room);
        assert((cells + d).push(s.last()) =~= cells + s);
        assert(closed_top(opened(row, holding(f, s.last()))).stack =~= opened(
            b,
            FrameV::TableRow { cells: cells + s },
        ).stack);
    }
}

/// One row of a table, or its head.
proof fn lemma_row(b: BuilderV, t: TableV, head: bool, cells: Seq<Seq<InlineV>>, room: int)
    requires
        b.suppressed == 0,
        cells_fit(cells, room),
        0 <= room,
        b.stack.len() + 3 + room <= MAX_DEPTH,
    ensures
        ({
            let before = opened(
                b,
                FrameV::Table {
                    alignments: t.alignments,
                    head: t.head,
                    rows: t.rows,
                    in_head: false,
                },
            );
            after_events(
                before,
                if head {
                    node(TagV::TableHead, cells_events(cells), TagEnd::TableHead)
                } else {
                    node(TagV::TableRow, cells_events(cells), TagEnd::TableRow)
                },
            ) == opened(
                b,
                FrameV::Table {
                    alignments: t.alignments,
                    head: if head {
                        cells
                    } else {
                        t.head
                    },
                    rows: if head {
                        t.rows
                    } else {
                        t.rows.push(cells)
                    },
                    in_head: false,
                },
            )
        }),
{
    let f = FrameV::Table {
        alignments: t.alignments,
        head: t.head,
        rows: t.rows,
        in_head: false,
    };
    let g = FrameV::Table { alignments: t.alignments, head: t.head, rows: t.rows, in_head: true };
    let before = opened(b, f);
    lemma_filled_below(b, f);
    lemma_filled_below(b, g);
    let none = Seq::<Seq<InlineV>>::empty();
    let (tag, end, under) = if head {
        (TagV::TableHead, TagEnd::TableHead, opened(b, g))
    } else {
        (TagV::TableRow, TagEnd::TableRow, before)
    };
    lemma_after_node(before, tag, cells_events(cells), end);
    let row = after_event(before, EventV::Start(tag));
    assert(row.stack =~= opened(under, FrameV::TableRow { cells: none }).stack);
    lemma_cells(under, none, cells, room);
    assert(none + cells =~= cells);
    let full = opened(under, FrameV::TableRow { cells });
    lemma_filled_below(under, FrameV::TableRow { cells });
    let after = after_event(full, EventV::End(end));
    let want = opened(
        b,
        FrameV::Table {
            alignments: t.alignments,
            head: if head {
                cells
            } else {
                t.head
            },
            rows: if head {
                t.rows
            } else {
                t.rows.push(cells)
            },
            in_head: false,
        },
    );
    assert(after.stack =~= want.stack);
}

proof fn lemma_rows(b: BuilderV, t: TableV, s: Seq<Seq<Seq<InlineV>>>, room: int)
    requires
        b.suppressed == 0,
        rows_fit(s, room),
        0 <= room,
        b.stack.len() + 3 + room <= MAX_DEPTH,
    ensures
        ({
            let before = opened(
                b,
                FrameV::Table {
                    alignments: t.alignments,
                    head: t.head,
                    rows: t.rows,
                    in_head: false,
                },
            );
            after_events(before, rows_events(s)) == opened(
                b,
                FrameV::Table {
                    alignments: t.alignments,
                    head: t.head,
                    rows: t.rows + s,
                    in_head: false,
                },
            )
        }),
    decreases s.len(),
{
    let before = opened(
        b,
        FrameV::Table { alignments: t.alignments, head: t.head, rows: t.rows, in_head: false },
    );
    if s.len() == 0 {
        assert(t.rows + s =~= t.rows);
    } else {
        let d = s.drop_last();
        lemma_rows(b, t, d, room);
        lemma_after_both(
            before,
            rows_events(d),
            node(TagV::TableRow, cells_events(s.last()), TagEnd::TableRow),
        );
        lemma_row(b, TableV { rows: t.rows + d, ..t }, false, s.last(), room);
        assert((t.rows + d).push(s.last()) =~= t.rows + s);
    }
}

/// A block begins the same whether or not a paragraph was left open before it.
proof fn lemma_same_start(c: BuilderV, x: BlockV, tight: bool, room: int)
    requires
        !is_text(x),
        block_fits(x, room),
        c.suppressed == 0,
        closed_implicit(c).suppressed == 0,
        c.stack.len() < MAX_DEPTH,
        closed_implicit(c).stack.len() < MAX_DEPTH,
        between_blocks(closed_implicit(c)),
    ensures
        after_events(c, block_events(x, tight)) == after_events(
            closed_implicit(c),
            block_events(x, false),
        ),
{
    let d = closed_implicit(c);
    lemma_placed(d, x);
    match x {
        BlockV::Heading { level, id, content } => {
            let tag = TagV::Heading { level, id: Some(id) };
            lemma_after_node(c, tag, inlines_events(content), TagEnd::Heading);
            lemma_after_node(d, tag, inlines_events(content), TagEnd::Heading);
        },
        BlockV::CodeBlock { language, code } => {
            let tag = TagV::CodeBlock(language);
            let inner = seq![EventV::Text(code.push('\n'))];
            lemma_after_node(c, tag, inner, TagEnd::CodeBlock);
            lemma_after_node(d, tag, inner, TagEnd::CodeBlock);
        },
        BlockV::BlockQuote { kind, blocks } => {
            let tag = TagV::BlockQuote(kind);
            lemma_after_node(c, tag, blocks_events(blocks, false), TagEnd::BlockQuote);
            lemma_after_node(d, tag, blocks_events(blocks, false), TagEnd::BlockQuote);
        },
        BlockV::List(l) => {
            let tag = TagV::List(l.start);
            lemma_after_node(c, tag, items_events(l.items, l.tight), TagEnd::List);
            lemma_after_node(d, tag, items_events(l.items, l.tight), TagEnd::List);
        },
        BlockV::Table(t) => {
            let tag = TagV::Table(t.alignments);
            lemma_after_node(c, tag, table_events(t), TagEnd::Table);
            lemma_after_node(d, tag, table_events(t), TagEnd::Table);
        },
        BlockV::DefinitionList(terms) => {
            let tag = TagV::DefinitionList;
            lemma_after_node(c, tag, terms_events(terms), TagEnd::DefinitionList);
            lemma_after_node(d, tag, terms_events(terms), TagEnd::DefinitionList);
        },
        BlockV::Rule => {
            lemma_after_one(c, EventV::Rule);
            lemma_after_one(d, EventV::Rule);
        },
        BlockV::DisplayMath(t) => {
            lemma_after_one(c, EventV::DisplayMath(t));
            lemma_after_one(d, EventV::DisplayMath(t));
        },
        _ => {},
    }
}

/// What a node that holds blocks has at its end.
proof fn lemma_grown(b: BuilderV, f: FrameV, s: Seq<BlockV>, loosen: bool)
    requires
        holds_blocks(f),
    ensures
        growing(opened(b, f), s, loosen) == opened(b, with_more(f, s, loosen)),
        between_blocks(opened(b, f)),
        opened(b, with_more(f, s, loosen)).stack.drop_last() == b.stack,
        opened(b, with_more(f, s, loosen)).stack.last() == with_more(f, s, loosen),
        closed_implicit(opened(b, with_more(f, s, loosen))) == opened(b, with_more(f, s, loosen)),
{
    lemma_filled_below(b, f);
    lemma_filled_below(b, with_more(f, s, loosen));
    assert(growing(opened(b, f), s, loosen).stack =~= opened(b, with_more(f, s, loosen)).stack);
}

proof fn lemma_last_fits(s: Seq<BlockV>, room: int, tight: bool)
    requires
        blocks_fit(s, room, tight),
        s.len() > 0,
    ensures
        blocks_fit(s.drop_last(), room, tight),
        block_fits(s.last(), room),
        room >= 1,
        tight && s.len() > 1 && is_text(s.last()) ==> !is_text(s[s.len() - 2]),
{
    assert(block_fits(s.last(), room));
}

proof fn lemma_blocks(b: BuilderV, s: Seq<BlockV>, room: int)
    requires
        between_blocks(b),
        b.suppressed == 0,
        blocks_fit(s, room, false),
        b.stack.len() + room <= MAX_DEPTH,
    ensures
        after_events(b, blocks_events(s, false)) == growing(b, s, any_text(s)),
    decreases s,
{
    if s.len() == 0 {
        assert(s =~= Seq::empty());
        lemma_grow_none(b);
    } else {
        let d = s.drop_last();
        let x = s.last();
        lemma_last_fits(s, room, false);
        lemma_blocks(b, d, room);
        lemma_after_both(b, blocks_events(d, false), block_events(x, false));
        let c = growing(b, d, any_text(d));
        lemma_grow_more(b, d, x, any_text(d), is_text(x));
        lemma_block(c, x, room);
        assert(d.push(x) =~= s);
    }
}

proof fn lemma_tight(b: BuilderV, s: Seq<BlockV>, room: int)
    requires
        between_blocks(b),
        b.suppressed == 0,
        blocks_fit(s, room, true),
        b.stack.len() + 1 + room <= MAX_DEPTH,
    ensures
        closed_implicit(after_events(b, blocks_events(s, true))) == growing(b, s, false),
        ({
            let c = after_events(b, blocks_events(s, true));
            &&& c.suppressed == 0
            &&& c.stack.len() <= b.stack.len() + 1
            &&& s.len() == 0 || !is_text(s.last()) ==> c == growing(b, s, false)
        }),
    decreases s,
{
    let c = after_events(b, blocks_events(s, true));
    if s.len() == 0 {
        assert(s =~= Seq::empty());
        lemma_grow_none(b);
        lemma_placed(b, BlockV::Rule);
    } else {
        let d = s.drop_last();
        let x = s.last();
        lemma_last_fits(s, room, true);
        lemma_tight(b, d, room);
        lemma_after_both(b, blocks_events(d, true), block_events(x, true));
        let before = after_events(b, blocks_events(d, true));
        let g = growing(b, d, false);
        lemma_grow_more(b, d, x, false, false);
        assert(d.push(x) =~= s);
        lemma_placed(g, x);
        if is_text(x) {
            if d.len() > 0 {
                assert(s[s.len() - 2] == d.last());
            }
            assert(before == g);
            let t = text_of(x);
            lemma_text_block(x, room);
            assert(block_events(x, true) == inlines_events(t));
            lemma_open_text(g, t, room);
            let f = FrameV::Paragraph { inlines: t, implicit: true };
            lemma_filled_below(g, f);
            assert(c == opened(g, f));
            assert((BuilderV { stack: c.stack.drop_last(), ..c }) == g);
        } else {
            assert(before.stack.len() <= b.stack.len() + 1);
            lemma_same_start(before, x, true, room);
            lemma_block(g, x, room);
            let after = growing(b, s, false);
            lemma_grow_more(b, s, x, false, false);
            lemma_placed(after, x);
        }
    }
}

#[verifier::rlimit(40)]
proof fn lemma_items(
    b: BuilderV,
    start: Option<u64>,
    done: Seq<ListItemV>,
    s: Seq<ListItemV>,
    tight: bool,
    room: int,
)
    requires
        b.suppressed == 0,
        items_fit(s, room, tight),
        b.stack.len() + 1 + room <= MAX_DEPTH,
    ensures
        after_events(
            opened(b, FrameV::List { start, items: done, tight: true }),
            items_events(s, tight),
        ) == opened(
            b,
            FrameV::List { start, items: done + s, tight: tight || !loose_items(s) },
        ),
    decreases s,
{
    let before = opened(b, FrameV::List { start, items: done, tight: true });
    if s.len() == 0 {
        assert(done + s =~= done);
    } else {
        let d = s.drop_last();
        let x = s.last();
        lemma_items(b, start, done, d, tight, room);
        let lf = FrameV::List { start, items: done + d, tight: tight || !loose_items(d) };
        let l = opened(b, lf);
        lemma_filled_below(b, lf);
        let inner = task_events(x.task) + blocks_events(x.blocks, tight);
        lemma_after_both(before, items_events(d, tight), node(TagV::Item, inner, TagEnd::Item));
        lemma_after_node(l, TagV::Item, inner, TagEnd::Item);
        let none = Seq::<BlockV>::empty();
        let bare = FrameV::Item { task: None, blocks: none, loose: false };
        let f = FrameV::Item { task: x.task, blocks: none, loose: false };
        let i = opened(l, f);
        lemma_filled_below(l, bare);
        lemma_filled_below(l, f);
        lemma_after_both(opened(l, bare), task_events(x.task), blocks_events(x.blocks, tight));
        match x.task {
            Some(done) => {
                lemma_after_one(opened(l, bare), EventV::TaskListMarker(done));
                let st = opened(l, bare).stack;
                assert(item_frame(st, st.len() as int) == st.len() - 1);
                assert(after_event(opened(l, bare), EventV::TaskListMarker(done)).stack
                    =~= i.stack);
            },
            None => {
                assert(after_events(opened(l, bare), task_events(x.task)) == opened(l, bare));
            },
        }
        assert(after_events(opened(l, bare), task_events(x.task)) == i);
        let loosen = !tight && any_text(x.blocks);
        if tight {
            lemma_tight(i, x.blocks, room - 2);
        } else {
            lemma_blocks(i, x.blocks, room - 2);
        }
        lemma_grown(l, f, x.blocks, loosen);
        assert(none + x.blocks =~= x.blocks);
        let c = after_events(i, blocks_events(x.blocks, tight));
        let full = opened(l, FrameV::Item { task: x.task, blocks: x.blocks, loose: loosen });
        assert(closed_implicit(c) == full);
        assert(c.suppressed == 0);
        let after = closed_top(full);
        assert((done + d).push(x) =~= done + s);
        let want = opened(
            b,
            FrameV::List { start, items: done + s, tight: tight || !loose_items(s) },
        );
        assert(ListItemV { task: x.task, blocks: x.blocks } == x);
        assert(after.stack =~= want.stack);
    }
}

proof fn lemma_bodies(
    b: BuilderV,
    done: Seq<(Seq<InlineV>, Seq<Seq<BlockV>>)>,
    title: Seq<InlineV>,
    s: Seq<Seq<BlockV>>,
    room: int,
)
    requires
        b.suppressed == 0,
        bodies_fit(s, room),
        0 <= room,
        b.stack.len() + 2 + room <= MAX_DEPTH,
    ensures
        after_events(
            opened(b, FrameV::DefinitionList { terms: done.push((title, Seq::empty())) }),
            bodies_events(s),
        ) == opened(b, FrameV::DefinitionList { terms: done.push((title, s)) }),
    decreases s,
{
    let none = Seq::<Seq<BlockV>>::empty();
    let before = opened(b, FrameV::DefinitionList { terms: done.push((title, none)) });
    if s.len() == 0 {
        assert(s =~= none);
    } else {
        let d = s.drop_last();
        let x = s.last();
        lemma_bodies(b, done, title, d, room);
        let lf = FrameV::DefinitionList { terms: done.push((title, d)) };
        let l = opened(b, lf);
        lemma_filled_below(b, lf);
        let end = TagEnd::DefinitionListDefinition;
        lemma_after_both(
            before,
            bodies_events(d),
            node(TagV::DefinitionListDefinition, blocks_events(x, false), end),
        );
        lemma_after_node(l, TagV::DefinitionListDefinition, blocks_events(x, false), end);
        let f = FrameV::DefinitionBody(Seq::empty());
        lemma_filled_below(l, f);
        lemma_blocks(opened(l, f), x, room);
        lemma_grown(l, f, x, any_text(x));
        assert(Seq::<BlockV>::empty() + x =~= x);
        let after = closed_top(opened(l, FrameV::DefinitionBody(x)));
        let want = opened(b, FrameV::DefinitionList { terms: done.push((title, s)) });
        assert(d.push(x) =~= s);
        assert(done.push((title, d)).drop_last() =~= done);
        assert(after.stack =~= want.stack);
    }
}

proof fn lemma_terms(
    b: BuilderV,
    s: Seq<(Seq<InlineV>, Seq<Seq<BlockV>>)>,
    room: int,
)
    requires
        b.suppressed == 0,
        terms_fit(s, room),
        0 <= room,
        b.stack.len() + 2 + room <= MAX_DEPTH,
    ensures
        after_events(
            opened(b, FrameV::DefinitionList { terms: Seq::empty() }),
            terms_events(s),
        ) == opened(b, FrameV::DefinitionList { terms: s }),
    decreases s,
{
    let before = opened(b, FrameV::DefinitionList { terms: Seq::empty() });
    if s.len() == 0 {
        assert(s =~= Seq::empty());
    } else {
        let d = s.drop_last();
        let x = s.last();
        lemma_terms(b, d, room);
        let l = opened(b, FrameV::DefinitionList { terms: d });
        lemma_filled_below(b, FrameV::DefinitionList { terms: d });
        let end = TagEnd::DefinitionListTitle;
        let first = node(TagV::DefinitionListTitle, inlines_events(x.0), end);
        lemma_after_both(before, terms_events(d), first + bodies_events(x.1));
        lemma_after_both(l, first, bodies_events(x.1));
        let f = FrameV::DefinitionTitle(Seq::empty());
        lemma_content_block(l, TagV::DefinitionListTitle, f, x.0, end, room);
        let titled = opened(
            b,
            FrameV::DefinitionList { terms: d.push((x.0, Seq::<Seq<BlockV>>::empty())) },
        );
        assert(closed_top(opened(l, FrameV::DefinitionTitle(x.0))).stack =~= titled.stack);
        lemma_bodies(b, d, x.0, x.1, room);
        assert(d.push((x.0, x.1)) =~= s);
    }
}

proof fn lemma_table(b: BuilderV, t: TableV, room: int)
    requires
        between_blocks(b),
        b.suppressed == 0,
        block_fits(BlockV::Table(t), room),
        b.stack.len() + room <= MAX_DEPTH,
    ensures
        after_events(b, block_events(BlockV::Table(t), false)) == growing(
            b,
            seq![BlockV::Table(t)],
            false,
        ),
{
    let x = BlockV::Table(t);
    lemma_placed(b, x);
    lemma_after_node(b, TagV::Table(t.alignments), table_events(t), TagEnd::Table);
    let none = Seq::<Seq<InlineV>>::empty();
    let no_rows = Seq::<Seq<Seq<InlineV>>>::empty();
    let empty = TableV { alignments: t.alignments, head: none, rows: no_rows };
    let f = FrameV::Table { alignments: t.alignments, head: none, rows: no_rows, in_head: false };
    let begun = opened(b, f);
    lemma_filled_below(b, f);
    let first = node(TagV::TableHead, cells_events(t.head), TagEnd::TableHead);
    lemma_after_both(begun, first, rows_events(t.rows));
    lemma_row(b, empty, true, t.head, room - 3);
    let headed = TableV { alignments: t.alignments, head: t.head, rows: no_rows };
    lemma_rows(b, headed, t.rows, room - 3);
    assert(no_rows + t.rows =~= t.rows);
    lemma_filled_below(
        b,
        FrameV::Table { alignments: t.alignments, head: t.head, rows: t.rows, in_head: false },
    );
}

proof fn lemma_code(b: BuilderV, x: BlockV, room: int)
    requires
        between_blocks(b),
        b.suppressed == 0,
        x is CodeBlock,
        block_fits(x, room),
        b.stack.len() + room <= MAX_DEPTH,
    ensures
        after_events(b, block_events(x, false)) == growing(b, seq![x], false),
{
    let language = x->CodeBlock_language;
    let code = x->CodeBlock_code;
    lemma_placed(b, x);
    lemma_language(language);
    let line = code.push('\n');
    let none = Seq::<char>::empty();
    lemma_after_node(
        b,
        TagV::CodeBlock(language),
        seq![EventV::Text(line)],
        TagEnd::CodeBlock,
    );
    let begun = opened(b, FrameV::CodeBlock { language, code: none });
    lemma_filled_below(b, FrameV::CodeBlock { language, code: none });
    lemma_filled_below(b, FrameV::CodeBlock { language, code: line });
    lemma_after_one(begun, EventV::Text(line));
    assert(none + line =~= line);
    let full = opened(b, FrameV::CodeBlock { language, code: line });
    assert(after_event(begun, EventV::Text(line)).stack =~= full.stack);
    assert(line.drop_last() =~= code);
}

proof fn lemma_block(b: BuilderV, x: BlockV, room: int)
    requires
        between_blocks(b),
        b.suppressed == 0,
        block_fits(x, room),
        b.stack.len() + room <= MAX_DEPTH,
    ensures
        after_events(b, block_events(x, false)) == growing(b, seq![x], is_text(x)),
    decreases x,
{
    lemma_placed(b, x);
    match x {
        BlockV::Paragraph(_) => lemma_paragraph(b, x, room),
        BlockV::Figure { .. } => lemma_paragraph(b, x, room),
        BlockV::Heading { level, id, content } => {
            let f = FrameV::Heading { level, id: Some(id), inlines: Seq::empty() };
            lemma_content_block(
                b,
                TagV::Heading { level, id: Some(id) },
                f,
                content,
                TagEnd::Heading,
                room - 1,
            );
        },
        BlockV::CodeBlock { .. } => lemma_code(b, x, room),
        BlockV::BlockQuote { kind, blocks } => {
            let f = FrameV::BlockQuote { kind, blocks: Seq::empty() };
            lemma_after_node(
                b,
                TagV::BlockQuote(kind),
                blocks_events(blocks, false),
                TagEnd::BlockQuote,
            );
            lemma_filled_below(b, f);
            lemma_blocks(opened(b, f), blocks, room - 1);
            lemma_grown(b, f, blocks, any_text(blocks));
            assert(Seq::<BlockV>::empty() + blocks =~= blocks);
        },
        BlockV::List(l) => {
            let none = Seq::<ListItemV>::empty();
            lemma_after_node(
                b,
                TagV::List(l.start),
                items_events(l.items, l.tight),
                TagEnd::List,
            );
            lemma_items(b, l.start, none, l.items, l.tight, room - 1);
            assert(none + l.items =~= l.items);
            lemma_filled_below(
                b,
                FrameV::List { start: l.start, items: l.items, tight: l.tight },
            );
        },
        BlockV::Table(t) => lemma_table(b, t, room),
        BlockV::Rule => lemma_after_one(b, EventV::Rule),
        BlockV::DisplayMath(t) => lemma_after_one(b, EventV::DisplayMath(t)),
        BlockV::DefinitionList(terms) => {
            lemma_after_node(
                b,
                TagV::DefinitionList,
                terms_events(terms),
                TagEnd::DefinitionList,
            );
            lemma_terms(b, terms, room - 2);
            lemma_filled_below(b, FrameV::DefinitionList { terms });
        },
        _ => {},
    }
}

// --- documents ----------------------------------------------------------------------------------

/// Front matter as events.
pub open spec fn front_events(front_matter: Option<Seq<char>>) -> Seq<EventV> {
    match front_matter {
        Some(t) => node(TagV::MetadataBlock, seq![EventV::Text(t)], TagEnd::MetadataBlock),
        None => Seq::empty(),
    }
}

pub open spec fn footnotes_events(s: Seq<(Seq<char>, Seq<BlockV>)>) -> Seq<EventV>
    decreases s.len(),
{
    if s.len() == 0 {
        Seq::empty()
    } else {
        footnotes_events(s.drop_last()) + node(
            TagV::FootnoteDefinition(s.last().0),
            blocks_events(s.last().1, false),
            TagEnd::FootnoteDefinition,
        )
    }
}

/// A document as events: its front matter, its blocks, its footnotes.
pub open spec fn document_events(d: DocumentV) -> Seq<EventV> {
    front_events(d.front_matter) + blocks_events(d.blocks, false) + footnotes_events(d.footnotes)
}

pub open spec fn footnotes_fit(s: Seq<(Seq<char>, Seq<BlockV>)>) -> bool
    decreases s.len(),
{
    s.len() == 0 || (footnotes_fit(s.drop_last()) && blocks_fit(
        s.last().1,
        MAX_DEPTH - 1,
        false,
    ))
}

proof fn lemma_footnotes(b: BuilderV, s: Seq<(Seq<char>, Seq<BlockV>)>)
    requires
        b.stack.len() == 0,
        b.suppressed == 0,
        footnotes_fit(s),
    ensures
        after_events(b, footnotes_events(s)) == (BuilderV { footnotes: b.footnotes + s, ..b }),
    decreases s.len(),
{
    if s.len() == 0 {
        assert(b.footnotes + s =~= b.footnotes);
    } else {
        let d = s.drop_last();
        let x = s.last();
        lemma_footnotes(b, d);
        let c = BuilderV { footnotes: b.footnotes + d, ..b };
        let end = TagEnd::FootnoteDefinition;
        let tag = TagV::FootnoteDefinition(x.0);
        lemma_after_both(b, footnotes_events(d), node(tag, blocks_events(x.1, false), end));
        lemma_after_node(c, tag, blocks_events(x.1, false), end);
        let f = FrameV::FootnoteDefinition { label: x.0, blocks: Seq::empty() };
        lemma_filled_below(c, f);
        lemma_blocks(opened(c, f), x.1, MAX_DEPTH - 1);
        lemma_grown(c, f, x.1, any_text(x.1));
        assert(Seq::<BlockV>::empty() + x.1 =~= x.1);
        assert(c.footnotes.push((x.0, x.1)) =~= b.footnotes + s);
    }
}

proof fn lemma_front(t: Seq<char>)
    ensures
        after_events(fresh(), front_events(Some(t))) == (BuilderV {
            front_matter: Some(t),
            ..fresh()
        }),
{
    let b = fresh();
    let none = Seq::<char>::empty();
    lemma_after_node(b, TagV::MetadataBlock, seq![EventV::Text(t)], TagEnd::MetadataBlock);
    let begun = opened(b, FrameV::Metadata(none));
    lemma_filled_below(b, FrameV::Metadata(none));
    lemma_filled_below(b, FrameV::Metadata(t));
    lemma_after_one(begun, EventV::Text(t));
    assert(none + t =~= t);
    let full = opened(b, FrameV::Metadata(t));
    assert(after_event(begun, EventV::Text(t)).stack =~= full.stack);
}

/// A document is read as what it was written as: headings with their levels and ids,
/// paragraphs, quotes, code with its language, lists with their numbers, items and tasks,
/// tables with their head, rows and cells, definitions, footnotes and front matter, each
/// in its place, with nothing lost, added or put elsewhere. Left out are trees that
/// Markdown does not give: blank paragraphs, two paragraphs on end in a tight list, loose
/// lists without a paragraph, raw HTML, and trees deeper than the limit.
pub proof fn documents_are_read_back(d: DocumentV)
    requires
        blocks_fit(d.blocks, MAX_DEPTH as int, false),
        footnotes_fit(d.footnotes),
    ensures
        document_of(document_events(d)).blocks == d.blocks,
        document_of(document_events(d)).footnotes == d.footnotes,
        document_of(document_events(d)).front_matter == d.front_matter,
{
    let a = front_events(d.front_matter);
    let m = blocks_events(d.blocks, false);
    let z = footnotes_events(d.footnotes);
    lemma_after_both(fresh(), a + m, z);
    lemma_after_both(fresh(), a, m);
    match d.front_matter {
        Some(t) => lemma_front(t),
        None => {
            assert(after_events(fresh(), a) == fresh());
        },
    }
    let b = BuilderV { front_matter: d.front_matter, ..fresh() };
    assert(after_events(fresh(), a) == b);
    lemma_blocks(b, d.blocks, MAX_DEPTH as int);
    assert(Seq::<BlockV>::empty() + d.blocks =~= d.blocks);
    let c = BuilderV { blocks: d.blocks, ..b };
    lemma_footnotes(c, d.footnotes);
    assert(Seq::<(Seq<char>, Seq<BlockV>)>::empty() + d.footnotes =~= d.footnotes);
    let last = after_events(fresh(), document_events(d));
    assert(closed_all(last) == last);
}

// --- what the source leaves to the reader ----------------------------------------------------------

/// A heading without an id of its own is read with its level and its content, and gets
/// the slug of its text, which is new among those given out.
pub proof fn headings_get_their_slug(b: BuilderV, level: u8, s: Seq<InlineV>)
    requires
        b.stack.len() == 0,
        b.suppressed == 0,
        inlines_fit(s, MAX_DEPTH - 1),
    ensures
        ({
            let r = after_events(
                b,
                node(TagV::Heading { level, id: None }, inlines_events(s), TagEnd::Heading),
            );
            let base = slug_base(plain(s));
            &&& r.blocks == b.blocks.push(
                BlockV::Heading { level, id: slug_given(b.seen, base), content: s },
            )
            &&& r.seen == slug_seen(b.seen, base)
            &&& r.stack.len() == 0
            &&& r.footnotes == b.footnotes
            &&& r.front_matter == b.front_matter
        }),
{
    let f = FrameV::Heading { level, id: None, inlines: Seq::empty() };
    let tag = TagV::Heading { level, id: None };
    lemma_content_block(b, tag, f, s, TagEnd::Heading, MAX_DEPTH - 1);
    let base = slug_base(plain(s));
    let below = BuilderV { seen: slug_seen(b.seen, base), ..b };
    let x = BlockV::Heading { level, id: slug_given(b.seen, base), content: s };
    lemma_placed(below, x);
    assert(b.blocks + seq![x] =~= b.blocks.push(x));
}

/// The language of a code block is the first word of what stands behind the fence: it
/// ends at a comma, a blank or a brace, and the rest has no part in it.
pub proof fn languages_end_at_the_first_sign(l: Seq<char>, rest: Seq<char>)
    requires
        is_language(l),
        rest.len() == 0 || rest[0] == ',' || rest[0] == ' ' || rest[0] == '\t' || rest[0] == '{',
    ensures
        language_of(Some(l + rest)) == Some(l),
{
    lemma_language_stops(l, rest, 0);
    assert((l + rest).subrange(0, l.len() as int) =~= l);
}

proof fn lemma_language_stops(l: Seq<char>, rest: Seq<char>, k: int)
    requires
        is_language(l),
        rest.len() == 0 || rest[0] == ',' || rest[0] == ' ' || rest[0] == '\t' || rest[0] == '{',
        0 <= k <= l.len(),
    ensures
        language_end(l + rest, k) == l.len(),
    decreases l.len() - k,
{
    if k < l.len() {
        assert((l + rest)[k] == l[k]);
        lemma_language_stops(l, rest, k + 1);
    } else if rest.len() > 0 {
        assert((l + rest)[k] == rest[0]);
    }
}

/// The mark of a task belongs to the innermost item that is open, whatever is open in it.
pub proof fn tasks_mark_the_innermost_item(b: BuilderV, k: int, done: bool)
    requires
        0 <= k < b.stack.len(),
        b.stack[k] is Item,
        forall|i: int| k < i < b.stack.len() ==> !(#[trigger] b.stack[i] is Item),
    ensures
        ({
            let r = after_event(b, EventV::TaskListMarker(done));
            &&& r.stack.len() == b.stack.len()
            &&& r.stack[k] matches FrameV::Item { task, blocks, loose } && task == Some(done)
                && blocks == b.stack[k]->Item_blocks && loose == b.stack[k]->Item_loose
            &&& forall|i: int| 0 <= i < b.stack.len() && i != k ==> r.stack[i] == b.stack[i]
        }),
{
    lemma_innermost(b.stack, b.stack.len() as int, k);
}

proof fn lemma_innermost(stack: Seq<FrameV>, n: int, k: int)
    requires
        0 <= k < n <= stack.len(),
        stack[k] is Item,
        forall|i: int| k < i < n ==> !(#[trigger] stack[i] is Item),
    ensures
        item_frame(stack, n) == k,
    decreases n,
{
    if n - 1 > k {
        assert(!(stack[n - 1] is Item));
        lemma_innermost(stack, n - 1, k);
    }
}

/// Without front matter a document is named by its first heading of the first level.
pub proof fn the_first_heading_names_the_document(
    above: Seq<BlockV>,
    id: Seq<char>,
    content: Seq<InlineV>,
    below: Seq<BlockV>,
)
    requires
        forall|i: int|
            0 <= i < above.len() ==> !((#[trigger] above[i]) is Heading
                && above[i]->Heading_level == 1),
    ensures
        title_of(None, above + seq![BlockV::Heading { level: 1, id, content }] + below) == Some(
            plain(content),
        ),
        title_of(None, above) is None,
{
    let h = BlockV::Heading { level: 1, id, content };
    let all = above + seq![h] + below;
    assert(all.take(above.len() as int) =~= above);
    lemma_first_heading(above, h, all, 0);
    lemma_no_heading(above, 0);
}

proof fn lemma_first_heading(above: Seq<BlockV>, h: BlockV, all: Seq<BlockV>, k: int)
    requires
        0 <= k <= above.len() < all.len(),
        all.take(above.len() as int) == above,
        all[above.len() as int] == h,
        h is Heading,
        h->Heading_level == 1,
        forall|i: int|
            0 <= i < above.len() ==> !((#[trigger] above[i]) is Heading
                && above[i]->Heading_level == 1),
    ensures
        h1_from(all, k) == Some(plain(h->Heading_content)),
    decreases above.len() - k,
{
    if k < above.len() {
        assert(all.take(above.len() as int)[k] == all[k]);
        assert(all[k] == above[k]);
        lemma_first_heading(above, h, all, k + 1);
    }
}

proof fn lemma_no_heading(s: Seq<BlockV>, k: int)
    requires
        0 <= k <= s.len(),
        forall|i: int|
            0 <= i < s.len() ==> !((#[trigger] s[i]) is Heading && s[i]->Heading_level == 1),
    ensures
        h1_from(s, k) is None,
    decreases s.len() - k,
{
    if k < s.len() {
        assert(!(s[k] is Heading && s[k]->Heading_level == 1));
        lemma_no_heading(s, k + 1);
    }
}

/// True of a title as it can be written between quotes.
pub open spec fn is_title(x: Seq<char>) -> bool {
    &&& x.len() > 0
    &&& !text::is_space(x[0]) && x[0] != '"' && x[0] != '\''
    &&& !text::is_space(x[x.len() - 1]) && x[x.len() - 1] != '"' && x[x.len() - 1] != '\''
}

/// A title in front matter is the same with quotes of either kind and without.
pub proof fn titles_may_be_quoted(x: Seq<char>)
    requires
        is_title(x),
    ensures
        line_title("title: "@ + x) == Some(x),
        line_title("title: "@ + seq!['"'] + x + seq!['"']) == Some(x),
        line_title("title: "@ + seq!['\''] + x + seq!['\'']) == Some(x),
{
    lemma_title_line(x, Seq::empty());
    lemma_title_line(x, seq!['"']);
    lemma_title_line(x, seq!['\'']);
    let none = Seq::<char>::empty();
    assert("title: "@ + none + x + none =~= "title: "@ + x);
}

proof fn lemma_title_line(x: Seq<char>, q: Seq<char>)
    requires
        is_title(x),
        q.len() == 0 || q == seq!['"'] || q == seq!['\''],
    ensures
        line_title("title: "@ + q + x + q) == Some(x),
{
    reveal_strlit("title: ");
    reveal_strlit("title:");
    let line = "title: "@ + q + x + q;
    let inner = q + x + q;
    assert(line.subrange(0, 6) =~= "title:"@);
    let tail = line.subrange(6, line.len() as int);
    assert(tail =~= seq![' '] + inner);
    assert(tail.first() == ' ');
    assert(tail.drop_first() =~= inner);
    let first = if q.len() > 0 {
        q[0]
    } else {
        x[0]
    };
    assert(inner.first() == first);
    assert(text::trim_start(inner) == inner);
    assert(text::trim_start(tail) == inner);
    let last = if q.len() > 0 {
        q[0]
    } else {
        x[x.len() - 1]
    };
    assert(inner.last() == last);
    assert(text::trim_end(inner) == inner);
    let bare = x + q;
    if q.len() > 0 {
        assert(inner.drop_first() =~= bare);
        assert(bare.first() == x[0]);
        assert(unquoted_start(bare) == bare);
        assert(unquoted_start(inner) == bare);
        assert(bare.last() == q[0]);
        assert(bare.drop_last() =~= x);
        assert(unquoted_end(x) == x);
        assert(unquoted_end(bare) == x);
    } else {
        assert(inner =~= x);
        assert(unquoted_start(x) == x);
        assert(unquoted_end(x) == x);
    }
    assert(text::trim_start(x) == x);
    assert(text::trim_end(x) == x);
}

/// True where a number has the bit of a value, which is a power of two.
pub open spec fn has_bit(n: int, bit: int) -> bool {
    n / bit % 2 == 1
}

/// Each extension turns on what it stands for and nothing else. The bits are those of the
/// parser's options.
pub proof fn extensions_turn_on_what_they_are(o: ParseOptions)
    ensures
        has_bit(o.bits(), 0x2) == o.gfm,
        has_bit(o.bits(), 0x4) == o.gfm,
        has_bit(o.bits(), 0x8) == o.gfm,
        has_bit(o.bits(), 0x10) == o.gfm,
        has_bit(o.bits(), 0x800) == o.gfm,
        has_bit(o.bits(), 0x20) == o.smart_punctuation,
        has_bit(o.bits(), 0x40),
        has_bit(o.bits(), 0x80) == o.front_matter,
        has_bit(o.bits(), 0x100) == o.front_matter,
        has_bit(o.bits(), 0x400) == o.math,
        has_bit(o.bits(), 0x1000) == o.definition_lists,
        has_bit(o.bits(), 0x2000),
        has_bit(o.bits(), 0x4000),
        has_bit(o.bits(), 0x8000) == o.wikilinks,
        0 <= o.bits() < 0x10000,
{
}

} // verus!
