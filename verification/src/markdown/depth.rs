//! How deep a parsed document can nest.
//!
//! Every walk over the tree recurses -- rendering it, rebasing its URLs, dropping it --
//! so the tree itself has to stop getting deeper, whatever the text says.
use vstd::prelude::*;

use super::events::{EventV, TagV};
use super::html::{simplified, PieceV};
use super::ir::{plain, BlockV, ImageRefV, InlineV, ListItemV, ListV, TableV};
use super::parse::{
    after_event, after_events, closed_all, closed_implicit, closed_top, container, document_of,
    frame_with_inline, fresh, item_frame, lemma_closed_implicit_len, lemma_closed_top_weight,
    lemma_container, lemma_placed_len, opened, paragraph_of, piece_inline, placed, retopped,
    started, weight, with_block, with_inline, with_inline_pieces, with_paragraph, with_pieces,
    with_task, BuilderV, FrameV, MAX_DEPTH,
};
use super::slug::{slug_base, slug_given, slug_seen};

verus! {

/// True of inline content that nests at most `d` deep. Content that holds no other is
/// one level.
pub open spec fn inline_within(i: InlineV, d: int) -> bool
    decreases i,
{
    d >= 1 && match i {
        InlineV::Emph(c) => inlines_within(c, d - 1),
        InlineV::Strong(c) => inlines_within(c, d - 1),
        InlineV::Strike(c) => inlines_within(c, d - 1),
        InlineV::Superscript(c) => inlines_within(c, d - 1),
        InlineV::Subscript(c) => inlines_within(c, d - 1),
        InlineV::Link { content, .. } => inlines_within(content, d - 1),
        _ => true,
    }
}

pub open spec fn inlines_within(s: Seq<InlineV>, d: int) -> bool
    decreases s,
{
    forall|k: int| 0 <= k < s.len() ==> inline_within(#[trigger] s[k], d)
}

pub open spec fn cells_within(s: Seq<Seq<InlineV>>, e: int) -> bool {
    forall|k: int| 0 <= k < s.len() ==> inlines_within(#[trigger] s[k], e)
}

pub open spec fn rows_within(s: Seq<Seq<Seq<InlineV>>>, e: int) -> bool {
    forall|k: int| 0 <= k < s.len() ==> cells_within(#[trigger] s[k], e)
}

/// True of a block in which blocks nest at most `d` deep, itself counted, and inline
/// content at most `e` deep.
pub open spec fn block_within(b: BlockV, d: int, e: int) -> bool
    decreases b,
{
    d >= 1 && match b {
        BlockV::Heading { content, .. } => inlines_within(content, e),
        BlockV::Paragraph(content) => inlines_within(content, e),
        BlockV::BlockQuote { blocks, .. } => blocks_within(blocks, d - 1, e),
        BlockV::FootnoteDefinition { blocks, .. } => blocks_within(blocks, d - 1, e),
        BlockV::List(list) => list_within(list, d - 1, e),
        BlockV::Table(t) => cells_within(t.head, e) && rows_within(t.rows, e),
        BlockV::Figure { caption, .. } => inlines_within(caption, e),
        BlockV::DefinitionList(terms) => terms_within(terms, d - 1, e),
        _ => true,
    }
}

pub open spec fn blocks_within(s: Seq<BlockV>, d: int, e: int) -> bool
    decreases s,
{
    forall|k: int| 0 <= k < s.len() ==> block_within(#[trigger] s[k], d, e)
}

pub open spec fn list_within(l: ListV, d: int, e: int) -> bool
    decreases l,
{
    items_within(l.items, d, e)
}

pub open spec fn items_within(s: Seq<ListItemV>, d: int, e: int) -> bool
    decreases s,
{
    forall|k: int| 0 <= k < s.len() ==> item_within(#[trigger] s[k], d, e)
}

pub open spec fn item_within(i: ListItemV, d: int, e: int) -> bool
    decreases i,
{
    blocks_within(i.blocks, d, e)
}

pub open spec fn bodies_within(s: Seq<Seq<BlockV>>, d: int, e: int) -> bool
    decreases s,
{
    forall|k: int| 0 <= k < s.len() ==> blocks_within(#[trigger] s[k], d, e)
}

pub open spec fn term_within(t: (Seq<InlineV>, Seq<Seq<BlockV>>), d: int, e: int) -> bool
    decreases t,
{
    inlines_within(t.0, e) && bodies_within(t.1, d, e)
}

pub open spec fn terms_within(s: Seq<(Seq<InlineV>, Seq<Seq<BlockV>>)>, d: int, e: int) -> bool
    decreases s,
{
    forall|k: int| 0 <= k < s.len() ==> term_within(#[trigger] s[k], d, e)
}

proof fn lemma_inline_wider(i: InlineV, d: int, w: int)
    requires
        inline_within(i, d),
        d <= w,
    ensures
        inline_within(i, w),
    decreases i,
{
    match i {
        InlineV::Emph(c) => lemma_inlines_wider(c, d - 1, w - 1),
        InlineV::Strong(c) => lemma_inlines_wider(c, d - 1, w - 1),
        InlineV::Strike(c) => lemma_inlines_wider(c, d - 1, w - 1),
        InlineV::Superscript(c) => lemma_inlines_wider(c, d - 1, w - 1),
        InlineV::Subscript(c) => lemma_inlines_wider(c, d - 1, w - 1),
        InlineV::Link { content, .. } => lemma_inlines_wider(content, d - 1, w - 1),
        _ => {},
    }
}

proof fn lemma_inlines_wider(s: Seq<InlineV>, d: int, w: int)
    requires
        inlines_within(s, d),
        d <= w,
    ensures
        inlines_within(s, w),
    decreases s,
{
    assert forall|k: int| 0 <= k < s.len() implies inline_within(#[trigger] s[k], w) by {
        lemma_inline_wider(s[k], d, w);
    }
}

proof fn lemma_block_wider(b: BlockV, d: int, w: int, e: int)
    requires
        block_within(b, d, e),
        d <= w,
    ensures
        block_within(b, w, e),
    decreases b,
{
    match b {
        BlockV::BlockQuote { blocks, .. } => lemma_blocks_wider(blocks, d - 1, w - 1, e),
        BlockV::FootnoteDefinition { blocks, .. } => lemma_blocks_wider(blocks, d - 1, w - 1, e),
        BlockV::List(list) => {
            let items = list.items;
            assert(list_within(list, d - 1, e));
            assert(items_within(items, d - 1, e));
            assert forall|k: int| 0 <= k < items.len() implies item_within(
                #[trigger] items[k],
                w - 1,
                e,
            ) by {
                assert(item_within(items[k], d - 1, e));
                lemma_blocks_wider(items[k].blocks, d - 1, w - 1, e);
            }
            assert(items_within(items, w - 1, e));
            assert(list_within(list, w - 1, e));
        },
        BlockV::DefinitionList(terms) => {
            assert forall|k: int| 0 <= k < terms.len() implies term_within(
                #[trigger] terms[k],
                w - 1,
                e,
            ) by {
                assert(term_within(terms[k], d - 1, e));
                let bodies = terms[k].1;
                assert forall|j: int| 0 <= j < bodies.len() implies blocks_within(
                    #[trigger] bodies[j],
                    w - 1,
                    e,
                ) by {
                    lemma_blocks_wider(bodies[j], d - 1, w - 1, e);
                }
            }
        },
        _ => {},
    }
}

proof fn lemma_blocks_wider(s: Seq<BlockV>, d: int, w: int, e: int)
    requires
        blocks_within(s, d, e),
        d <= w,
    ensures
        blocks_within(s, w, e),
    decreases s,
{
    assert forall|k: int| 0 <= k < s.len() implies block_within(#[trigger] s[k], w, e) by {
        lemma_block_wider(s[k], d, w, e);
    }
}

/// What a frame may hold when it is the `i`th from the bottom: as much less as there
/// are frames below it.
pub open spec fn frame_within(f: FrameV, i: int) -> bool {
    match f {
        FrameV::Paragraph { inlines, .. } => i <= 100 && inlines_within(inlines, 101 - i),
        FrameV::Heading { inlines, .. } => i <= 99 && inlines_within(inlines, 101 - i),
        FrameV::TableCell { inlines } => i <= 99 && inlines_within(inlines, 101 - i),
        FrameV::DefinitionTitle(inlines) => i <= 99 && inlines_within(inlines, 101 - i),
        FrameV::Emphasis(c) => i <= 99 && inlines_within(c, 100 - i),
        FrameV::Strong(c) => i <= 99 && inlines_within(c, 100 - i),
        FrameV::Strike(c) => i <= 99 && inlines_within(c, 100 - i),
        FrameV::Superscript(c) => i <= 99 && inlines_within(c, 100 - i),
        FrameV::Subscript(c) => i <= 99 && inlines_within(c, 100 - i),
        FrameV::Link { content, .. } => i <= 99 && inlines_within(content, 100 - i),
        FrameV::Image { alt, .. } => i <= 99 && inlines_within(alt, 100 - i),
        FrameV::BlockQuote { blocks, .. } => i <= 99 && blocks_within(blocks, 100 - i, 101),
        FrameV::Item { blocks, .. } => i <= 99 && blocks_within(blocks, 100 - i, 101),
        FrameV::FootnoteDefinition { blocks, .. } => i <= 99 && blocks_within(blocks, 100 - i, 101),
        FrameV::DefinitionBody(blocks) => i <= 99 && blocks_within(blocks, 100 - i, 101),
        FrameV::List { items, .. } => i <= 99 && items_within(items, 100 - i, 101),
        FrameV::DefinitionList { terms } => i <= 99 && terms_within(terms, 100 - i, 101),
        FrameV::Table { head, rows, .. } => i <= 99 && cells_within(head, 101) && rows_within(
            rows,
            101,
        ),
        FrameV::TableRow { cells } => i <= 99 && cells_within(cells, 101),
        FrameV::CodeBlock { .. } => i <= 99,
        FrameV::HtmlBlock(_) => i <= 99,
        FrameV::Metadata(_) => i <= 99,
    }
}

/// True of a builder that has kept to the limit.
pub open spec fn builder_within(b: BuilderV) -> bool {
    &&& b.stack.len() <= 101
    &&& forall|i: int| 0 <= i < b.stack.len() ==> frame_within(#[trigger] b.stack[i], i)
    &&& blocks_within(b.blocks, 101, 101)
    &&& forall|k: int|
        0 <= k < b.footnotes.len() ==> blocks_within((#[trigger] b.footnotes[k]).1, 100, 101)
}

proof fn lemma_push_inline(s: Seq<InlineV>, i: InlineV, d: int)
    requires
        inlines_within(s, d),
        inline_within(i, d),
    ensures
        inlines_within(s.push(i), d),
{
    assert forall|k: int| 0 <= k < s.push(i).len() implies inline_within(
        #[trigger] s.push(i)[k],
        d,
    ) by {
        if k < s.len() {
            assert(s.push(i)[k] == s[k]);
        }
    }
}

proof fn lemma_push_block(s: Seq<BlockV>, b: BlockV, d: int, e: int)
    requires
        blocks_within(s, d, e),
        block_within(b, d, e),
    ensures
        blocks_within(s.push(b), d, e),
{
    assert forall|k: int| 0 <= k < s.push(b).len() implies block_within(
        #[trigger] s.push(b)[k],
        d,
        e,
    ) by {
        if k < s.len() {
            assert(s.push(b)[k] == s[k]);
        }
    }
}

proof fn lemma_below(b: BuilderV)
    requires
        builder_within(b),
        b.stack.len() > 0,
    ensures
        builder_within((BuilderV { stack: b.stack.drop_last(), ..b })),
        frame_within(b.stack.last(), b.stack.len() - 1),
{
    let c = BuilderV { stack: b.stack.drop_last(), ..b };
    assert forall|i: int| 0 <= i < c.stack.len() implies frame_within(#[trigger] c.stack[i], i) by {
        assert(c.stack[i] == b.stack[i]);
    }
}

proof fn lemma_retopped(b: BuilderV, f: FrameV)
    requires
        builder_within(b),
        b.stack.len() > 0,
        frame_within(f, b.stack.len() - 1),
    ensures
        builder_within(retopped(b, f)),
{
    let c = retopped(b, f);
    assert forall|i: int| 0 <= i < c.stack.len() implies frame_within(#[trigger] c.stack[i], i) by {
        if i < b.stack.len() - 1 {
            assert(c.stack[i] == b.stack[i]);
        }
    }
}

proof fn lemma_opened(b: BuilderV, f: FrameV)
    requires
        builder_within(b),
        frame_within(f, b.stack.len() as int),
    ensures
        builder_within(opened(b, f)),
{
    let c = opened(b, f);
    assert forall|i: int| 0 <= i < c.stack.len() implies frame_within(#[trigger] c.stack[i], i) by {
        if i < b.stack.len() {
            assert(c.stack[i] == b.stack[i]);
        }
    }
}

/// An inline that a frame at the top could have held, or one level more, can be added.
proof fn lemma_with_inline(b: BuilderV, i: InlineV)
    requires
        builder_within(b),
        inline_within(i, 101 - b.stack.len()) || inline_within(i, 1),
    ensures
        builder_within(with_inline(b, i)),
{
    let n = b.stack.len() as int;
    if n <= 100 && inline_within(i, 1) {
        lemma_inline_wider(i, 1, 101 - n);
    }
    if n > 0 {
        let f = b.stack.last();
        assert(frame_within(f, n - 1));
        if inline_within(i, 101 - n) {
            lemma_inline_wider(i, 101 - n, 102 - n);
        } else {
            lemma_inline_wider(i, 1, 102 - n);
        }
        match frame_with_inline(f, i) {
            Some(g) => {
                match f {
                    FrameV::Paragraph { inlines, .. } => lemma_push_inline(inlines, i, 102 - n),
                    FrameV::Heading { inlines, .. } => lemma_push_inline(inlines, i, 102 - n),
                    FrameV::TableCell { inlines } => lemma_push_inline(inlines, i, 102 - n),
                    FrameV::DefinitionTitle(inlines) => lemma_push_inline(inlines, i, 102 - n),
                    FrameV::Emphasis(c) => lemma_push_inline(c, i, 101 - n),
                    FrameV::Strong(c) => lemma_push_inline(c, i, 101 - n),
                    FrameV::Strike(c) => lemma_push_inline(c, i, 101 - n),
                    FrameV::Superscript(c) => lemma_push_inline(c, i, 101 - n),
                    FrameV::Subscript(c) => lemma_push_inline(c, i, 101 - n),
                    FrameV::Link { content, .. } => lemma_push_inline(content, i, 101 - n),
                    FrameV::Image { alt, .. } => lemma_push_inline(alt, i, 101 - n),
                    _ => {},
                }
                lemma_retopped(b, g);
            },
            None => {
                lemma_opened(b, FrameV::Paragraph { inlines: seq![i], implicit: true });
            },
        }
    } else {
        lemma_opened(b, FrameV::Paragraph { inlines: seq![i], implicit: true });
    }
}

proof fn lemma_placed(b: BuilderV, block: BlockV)
    requires
        builder_within(b),
        block_within(block, 101 - b.stack.len(), 101) || block_within(block, 1, 101),
    ensures
        builder_within(placed(b, block)),
{
    let n = b.stack.len() as int;
    lemma_container(b.stack, n);
    let k = container(b.stack, n);
    let c = placed(b, block);
    if k < 0 {
        if block_within(block, 101 - n, 101) {
            lemma_block_wider(block, 101 - n, 101, 101);
        } else {
            lemma_block_wider(block, 1, 101, 101);
        }
        lemma_push_block(b.blocks, block, 101, 101);
    } else {
        let f = b.stack[k];
        assert(frame_within(f, k));
        if block_within(block, 101 - n, 101) {
            lemma_block_wider(block, 101 - n, 100 - k, 101);
        } else {
            lemma_block_wider(block, 1, 100 - k, 101);
        }
        match f {
            FrameV::Item { blocks, .. } => lemma_push_block(blocks, block, 100 - k, 101),
            FrameV::BlockQuote { blocks, .. } => lemma_push_block(blocks, block, 100 - k, 101),
            FrameV::FootnoteDefinition { blocks, .. } => lemma_push_block(
                blocks,
                block,
                100 - k,
                101,
            ),
            FrameV::DefinitionBody(blocks) => lemma_push_block(blocks, block, 100 - k, 101),
            _ => {},
        }
        assert forall|i: int| 0 <= i < c.stack.len() implies frame_within(
            #[trigger] c.stack[i],
            i,
        ) by {
            if i != k {
                assert(c.stack[i] == b.stack[i]);
            }
        }
    }
}

proof fn lemma_paragraph_of(s: Seq<InlineV>)
    requires
        inlines_within(s, 101),
    ensures
        paragraph_of(s) matches Some(block) ==> block_within(block, 1, 101),
{
}

proof fn lemma_closed_implicit(b: BuilderV)
    requires
        builder_within(b),
    ensures
        builder_within(closed_implicit(b)),
        closed_implicit(b).stack.len() <= b.stack.len(),
    decreases b.stack.len(),
{
    lemma_closed_implicit_len(b);
    if b.stack.len() > 0 {
        lemma_below(b);
        let below = BuilderV { stack: b.stack.drop_last(), ..b };
        match b.stack.last() {
            FrameV::Paragraph { inlines, implicit } => {
                if implicit {
                    lemma_inlines_wider(inlines, 102 - b.stack.len(), 101);
                    lemma_paragraph_of(inlines);
                    lemma_closed_implicit(below);
                    match paragraph_of(inlines) {
                        Some(block) => lemma_placed(closed_implicit(below), block),
                        None => {},
                    }
                }
            },
            _ => {},
        }
    }
}

proof fn lemma_with_block(b: BuilderV, block: BlockV)
    requires
        builder_within(b),
        block_within(block, 101 - b.stack.len(), 101) || block_within(block, 1, 101),
    ensures
        builder_within(with_block(b, block)),
        with_block(b, block).stack.len() <= b.stack.len(),
{
    lemma_closed_implicit(b);
    let c = closed_implicit(b);
    if block_within(block, 101 - b.stack.len(), 101) {
        lemma_block_wider(block, 101 - b.stack.len(), 101 - c.stack.len(), 101);
    }
    lemma_placed(c, block);
    lemma_placed_len(c, block);
}

proof fn lemma_with_paragraph(b: BuilderV, inlines: Seq<InlineV>)
    requires
        builder_within(b),
        inlines_within(inlines, 101),
    ensures
        builder_within(with_paragraph(b, inlines)),
        with_paragraph(b, inlines).stack.len() <= b.stack.len(),
{
    lemma_paragraph_of(inlines);
    match paragraph_of(inlines) {
        Some(block) => lemma_with_block(b, block),
        None => {},
    }
}

proof fn lemma_with_pieces(b: BuilderV, pieces: Seq<PieceV>, k: int, inlines: Seq<InlineV>)
    requires
        builder_within(b),
        inlines_within(inlines, 101),
    ensures
        builder_within(with_pieces(b, pieces, k, inlines)),
    decreases pieces.len() - k,
{
    if k < 0 || k >= pieces.len() {
        lemma_with_paragraph(b, inlines);
    } else {
        match pieces[k] {
            PieceV::Text(t) => {
                lemma_push_inline(inlines, InlineV::Text(t), 101);
                lemma_with_pieces(b, pieces, k + 1, inlines.push(InlineV::Text(t)));
            },
            PieceV::Summary(t) => {
                let i = InlineV::Strong(seq![InlineV::Text(t)]);
                assert(inlines_within(seq![InlineV::Text(t)], 100));
                lemma_push_inline(inlines, i, 101);
                lemma_with_pieces(b, pieces, k + 1, inlines.push(i));
            },
            PieceV::Image(img) => {
                lemma_with_paragraph(b, inlines);
                let c = with_paragraph(b, inlines);
                lemma_with_paragraph(c, seq![InlineV::Image(img)]);
                lemma_with_pieces(
                    with_paragraph(c, seq![InlineV::Image(img)]),
                    pieces,
                    k + 1,
                    Seq::empty(),
                );
            },
            PieceV::Break => {
                lemma_with_paragraph(b, inlines);
                lemma_with_pieces(with_paragraph(b, inlines), pieces, k + 1, Seq::empty());
            },
        }
    }
}

proof fn lemma_with_inline_pieces(b: BuilderV, pieces: Seq<PieceV>, k: int)
    requires
        builder_within(b),
    ensures
        builder_within(with_inline_pieces(b, pieces, k)),
    decreases k,
{
    if k > 0 {
        lemma_with_inline_pieces(b, pieces, k - 1);
        lemma_with_inline(with_inline_pieces(b, pieces, k - 1), piece_inline(pieces[k - 1]));
    }
}

proof fn lemma_closed_top(b: BuilderV)
    requires
        builder_within(b),
    ensures
        builder_within(closed_top(b)),
{
    if b.stack.len() > 0 {
        lemma_below(b);
        let below = BuilderV { stack: b.stack.drop_last(), ..b };
        let i = b.stack.len() - 1;
        match b.stack.last() {
            FrameV::Paragraph { inlines, .. } => {
                lemma_inlines_wider(inlines, 101 - i, 101);
                lemma_with_paragraph(below, inlines);
            },
            FrameV::Heading { level, id, inlines } => {
                lemma_inlines_wider(inlines, 101 - i, 101);
                match id {
                    Some(id) => lemma_with_block(
                        below,
                        BlockV::Heading { level, id, content: inlines },
                    ),
                    None => {
                        let base = slug_base(plain(inlines));
                        let c = BuilderV { seen: slug_seen(b.seen, base), ..below };
                        assert(builder_within(c));
                        lemma_with_block(
                            c,
                            BlockV::Heading {
                                level,
                                id: slug_given(b.seen, base),
                                content: inlines,
                            },
                        );
                    },
                }
            },
            FrameV::BlockQuote { kind, blocks } => lemma_with_block(
                below,
                BlockV::BlockQuote { kind, blocks },
            ),
            FrameV::CodeBlock { language, code } => lemma_with_block(
                below,
                BlockV::CodeBlock {
                    language,
                    code: if code.len() > 0 && code.last() == '\n' {
                        code.drop_last()
                    } else {
                        code
                    },
                },
            ),
            FrameV::List { start, items, tight } => {
                let list = ListV { start, tight, items };
                assert(list_within(list, 100 - i, 101));
                lemma_with_block(below, BlockV::List(list));
            },
            FrameV::Item { task, blocks, loose } => {
                if below.stack.len() > 0 {
                    match below.stack.last() {
                        FrameV::List { start, items, tight } => {
                            assert(frame_within(below.stack.last(), i - 1));
                            let item = ListItemV { task, blocks };
                            lemma_blocks_wider(blocks, 100 - i, 101 - i, 101);
                            assert(item_within(item, 101 - i, 101));
                            let more = items.push(item);
                            assert forall|k: int| 0 <= k < more.len() implies item_within(
                                #[trigger] more[k],
                                101 - i,
                                101,
                            ) by {
                                if k < items.len() {
                                    assert(more[k] == items[k]);
                                }
                            }
                            lemma_retopped(
                                below,
                                FrameV::List { start, items: more, tight: tight && !loose },
                            );
                        },
                        _ => {},
                    }
                }
            },
            FrameV::Table { alignments, head, rows, .. } => lemma_with_block(
                below,
                BlockV::Table(TableV { alignments, head, rows }),
            ),
            FrameV::TableRow { cells } => {
                if below.stack.len() > 0 {
                    match below.stack.last() {
                        FrameV::Table { alignments, head, rows, in_head } => {
                            assert(frame_within(below.stack.last(), i - 1));
                            let more = rows.push(cells);
                            assert forall|k: int| 0 <= k < more.len() implies cells_within(
                                #[trigger] more[k],
                                101,
                            ) by {
                                if k < rows.len() {
                                    assert(more[k] == rows[k]);
                                }
                            }
                            lemma_retopped(
                                below,
                                if in_head {
                                    FrameV::Table { alignments, head: cells, rows, in_head: false }
                                } else {
                                    FrameV::Table { alignments, head, rows: more, in_head }
                                },
                            );
                        },
                        _ => {},
                    }
                }
            },
            FrameV::TableCell { inlines } => {
                if below.stack.len() > 0 {
                    match below.stack.last() {
                        FrameV::TableRow { cells } => {
                            assert(frame_within(below.stack.last(), i - 1));
                            lemma_inlines_wider(inlines, 101 - i, 101);
                            let more = cells.push(inlines);
                            assert forall|k: int| 0 <= k < more.len() implies inlines_within(
                                #[trigger] more[k],
                                101,
                            ) by {
                                if k < cells.len() {
                                    assert(more[k] == cells[k]);
                                }
                            }
                            lemma_retopped(below, FrameV::TableRow { cells: more });
                        },
                        _ => {},
                    }
                }
            },
            FrameV::Emphasis(c) => lemma_with_inline(below, InlineV::Emph(c)),
            FrameV::Strong(c) => lemma_with_inline(below, InlineV::Strong(c)),
            FrameV::Strike(c) => lemma_with_inline(below, InlineV::Strike(c)),
            FrameV::Superscript(c) => lemma_with_inline(below, InlineV::Superscript(c)),
            FrameV::Subscript(c) => lemma_with_inline(below, InlineV::Subscript(c)),
            FrameV::Link { dest, title, content } => lemma_with_inline(
                below,
                InlineV::Link { dest, title, content },
            ),
            FrameV::Image { dest, title, alt } => lemma_with_inline(
                below,
                InlineV::Image(ImageRefV { url: dest, alt: plain(alt), title }),
            ),
            FrameV::FootnoteDefinition { label, blocks } => {
                lemma_blocks_wider(blocks, 100 - i, 100, 101);
                let more = below.footnotes.push((label, blocks));
                assert forall|k: int| 0 <= k < more.len() implies blocks_within(
                    (#[trigger] more[k]).1,
                    100,
                    101,
                ) by {
                    if k < below.footnotes.len() {
                        assert(more[k] == below.footnotes[k]);
                    }
                }
            },
            FrameV::DefinitionList { terms } => lemma_with_block(
                below,
                BlockV::DefinitionList(terms),
            ),
            FrameV::DefinitionTitle(inlines) => {
                if below.stack.len() > 0 {
                    match below.stack.last() {
                        FrameV::DefinitionList { terms } => {
                            assert(frame_within(below.stack.last(), i - 1));
                            lemma_inlines_wider(inlines, 101 - i, 101);
                            let term = (inlines, Seq::<Seq<BlockV>>::empty());
                            assert(bodies_within(term.1, 101 - i, 101));
                            assert(term_within(term, 101 - i, 101));
                            let more = terms.push(term);
                            assert forall|k: int| 0 <= k < more.len() implies term_within(
                                #[trigger] more[k],
                                101 - i,
                                101,
                            ) by {
                                if k < terms.len() {
                                    assert(more[k] == terms[k]);
                                }
                            }
                            lemma_retopped(below, FrameV::DefinitionList { terms: more });
                        },
                        _ => {},
                    }
                }
            },
            FrameV::DefinitionBody(blocks) => {
                if below.stack.len() > 0 {
                    match below.stack.last() {
                        FrameV::DefinitionList { terms } => {
                            if terms.len() > 0 {
                                assert(frame_within(below.stack.last(), i - 1));
                                assert(term_within(terms[terms.len() - 1], 101 - i, 101));
                                lemma_blocks_wider(blocks, 100 - i, 101 - i, 101);
                                let bodies = terms.last().1.push(blocks);
                                assert forall|j: int| 0 <= j < bodies.len() implies blocks_within(
                                    #[trigger] bodies[j],
                                    101 - i,
                                    101,
                                ) by {
                                    if j < terms.last().1.len() {
                                        assert(bodies[j] == terms.last().1[j]);
                                    }
                                }
                                assert(bodies_within(bodies, 101 - i, 101));
                                let term = (terms.last().0, bodies);
                                assert(term_within(term, 101 - i, 101));
                                let more = terms.drop_last().push(term);
                                assert forall|k: int| 0 <= k < more.len() implies term_within(
                                    #[trigger] more[k],
                                    101 - i,
                                    101,
                                ) by {
                                    if k < terms.len() - 1 {
                                        assert(more[k] == terms[k]);
                                    }
                                }
                                lemma_retopped(below, FrameV::DefinitionList { terms: more });
                            }
                        },
                        _ => {},
                    }
                }
            },
            FrameV::HtmlBlock(raw) => lemma_with_pieces(below, simplified(raw), 0, Seq::empty()),
            FrameV::Metadata(t) => {},
        }
    }
}

proof fn lemma_started(b: BuilderV, tag: TagV)
    requires
        builder_within(b),
        b.stack.len() < MAX_DEPTH,
    ensures
        builder_within(started(b, tag)),
{
    lemma_closed_implicit(b);
    let c = closed_implicit(b);
    match tag {
        TagV::Paragraph => {
            let d = if c.stack.len() > 0 {
                match c.stack.last() {
                    FrameV::Item { task, blocks, .. } => retopped(
                        c,
                        FrameV::Item { task, blocks, loose: true },
                    ),
                    _ => c,
                }
            } else {
                c
            };
            if c.stack.len() > 0 {
                assert(frame_within(c.stack.last(), c.stack.len() - 1));
                match c.stack.last() {
                    FrameV::Item { task, blocks, .. } => lemma_retopped(
                        c,
                        FrameV::Item { task, blocks, loose: true },
                    ),
                    _ => {},
                }
            }
            lemma_opened(d, FrameV::Paragraph { inlines: Seq::empty(), implicit: false });
        },
        TagV::Heading { level, id } => lemma_opened(
            c,
            FrameV::Heading { level, id, inlines: Seq::empty() },
        ),
        TagV::TableHead => {
            if b.stack.len() > 0 {
                assert(frame_within(b.stack.last(), b.stack.len() - 1));
                match b.stack.last() {
                    FrameV::Table { alignments, head, rows, .. } => {
                        let f = FrameV::Table { alignments, head, rows, in_head: true };
                        lemma_retopped(b, f);
                        lemma_opened(retopped(b, f), FrameV::TableRow { cells: Seq::empty() });
                    },
                    _ => lemma_opened(b, FrameV::TableRow { cells: Seq::empty() }),
                }
            } else {
                lemma_opened(b, FrameV::TableRow { cells: Seq::empty() });
            }
        },
        _ => {
            let r = started(b, tag);
            let f = r.stack.last();
            assert(frame_within(f, r.stack.len() - 1));
            if r == opened(c, f) {
                lemma_opened(c, f);
            } else {
                assert(r == opened(b, f));
                lemma_opened(b, f);
            }
        },
    }
}

proof fn lemma_item_frame(stack: Seq<FrameV>, n: int)
    requires
        0 <= n <= stack.len(),
    ensures
        -1 <= item_frame(stack, n) < n,
    decreases n,
{
    if n > 0 && !(stack[n - 1] is Item) {
        lemma_item_frame(stack, n - 1);
    }
}

proof fn lemma_after_event(b: BuilderV, e: EventV)
    requires
        builder_within(b),
    ensures
        builder_within(after_event(b, e)),
{
    match e {
        EventV::Start(tag) => {
            if b.stack.len() < MAX_DEPTH {
                lemma_started(b, tag);
            }
        },
        EventV::End(tag) => {
            if b.suppressed == 0 {
                lemma_closed_implicit(b);
                lemma_closed_top(closed_implicit(b));
                lemma_closed_top(b);
            }
        },
        EventV::Text(t) => {
            if b.stack.len() > 0 {
                assert(frame_within(b.stack.last(), b.stack.len() - 1));
                match b.stack.last() {
                    FrameV::CodeBlock { language, code } => lemma_retopped(
                        b,
                        FrameV::CodeBlock { language, code: code + t },
                    ),
                    FrameV::Metadata(s) => lemma_retopped(b, FrameV::Metadata(s + t)),
                    _ => lemma_with_inline(b, InlineV::Text(t)),
                }
            } else {
                lemma_with_inline(b, InlineV::Text(t));
            }
        },
        EventV::Code(t) => lemma_with_inline(b, InlineV::Code(t)),
        EventV::InlineMath(t) => lemma_with_inline(b, InlineV::Math { text: t, display: false }),
        EventV::DisplayMath(t) => lemma_with_block(b, BlockV::DisplayMath(t)),
        EventV::SoftBreak => lemma_with_inline(b, InlineV::SoftBreak),
        EventV::HardBreak => lemma_with_inline(b, InlineV::HardBreak),
        EventV::Rule => lemma_with_block(b, BlockV::Rule),
        EventV::FootnoteReference(label) => lemma_with_inline(b, InlineV::FootnoteRef(label)),
        EventV::TaskListMarker(checked) => {
            lemma_item_frame(b.stack, b.stack.len() as int);
            let k = item_frame(b.stack, b.stack.len() as int);
            if k >= 0 {
                assert(frame_within(b.stack[k], k));
                let c = with_task(b, checked);
                assert forall|i: int| 0 <= i < c.stack.len() implies frame_within(
                    #[trigger] c.stack[i],
                    i,
                ) by {
                    if i != k {
                        assert(c.stack[i] == b.stack[i]);
                    }
                }
            }
        },
        EventV::Html(h) => {
            if b.stack.len() > 0 {
                assert(frame_within(b.stack.last(), b.stack.len() - 1));
                match b.stack.last() {
                    FrameV::HtmlBlock(raw) => lemma_retopped(b, FrameV::HtmlBlock(raw + h)),
                    _ => lemma_with_pieces(b, simplified(h), 0, Seq::empty()),
                }
            } else {
                lemma_with_pieces(b, simplified(h), 0, Seq::empty());
            }
        },
        EventV::InlineHtml(h) => {
            let pieces = simplified(h);
            lemma_with_inline_pieces(b, pieces, pieces.len() as int);
        },
    }
}

proof fn lemma_after_events(events: Seq<EventV>)
    ensures
        builder_within(after_events(fresh(), events)),
    decreases events.len(),
{
    if events.len() > 0 {
        lemma_after_events(events.drop_last());
        lemma_after_event(after_events(fresh(), events.drop_last()), events.last());
    }
}

proof fn lemma_closed_all(b: BuilderV)
    requires
        builder_within(b),
    ensures
        builder_within(closed_all(b)),
    decreases weight(b.stack),
{
    if b.stack.len() > 0 {
        lemma_closed_top(b);
        lemma_closed_top_weight(b);
        lemma_closed_all(closed_top(b));
    }
}

/// Nesting has a floor: whatever the events, the blocks of the document nest no deeper
/// than one level more than the limit, and neither does inline content in them. The
/// blocks of its footnotes stay within the limit.
pub proof fn nesting_has_a_floor(events: Seq<EventV>)
    ensures
        blocks_within(document_of(events).blocks, MAX_DEPTH + 1, MAX_DEPTH + 1),
        forall|k: int|
            0 <= k < document_of(events).footnotes.len() ==> blocks_within(
                (#[trigger] document_of(events).footnotes[k]).1,
                MAX_DEPTH as int,
                MAX_DEPTH + 1,
            ),
{
    lemma_after_events(events);
    lemma_closed_all(after_events(fresh(), events));
}

} // verus!
