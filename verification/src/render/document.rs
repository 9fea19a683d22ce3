//! A whole document: its blocks, its footnotes, its links, and where everything ended
//! up.
use vstd::prelude::*;

use super::blocks::{
    at_least, at_most, blocks_drawn, marked, max_of, minus, no_lines, one_line, one_token,
    prefix_first_line, render_blocks, Env, EnvV, State, StateV,
};
use super::code::Highlighter;
use super::inline::{display_width, text_width, word_token, wrap, wrapped, Align, Token};
use super::table::{span_of, DrawnV};
use super::{
    blank_line, headings_view, line_of, lines_view, one_span, plain_span, prefixed, push_line,
    push_lines, shows_nothing, HeadingEntry, HeadingV, ImageProvider, Line, LineV, Pictures,
    RenderOptions, Screen, ScreenV, Span,
};
use crate::markdown::ir::{blocks_view, clone_text, footnotes_view, Block, BlockV, Document, DocumentV};
use crate::term::caps::Capabilities;
use crate::text;
use crate::text_map::TextMap;
use crate::theme::Theme;

verus! {

// --- footnotes and links --------------------------------------------------------

/// The numbers of the first `k` footnotes, by label; the last of two with one label
/// decides.
pub open spec fn footnote_numbers(notes: Seq<(Seq<char>, Seq<BlockV>)>, k: int) -> Map<
    Seq<char>,
    usize,
>
    decreases k,
{
    if k <= 0 {
        Map::empty()
    } else {
        footnote_numbers(notes, k - 1).insert(notes[k - 1].0, k as usize)
    }
}

fn number_footnotes(notes: &Vec<(String, Vec<Block>)>) -> (r: TextMap)
    ensures
        r@ == footnote_numbers(footnotes_view(*notes), notes@.len() as int),
{
    let ghost v = footnotes_view(*notes);
    let mut map = TextMap::new();
    for k in 0..notes.len()
        invariant
            v == footnotes_view(*notes),
            map@ == footnote_numbers(v, k as int),
    {
        assert(v[k as int].0 == notes@[k as int].0@);
        map.insert(notes[k].0.clone(), k + 1);
    }
    map
}

/// The rule above what is listed at the end of a document.
pub open spec fn short_rule(e: EnvV, width: int) -> LineV {
    line_of(
        seq![
            span_of(
                text::repeated(e.opts.glyphs.rule@, at_most(width, 24) as nat),
                e.theme.rule,
            ),
        ],
    )
}

/// `[n] `
pub open spec fn number_marker(n: nat) -> Seq<char> {
    "["@ + text::decimal(n) + "] "@
}

fn draw_rule(env: &Env<'_>, width: usize) -> (r: Line)
    ensures
        r@ == short_rule(env@, width as int),
{
    let n: usize = if width > 24 {
        24
    } else {
        width
    };
    let mut rule: String = String::new();
    text::push_repeated(&mut rule, env.opts.glyphs.rule, n);
    assert(rule@ =~= text::repeated(env.opts.glyphs.rule@, n as nat));
    Line::from_spans(one_span(Span::new(rule, env.theme.rule, None)))
}

fn write_marker(n: usize) -> (r: String)
    ensures
        r@ == number_marker(n as nat),
{
    let mut out = text::owned("[");
    text::push_decimal(&mut out, n as u64);
    out.push_str("] ");
    out
}

/// The first `k` footnotes, each under its number.
pub open spec fn notes_drawn(
    e: EnvV,
    pics: Pictures,
    notes: Seq<(Seq<char>, Seq<BlockV>)>,
    k: int,
    width: int,
    d: DrawnV,
) -> DrawnV
    decreases k,
{
    if k <= 0 {
        d
    } else {
        let before = notes_drawn(e, pics, notes, k - 1, width, d);
        let label = notes[k - 1].0;
        let marker = number_marker(
            if e.footnotes.dom().contains(label) {
                e.footnotes[label] as nat
            } else {
                0
            },
        );
        let columns = text_width(marker) as int;
        let r = blocks_drawn(e, pics, notes[k - 1].1, minus(width, columns), before.st);
        let lines = if r.lines.len() == 0 {
            seq![blank_line()]
        } else {
            r.lines
        };
        DrawnV {
            lines: before.lines.push(blank_line()) + marked(
                lines,
                marker,
                e.theme.footnote_ref,
                columns,
            ),
            st: r.st,
        }
    }
}

/// The first `k` listed links, each under its number.
pub open spec fn references_drawn(e: EnvV, links: Seq<Seq<char>>, k: int, width: int) -> Seq<LineV>
    decreases k,
{
    if k <= 0 {
        seq![blank_line(), short_rule(e, width)]
    } else {
        let marker = number_marker(k as nat);
        let columns = text_width(marker) as int;
        references_drawn(e, links, k - 1, width) + marked(
            wrapped(
                seq![word_token(links[k - 1], e.theme.link_url, None)],
                minus(width, columns),
                Align::Left,
            ),
            marker,
            e.theme.footnote_ref,
            columns,
        )
    }
}

fn render_footnotes<P: ImageProvider>(
    notes: &Vec<(String, Vec<Block>)>,
    env: &Env<'_>,
    st: &mut State,
    images: &mut P,
    width: usize,
    out: &mut Vec<Line>,
)
    ensures
        (DrawnV { lines: lines_view(final(out)@), st: final(st)@ }) == notes_drawn(
            env@,
            old(images).pictures(),
            footnotes_view(*notes),
            notes@.len() as int,
            width as int,
            DrawnV {
                lines: lines_view(old(out)@) + seq![
                    blank_line(),
                    short_rule(env@, width as int),
                ],
                st: old(st)@,
            },
        ),
        final(images).pictures() == old(images).pictures(),
{
    let ghost v = footnotes_view(*notes);
    let ghost pics = images.pictures();
    push_line(out, Line::default());
    push_line(out, draw_rule(env, width));
    assert(lines_view(out@) =~= lines_view(old(out)@) + seq![
        blank_line(),
        short_rule(env@, width as int),
    ]);
    let ghost d = DrawnV { lines: lines_view(out@), st: st@ };
    for k in 0..notes.len()
        invariant
            v == footnotes_view(*notes),
            pics == old(images).pictures(),
            images.pictures() == pics,
            (DrawnV { lines: lines_view(out@), st: st@ }) == notes_drawn(
                env@,
                pics,
                v,
                k as int,
                width as int,
                d,
            ),
    {
        assert(v[k as int].0 == notes@[k as int].0@);
        assert(v[k as int].1 == blocks_view(notes@[k as int].1));
        let number: usize = match env.footnote_numbers.get(&notes[k].0) {
            Some(n) => n,
            None => 0,
        };
        let marker = write_marker(number);
        let columns = display_width(&marker);
        let mut lines = render_blocks(
            &notes[k].1,
            env,
            st,
            images,
            width.saturating_sub(columns),
        );
        if lines.len() == 0 {
            lines = one_line(Line::default());
        }
        prefix_first_line(&mut lines, marker, env.theme.footnote_ref, columns);
        push_line(out, Line::default());
        push_lines(out, lines);
    }
}

fn render_reference_links(links: &Vec<String>, env: &Env<'_>, width: usize) -> (r: Vec<Line>)
    ensures
        lines_view(r@) == references_drawn(
            env@,
            text::views(links@),
            links@.len() as int,
            width as int,
        ),
{
    let ghost v = text::views(links@);
    let mut out = no_lines();
    push_line(&mut out, Line::default());
    push_line(&mut out, draw_rule(env, width));
    assert(lines_view(out@) =~= seq![blank_line(), short_rule(env@, width as int)]);
    for k in 0..links.len()
        invariant
            v == text::views(links@),
            lines_view(out@) == references_drawn(env@, v, k as int, width as int),
    {
        assert(v[k as int] == links@[k as int]@);
        let marker = write_marker(k + 1);
        let columns = display_width(&marker);
        let tokens = one_token(Token::word(links[k].clone(), env.theme.link_url, None));
        let mut lines = wrap(&tokens, width.saturating_sub(columns), Align::Left);
        prefix_first_line(&mut lines, marker, env.theme.footnote_ref, columns);
        push_lines(&mut out, lines);
    }
    out
}

// --- the page ---------------------------------------------------------------------

/// True of a line that may be dropped at the edge of a page.
pub open spec fn is_edge(l: LineV) -> bool {
    shows_nothing(l) && !l.image_filler
}

/// Lines without the blank ones at the top.
pub open spec fn trimmed_top(s: Seq<LineV>) -> Seq<LineV>
    decreases s.len(),
{
    if s.len() > 0 && is_edge(s.first()) {
        trimmed_top(s.drop_first())
    } else {
        s
    }
}

/// Lines without the blank ones at the bottom.
pub open spec fn trimmed_bottom(s: Seq<LineV>) -> Seq<LineV>
    decreases s.len(),
{
    if s.len() > 0 && is_edge(s.last()) {
        trimmed_bottom(s.drop_last())
    } else {
        s
    }
}

/// Lines without the blank ones at either end.
pub open spec fn trimmed_edges(s: Seq<LineV>) -> Seq<LineV> {
    trimmed_bottom(trimmed_top(s))
}

pub fn trim_blank_edges(lines: &mut Vec<Line>)
    ensures
        lines_view(final(lines)@) == trimmed_edges(lines_view(old(lines)@)),
{
    let ghost v = lines_view(lines@);
    while lines.len() > 0 && lines[0].is_blank() && !lines[0].image_filler
        invariant
            trimmed_top(lines_view(lines@)) == trimmed_top(v),
        decreases lines.len(),
    {
        let ghost before = lines_view(lines@);
        assert(before.first() == lines@[0]@);
        lines.remove(0);
        assert(lines_view(lines@) =~= before.drop_first());
    }
    if lines.len() > 0 {
        assert(lines_view(lines@).first() == lines@[0]@);
    }
    let ghost w = lines_view(lines@);
    assert(w == trimmed_top(v));
    while lines.len() > 0 && lines[lines.len() - 1].is_blank() && !lines[lines.len()
        - 1].image_filler
        invariant
            trimmed_bottom(lines_view(lines@)) == trimmed_bottom(w),
        decreases lines.len(),
    {
        let ghost before = lines_view(lines@);
        assert(before.last() == lines@[lines@.len() - 1]@);
        lines.pop();
        assert(lines_view(lines@) =~= before.drop_last());
    }
    if lines.len() > 0 {
        assert(lines_view(lines@).last() == lines@[lines@.len() - 1]@);
    }
}

/// A line with the left margin, if there is anything on it.
pub open spec fn with_margin(l: LineV, margin: nat) -> LineV {
    if margin > 0 && (l.spans.len() > 0 || l.image is Some) {
        prefixed(l, seq![plain_span(text::spaces(margin))])
    } else {
        l
    }
}

fn add_margin(lines: &mut Vec<Line>, margin: usize)
    ensures
        lines_view(final(lines)@) == lines_view(old(lines)@).map_values(
            |l: LineV| with_margin(l, margin as nat),
        ),
{
    let ghost v = lines_view(lines@);
    let ghost all = v.map_values(|l: LineV| with_margin(l, margin as nat));
    let n: usize = lines.len();
    for i in 0..n
        invariant
            n == lines.len(),
            n == v.len(),
            all == v.map_values(|l: LineV| with_margin(l, margin as nat)),
            forall|k: int| 0 <= k < i ==> (#[trigger] lines@[k])@ == all[k],
            forall|k: int| i <= k < n ==> (#[trigger] lines@[k])@ == v[k],
    {
        assert(lines@[i as int]@ == v[i as int]);
        if margin > 0 && (lines[i].spans.len() > 0 || lines[i].image.is_some()) {
            lines[i].prefix(one_span(Span::plain(text::spaces_string(margin))));
        }
        assert(lines@[i as int]@ == all[i as int]);
    }
    assert(lines_view(lines@) =~= all);
}

/// Headings and anchors, once the lines are placed.
pub struct PlacedV {
    pub headings: Seq<HeadingV>,
    pub anchors: Map<Seq<char>, usize>,
}

/// The headings and anchors of the first `k` lines.
pub open spec fn placed(headings: Seq<HeadingV>, lines: Seq<LineV>, k: int) -> PlacedV
    decreases k,
{
    if k <= 0 {
        PlacedV { headings, anchors: Map::empty() }
    } else {
        let p = placed(headings, lines, k - 1);
        match lines[k - 1].anchor {
            Some(i) => if i < p.headings.len() {
                PlacedV {
                    headings: p.headings.update(
                        i as int,
                        HeadingV { line: (k - 1) as usize, ..p.headings[i as int] },
                    ),
                    anchors: p.anchors.insert(p.headings[i as int].id, (k - 1) as usize),
                }
            } else {
                p
            },
            None => p,
        }
    }
}

fn place_headings(headings: &mut Vec<HeadingEntry>, lines: &Vec<Line>) -> (anchors: TextMap)
    ensures
        (PlacedV { headings: headings_view(final(headings)@), anchors: anchors@ }) == placed(
            headings_view(old(headings)@),
            lines_view(lines@),
            lines@.len() as int,
        ),
{
    let ghost v = lines_view(lines@);
    let ghost heads = headings_view(headings@);
    let mut anchors = TextMap::new();
    for k in 0..lines.len()
        invariant
            v == lines_view(lines@),
            (PlacedV { headings: headings_view(headings@), anchors: anchors@ }) == placed(
                heads,
                v,
                k as int,
            ),
    {
        assert(v[k as int] == lines@[k as int]@);
        match lines[k].anchor {
            Some(i) => {
                if i < headings.len() {
                    let ghost before = headings_view(headings@);
                    assert(before[i as int] == headings@[i as int]@);
                    headings[i].line = k;
                    anchors.insert(headings[i].id.clone(), k);
                    assert(headings_view(headings@) =~= before.update(
                        i as int,
                        HeadingV { line: k, ..before[i as int] },
                    ));
                }
            },
            None => {},
        }
    }
    anchors
}

/// The environment that a document is drawn in.
pub open spec fn env_for(
    doc: DocumentV,
    opts: RenderOptions,
    theme: Theme,
    caps: Capabilities,
    highlighter: Highlighter,
) -> EnvV {
    EnvV {
        opts,
        theme,
        caps,
        highlighter,
        footnotes: footnote_numbers(doc.footnotes, doc.footnotes.len() as int),
    }
}

/// The lines of a document before they are placed on the page.
pub open spec fn content_drawn(e: EnvV, pics: Pictures, doc: DocumentV) -> DrawnV {
    let width = at_least(minus(e.opts.width as int, 2 * e.opts.margin), 8);
    let d = blocks_drawn(
        e,
        pics,
        doc.blocks,
        width,
        StateV {
            links: Seq::empty(),
            headings: Seq::empty(),
            references: Seq::empty(),
            code_blocks: Seq::empty(),
        },
    );
    let noted = if doc.footnotes.len() > 0 {
        notes_drawn(
            e,
            pics,
            doc.footnotes,
            doc.footnotes.len() as int,
            width,
            DrawnV { lines: d.lines + seq![blank_line(), short_rule(e, width)], st: d.st },
        )
    } else {
        d
    };
    if noted.st.references.len() > 0 {
        DrawnV {
            lines: noted.lines + references_drawn(
                e,
                noted.st.references,
                noted.st.references.len() as int,
                width,
            ),
            ..noted
        }
    } else {
        noted
    }
}

/// A document laid out. The left margin is applied once, at the end, so that every
/// layout decision works in a zero-based coordinate space.
pub open spec fn document_drawn(e: EnvV, pics: Pictures, doc: DocumentV) -> ScreenV {
    let d = content_drawn(e, pics, doc);
    let lines = trimmed_edges(d.lines).map_values(
        |l: LineV| with_margin(l, e.opts.margin as nat),
    );
    let p = placed(d.st.headings, lines, lines.len() as int);
    ScreenV {
        lines,
        links: d.st.links,
        headings: p.headings,
        anchors: p.anchors,
        code_blocks: d.st.code_blocks,
        width: e.opts.width,
        title: doc.title,
    }
}

/// Lays out a document.
pub fn render_document<P: ImageProvider>(
    doc: &Document,
    opts: &RenderOptions,
    theme: &Theme,
    caps: &Capabilities,
    images: &mut P,
    highlighter: &Highlighter,
) -> (r: Screen)
    ensures
        r@ == document_drawn(
            env_for(doc@, *opts, *theme, *caps, *highlighter),
            old(images).pictures(),
            doc@,
        ),
        final(images).pictures() == old(images).pictures(),
{
    let env = Env {
        opts,
        theme,
        caps,
        highlighter,
        footnote_numbers: number_footnotes(&doc.footnotes),
    };
    let mut st = State {
        links: Vec::new(),
        headings: Vec::new(),
        references: Vec::new(),
        code_blocks: Vec::new(),
    };
    assert(text::views(st.links@) =~= Seq::empty());
    assert(headings_view(st.headings@) =~= Seq::empty());
    assert(text::views(st.references@) =~= Seq::empty());
    assert(text::views(st.code_blocks@) =~= Seq::empty());
    let ghost e = env@;
    let ghost pics = images.pictures();
    assert(e == env_for(doc@, *opts, *theme, *caps, *highlighter));
    let width = max_of(opts.width.saturating_sub(opts.margin).saturating_sub(opts.margin), 8);
    let mut lines = render_blocks(&doc.blocks, &env, &mut st, images, width);
    if doc.footnotes.len() > 0 {
        render_footnotes(&doc.footnotes, &env, &mut st, images, width, &mut lines);
    }
    if st.references.len() > 0 {
        push_lines(&mut lines, render_reference_links(&st.references, &env, width));
    }
    assert((DrawnV { lines: lines_view(lines@), st: st@ }) == content_drawn(e, pics, doc@));
    trim_blank_edges(&mut lines);
    add_margin(&mut lines, opts.margin);
    // Headings know their line numbers only now that everything is placed.
    let mut headings = st.headings;
    let anchors = place_headings(&mut headings, &lines);
    Screen {
        lines,
        links: st.links,
        headings,
        anchors,
        code_blocks: st.code_blocks,
        width: opts.width,
        title: clone_text(&doc.title),
    }
}

// --- laws ---------------------------------------------------------------------------

/// True when line `line` starts a heading with the given anchor.
pub open spec fn starts_heading(
    lines: Seq<LineV>,
    headings: Seq<HeadingV>,
    line: int,
    id: Seq<char>,
) -> bool {
    0 <= line < lines.len() && (lines[line].anchor matches Some(i) && i < headings.len()
        && headings[i as int].id == id)
}

proof fn lemma_placed(headings: Seq<HeadingV>, lines: Seq<LineV>, k: int)
    requires
        0 <= k <= lines.len() <= usize::MAX,
    ensures
        placed(headings, lines, k).headings.len() == headings.len(),
        forall|i: int|
            0 <= i < headings.len() ==> (#[trigger] placed(headings, lines, k).headings[i]).id
                == headings[i].id,
        forall|id: Seq<char>| #[trigger]
            placed(headings, lines, k).anchors.dom().contains(id) ==> starts_heading(
                lines,
                headings,
                placed(headings, lines, k).anchors[id] as int,
                id,
            ),
        forall|j: int, id: Seq<char>|
            j < k && #[trigger] starts_heading(lines, headings, j, id) ==> placed(
                headings,
                lines,
                k,
            ).anchors.dom().contains(id),
    decreases k,
{
    if k > 0 {
        lemma_placed(headings, lines, k - 1);
        let p = placed(headings, lines, k - 1);
        let q = placed(headings, lines, k);
        assert forall|id: Seq<char>| #[trigger] q.anchors.dom().contains(id) implies starts_heading(
            lines,
            headings,
            q.anchors[id] as int,
            id,
        ) by {
            if p.anchors.dom().contains(id) {
                assert(starts_heading(lines, headings, p.anchors[id] as int, id));
            }
        }
        assert forall|j: int, id: Seq<char>|
            j < k && #[trigger] starts_heading(lines, headings, j, id) implies q.anchors.dom().contains(
            id,
        ) by {
            if j < k - 1 {
                assert(p.anchors.dom().contains(id));
            }
        }
    }
}

/// A link to a heading resolves: every line that starts a heading has that heading's
/// anchor, and an anchor leads to a line that starts a heading of that name.
pub proof fn anchors_lead_to_headings(e: EnvV, pics: Pictures, doc: DocumentV)
    requires
        document_drawn(e, pics, doc).lines.len() <= usize::MAX,
    ensures
        forall|id: Seq<char>| #[trigger]
            document_drawn(e, pics, doc).anchors.dom().contains(id) ==> starts_heading(
                document_drawn(e, pics, doc).lines,
                document_drawn(e, pics, doc).headings,
                document_drawn(e, pics, doc).anchors[id] as int,
                id,
            ),
        forall|j: int, id: Seq<char>| #[trigger]
            starts_heading(
                document_drawn(e, pics, doc).lines,
                document_drawn(e, pics, doc).headings,
                j,
                id,
            ) ==> document_drawn(e, pics, doc).anchors.dom().contains(id),
{
    let s = document_drawn(e, pics, doc);
    let heads = content_drawn(e, pics, doc).st.headings;
    lemma_placed(heads, s.lines, s.lines.len() as int);
    assert forall|id: Seq<char>| #[trigger] s.anchors.dom().contains(id) implies starts_heading(
        s.lines,
        s.headings,
        s.anchors[id] as int,
        id,
    ) by {
        assert(starts_heading(s.lines, heads, s.anchors[id] as int, id));
    }
    assert forall|j: int, id: Seq<char>| #[trigger]
        starts_heading(s.lines, s.headings, j, id) implies s.anchors.dom().contains(id) by {
        let i = s.lines[j].anchor->0 as int;
        assert(s.headings[i].id == heads[i].id);
        assert(starts_heading(s.lines, heads, j, id));
    }
}

} // verus!
