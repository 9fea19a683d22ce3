//! What a terminal shows of a page that was written to it.
//!
//! Besides styles the reader here follows hyperlinks: each character is shown in a style
//! and, where a link is open, leads somewhere.
use vstd::prelude::*;

use super::{
    line_written, link_uri, relinked, rows_written, screen_written, span_written, spans_written,
    ImageProvider, InkV, LineV, ScreenV, SpanV, WriteOptions,
};
use crate::term::caps::Capabilities;
use crate::term::display::numbers;
use crate::term::style::{
    faded, plain_style, read_params, sequence, transitions_reach_every_depth, Style, StyleWriter,
};
use crate::text;

verus! {

/// A character as it is shown: in a style, and perhaps as part of a link.
pub struct Shown {
    pub symbol: char,
    pub style: Style,
    pub link: Option<Seq<char>>,
}

/// What a terminal shows of a text, when `s` is the style in force and `link` the link
/// that is open.
pub open spec fn shown(t: Seq<char>, s: Style, link: Option<Seq<char>>) -> Seq<Shown>
    decreases t.len(),
{
    if t.len() == 0 {
        Seq::empty()
    } else if t.len() >= 2 && t[0] == '\x1b' && t[1] == '[' {
        let end = text::index_of(t, 'm', 2);
        if 2 <= end < t.len() {
            shown(t.skip(end + 1), read_params(s, numbers(t.subrange(2, end), 0), 0), link)
        } else {
            Seq::empty()
        }
    } else if t.len() >= 5 && t.take(5) == seq!['\x1b', ']', '8', ';', ';'] {
        let end = text::index_of(t, '\x1b', 5);
        if 5 <= end && end + 1 < t.len() && t[end + 1] == '\\' {
            let url = t.subrange(5, end);
            shown(
                t.skip(end + 2),
                s,
                if url.len() == 0 {
                    None
                } else {
                    Some(url)
                },
            )
        } else {
            Seq::empty()
        }
    } else {
        seq![Shown { symbol: t[0], style: s, link }] + shown(t.skip(1), s, link)
    }
}

pub open spec fn one_shown(symbol: char, style: Style, link: Option<Seq<char>>) -> Shown {
    Shown { symbol, style, link }
}

/// The characters of a text, all in one style and part of one link.
pub open spec fn all_shown(t: Seq<char>, s: Style, link: Option<Seq<char>>) -> Seq<Shown>
    decreases t.len(),
{
    if t.len() == 0 {
        Seq::empty()
    } else {
        seq![one_shown(t[0], s, link)] + all_shown(t.skip(1), s, link)
    }
}

proof fn lemma_plain(t: Seq<char>, rest: Seq<char>, s: Style, link: Option<Seq<char>>)
    requires
        !t.contains('\x1b'),
    ensures
        shown(t + rest, s, link) == all_shown(t, s, link) + shown(rest, s, link),
    decreases t.len(),
{
    if t.len() == 0 {
        assert(t + rest =~= rest);
        assert(all_shown(t, s, link) + shown(rest, s, link) =~= shown(rest, s, link));
    } else {
        let all = t + rest;
        assert(t.contains(t[0]));
        assert(all[0] == t[0]);
        if all.len() >= 5 {
            assert(all.take(5)[0] == all[0]);
        }
        assert(all.skip(1) =~= t.skip(1) + rest);
        assert(!t.skip(1).contains('\x1b')) by {
            if t.skip(1).contains('\x1b') {
                let i = choose|i: int| 0 <= i < t.skip(1).len() && t.skip(1)[i] == '\x1b';
                assert(t[i + 1] == '\x1b');
            }
        }
        lemma_plain(t.skip(1), rest, s, link);
        assert(all_shown(t, s, link) == seq![one_shown(t[0], s, link)] + all_shown(
            t.skip(1),
            s,
            link,
        ));
        assert(shown(all, s, link) == seq![one_shown(t[0], s, link)] + shown(
            all.skip(1),
            s,
            link,
        ));
        assert(seq![one_shown(t[0], s, link)] + (all_shown(t.skip(1), s, link) + shown(
            rest,
            s,
            link,
        )) =~= all_shown(t, s, link) + shown(rest, s, link));
    }
}

proof fn lemma_index(s: Seq<char>, c: char, from: int, at: int)
    requires
        0 <= from <= at < s.len(),
        s[at] == c,
        forall|k: int| from <= k < at ==> #[trigger] s[k] != c,
    ensures
        text::index_of(s, c, from) == at,
    decreases at - from,
{
    if from < at {
        lemma_index(s, c, from + 1, at);
    }
}

/// A sequence of numbers changes the style and shows nothing.
proof fn lemma_sequence(p: Seq<nat>, rest: Seq<char>, s: Style, link: Option<Seq<char>>)
    requires
        p.len() > 0,
    ensures
        shown(sequence(p) + rest, s, link) == shown(rest, read_params(s, p, 0), link),
{
    let end = crate::term::display::lemma_sequence_parts(p, rest);
    let t = sequence(p) + rest;
    assert(t.take(5)[1] == t[1] || t.len() < 5);
}

/// A link that opens or closes shows nothing.
proof fn lemma_link(url: Seq<char>, rest: Seq<char>, s: Style, link: Option<Seq<char>>)
    requires
        !url.contains('\x1b'),
    ensures
        shown("\x1b]8;;"@ + url + "\x1b\\"@ + rest, s, link) == shown(
            rest,
            s,
            if url.len() == 0 {
                None
            } else {
                Some(url)
            },
        ),
{
    reveal_strlit("\x1b]8;;");
    reveal_strlit("\x1b\\");
    let t = "\x1b]8;;"@ + url + "\x1b\\"@ + rest;
    let end: int = 5 + url.len() as int;
    assert(t.take(5) =~= seq!['\x1b', ']', '8', ';', ';']);
    assert(t[end] == '\x1b' && t[end + 1] == '\\');
    assert forall|k: int| 5 <= k < end implies #[trigger] t[k] != '\x1b' by {
        assert(t[k] == url[k - 5]);
    }
    lemma_index(t, '\x1b', 5, end);
    assert(t.subrange(5, end) =~= url);
    assert(t.skip(end + 2) =~= rest);
}

/// Where a span leads: nowhere without hyperlinks, or where its link has no place.
pub open spec fn leads_to(link: Option<usize>, links: Seq<Seq<char>>, hyperlinks: bool) -> Option<
    Seq<char>,
> {
    match link {
        Some(i) => if hyperlinks && i < links.len() {
            Some(link_uri(links[i as int], false))
        } else {
            None
        },
        None => None,
    }
}

/// True of links that can be written: none is empty or holds an escape.
pub open spec fn links_are_clean(links: Seq<Seq<char>>) -> bool {
    forall|i: int|
        0 <= i < links.len() ==> {
            let u = link_uri(#[trigger] links[i], false);
            u.len() > 0 && !u.contains('\x1b')
        }
}

/// What is shown of a run of spans: the characters of each, in its own style as far as
/// the terminal has it, leading where the span does.
pub open spec fn spans_shown(
    spans: Seq<SpanV>,
    w: StyleWriter,
    links: Seq<Seq<char>>,
    hyperlinks: bool,
) -> Seq<Shown>
    decreases spans.len(),
{
    if spans.len() == 0 {
        Seq::empty()
    } else {
        let last = spans.last();
        spans_shown(spans.drop_last(), w, links, hyperlinks) + all_shown(
            last.text,
            faded(w.depth, w.normal(last.style)),
            leads_to(last.link, links, hyperlinks),
        )
    }
}

/// True of spans without an escape in them.
pub open spec fn spans_are_clean(spans: Seq<SpanV>) -> bool {
    forall|i: int| 0 <= i < spans.len() ==> !(#[trigger] spans[i]).text.contains('\x1b')
}

/// True of ink whose text shows some glyphs, and goes on in its own style and link.
spec fn shows(ink: InkV, links: Seq<Seq<char>>, hyperlinks: bool, gs: Seq<Shown>) -> bool {
    forall|rest: Seq<char>|
        #![trigger shown(ink.out + rest, plain_style(), None)]
        shown(ink.out + rest, plain_style(), None) == gs + shown(
            rest,
            faded(ink.writer.depth, ink.writer.current),
            leads_to(ink.link, links, hyperlinks),
        )
}

proof fn lemma_transition(w: StyleWriter, next: Style, rest: Seq<char>, link: Option<Seq<char>>)
    ensures
        shown(w.written(next) + rest, faded(w.depth, w.current), link) == shown(
            rest,
            faded(w.depth, w.normal(next)),
            link,
        ),
{
    transitions_reach_every_depth(w, next);
    if w.normal(next) == w.current {
        assert(w.written(next) + rest =~= rest);
    } else {
        lemma_sequence(w.sent(next), rest, faded(w.depth, w.current), link);
    }
}

proof fn lemma_reset(w: StyleWriter, rest: Seq<char>, link: Option<Seq<char>>)
    ensures
        shown(w.reset_text() + rest, faded(w.depth, w.current), link) == shown(
            rest,
            plain_style(),
            link,
        ),
{
    assert(faded(w.depth, plain_style()) == plain_style());
    if w.current == plain_style() {
        assert(w.reset_text() + rest =~= rest);
    } else {
        crate::term::display::lemma_reset_is_sequence();
        reveal_with_fuel(read_params, 3);
        lemma_sequence(seq![0nat], rest, faded(w.depth, w.current), link);
    }
}

proof fn lemma_relinked(
    links: Seq<Seq<char>>,
    hyperlinks: bool,
    from: Option<usize>,
    to: Option<usize>,
    rest: Seq<char>,
    s: Style,
)
    requires
        links_are_clean(links),
    ensures
        shown(relinked(links, hyperlinks, from, to) + rest, s, leads_to(from, links, hyperlinks))
            == shown(rest, s, leads_to(to, links, hyperlinks)),
{
    let none = Seq::<char>::empty();
    reveal_strlit("\x1b]8;;");
    reveal_strlit("\x1b\\");
    reveal_strlit("\x1b]8;;\x1b\\");
    let close = if from is Some {
        super::link_close()
    } else {
        none
    };
    let open = match to {
        Some(i) => if hyperlinks && i < links.len() {
            super::link_open(links[i as int])
        } else {
            none
        },
        None => none,
    };
    assert(relinked(links, hyperlinks, from, to) + rest =~= close + (open + rest));
    let mid = open + rest;
    assert(shown(close + mid, s, leads_to(from, links, hyperlinks)) == shown(mid, s, None)) by {
        if from is Some {
            assert(close + mid =~= "\x1b]8;;"@ + none + "\x1b\\"@ + mid);
            lemma_link(none, mid, s, leads_to(from, links, hyperlinks));
        } else {
            assert(close + mid =~= mid);
        }
    }
    match to {
        Some(i) => if hyperlinks && i < links.len() {
            let u = link_uri(links[i as int], false);
            assert(mid =~= "\x1b]8;;"@ + u + "\x1b\\"@ + rest);
            lemma_link(u, rest, s, None);
        } else {
            assert(mid =~= rest);
        },
        None => {
            assert(mid =~= rest);
        },
    }
}

/// What is written for one span.
spec fn span_text(ink: InkV, span: SpanV, links: Seq<Seq<char>>, hyperlinks: bool) -> Seq<char> {
    (if span.link != ink.link {
        relinked(links, hyperlinks, ink.link, span.link)
    } else {
        Seq::empty()
    }) + ink.writer.written(span.style) + span.text
}

proof fn lemma_span_text(
    ink: InkV,
    span: SpanV,
    links: Seq<Seq<char>>,
    hyperlinks: bool,
    rest: Seq<char>,
)
    requires
        links_are_clean(links),
        !span.text.contains('\x1b'),
    ensures
        shown(
            span_text(ink, span, links, hyperlinks) + rest,
            faded(ink.writer.depth, ink.writer.current),
            leads_to(ink.link, links, hyperlinks),
        ) == all_shown(
            span.text,
            faded(ink.writer.depth, ink.writer.normal(span.style)),
            leads_to(span.link, links, hyperlinks),
        ) + shown(
            rest,
            faded(ink.writer.depth, ink.writer.normal(span.style)),
            leads_to(span.link, links, hyperlinks),
        ),
{
    let now = faded(ink.writer.depth, ink.writer.current);
    let style = faded(ink.writer.depth, ink.writer.normal(span.style));
    let to = leads_to(span.link, links, hyperlinks);
    let tail = span.text + rest;
    let styled = ink.writer.written(span.style) + tail;
    let re = if span.link != ink.link {
        relinked(links, hyperlinks, ink.link, span.link)
    } else {
        Seq::empty()
    };
    assert(span_text(ink, span, links, hyperlinks) + rest =~= re + styled);
    if span.link != ink.link {
        lemma_relinked(links, hyperlinks, ink.link, span.link, styled, now);
    } else {
        assert(re + styled =~= styled);
    }
    lemma_transition(ink.writer, span.style, tail, to);
    lemma_plain(span.text, rest, style, to);
}

/// Ink that has more written behind it, which shows more and leaves another ink.
proof fn lemma_more(
    ink: InkV,
    after: InkV,
    more: Seq<char>,
    own: Seq<Shown>,
    links: Seq<Seq<char>>,
    hyperlinks: bool,
    gs: Seq<Shown>,
)
    requires
        shows(ink, links, hyperlinks, gs),
        after.out == ink.out + more,
        forall|rest: Seq<char>|
            #![trigger more + rest]
            shown(
                more + rest,
                faded(ink.writer.depth, ink.writer.current),
                leads_to(ink.link, links, hyperlinks),
            ) == own + shown(
                rest,
                faded(after.writer.depth, after.writer.current),
                leads_to(after.link, links, hyperlinks),
            ),
    ensures
        shows(after, links, hyperlinks, gs + own),
{
    let a = faded(ink.writer.depth, ink.writer.current);
    let b = faded(after.writer.depth, after.writer.current);
    let x = leads_to(ink.link, links, hyperlinks);
    let y = leads_to(after.link, links, hyperlinks);
    assert forall|rest: Seq<char>| #![trigger shown(after.out + rest, plain_style(), None)]
        shown(after.out + rest, plain_style(), None) == (gs + own) + shown(rest, b, y) by {
        assert(after.out + rest =~= ink.out + (more + rest));
        assert(shown(ink.out + (more + rest), plain_style(), None) == gs + shown(
            more + rest,
            a,
            x,
        ));
        assert(gs + (own + shown(rest, b, y)) =~= (gs + own) + shown(rest, b, y));
    }
}

proof fn lemma_span(
    ink: InkV,
    span: SpanV,
    links: Seq<Seq<char>>,
    hyperlinks: bool,
    gs: Seq<Shown>,
)
    requires
        shows(ink, links, hyperlinks, gs),
        links_are_clean(links),
        !span.text.contains('\x1b'),
    ensures
        shows(
            span_written(ink, span, links, hyperlinks),
            links,
            hyperlinks,
            gs + all_shown(
                span.text,
                faded(ink.writer.depth, ink.writer.normal(span.style)),
                leads_to(span.link, links, hyperlinks),
            ),
        ),
{
    let after = span_written(ink, span, links, hyperlinks);
    let more = span_text(ink, span, links, hyperlinks);
    assert(after.out =~= ink.out + more);
    let own = all_shown(
        span.text,
        faded(ink.writer.depth, ink.writer.normal(span.style)),
        leads_to(span.link, links, hyperlinks),
    );
    assert forall|rest: Seq<char>| #![trigger more + rest]
        shown(
            more + rest,
            faded(ink.writer.depth, ink.writer.current),
            leads_to(ink.link, links, hyperlinks),
        ) == own + shown(
            rest,
            faded(after.writer.depth, after.writer.current),
            leads_to(after.link, links, hyperlinks),
        ) by {
        lemma_span_text(ink, span, links, hyperlinks, rest);
    }
    lemma_more(ink, after, more, own, links, hyperlinks, gs);
}

proof fn lemma_spans(
    ink: InkV,
    spans: Seq<SpanV>,
    k: int,
    links: Seq<Seq<char>>,
    hyperlinks: bool,
    gs: Seq<Shown>,
)
    requires
        shows(ink, links, hyperlinks, gs),
        links_are_clean(links),
        spans_are_clean(spans),
        0 <= k <= spans.len(),
    ensures
        ({
            let after = spans_written(ink, spans, k, links, hyperlinks);
            &&& after.writer.depth == ink.writer.depth
            &&& after.writer.italic_as_underline == ink.writer.italic_as_underline
            &&& shows(
                after,
                links,
                hyperlinks,
                gs + spans_shown(spans.take(k), ink.writer, links, hyperlinks),
            )
        }),
    decreases k,
{
    if k <= 0 {
        assert(spans.take(0) =~= Seq::empty());
        assert(gs + Seq::<Shown>::empty() =~= gs);
    } else {
        lemma_spans(ink, spans, k - 1, links, hyperlinks, gs);
        let before = spans_written(ink, spans, k - 1, links, hyperlinks);
        let above = spans_shown(spans.take(k - 1), ink.writer, links, hyperlinks);
        assert(!spans[k - 1].text.contains('\x1b'));
        lemma_span(before, spans[k - 1], links, hyperlinks, gs + above);
        assert(before.writer.normal(spans[k - 1].style) == ink.writer.normal(spans[k - 1].style));
        let own = all_shown(
            spans[k - 1].text,
            faded(ink.writer.depth, ink.writer.normal(spans[k - 1].style)),
            leads_to(spans[k - 1].link, links, hyperlinks),
        );
        assert(spans.take(k).drop_last() =~= spans.take(k - 1));
        assert(gs + above + own =~= gs + (above + own));
    }
}

/// A line of the page: its spans, and its end, in no style and part of no link.
pub open spec fn line_shown(
    spans: Seq<SpanV>,
    w: StyleWriter,
    links: Seq<Seq<char>>,
    hyperlinks: bool,
) -> Seq<Shown> {
    spans_shown(spans, w, links, hyperlinks).push(one_shown('\n', plain_style(), None))
}

/// What is written at the end of a line.
spec fn end_text(s: InkV) -> Seq<char> {
    (if s.link is Some {
        super::link_close()
    } else {
        Seq::empty()
    }) + s.writer.reset_text() + seq!['\n']
}

proof fn lemma_end_text(s: InkV, links: Seq<Seq<char>>, hyperlinks: bool, rest: Seq<char>)
    requires
        links_are_clean(links),
    ensures
        shown(
            end_text(s) + rest,
            faded(s.writer.depth, s.writer.current),
            leads_to(s.link, links, hyperlinks),
        ) == seq![one_shown('\n', plain_style(), None)] + shown(rest, plain_style(), None),
{
    let now = faded(s.writer.depth, s.writer.current);
    let end = one_shown('\n', plain_style(), None);
    let tail = seq!['\n'] + rest;
    let reset = s.writer.reset_text() + tail;
    let close = relinked(links, hyperlinks, s.link, None);
    assert(end_text(s) + rest =~= close + reset) by {
        if s.link is Some {
            assert(close =~= super::link_close());
        } else {
            assert(close =~= Seq::empty());
        }
    }
    lemma_relinked(links, hyperlinks, s.link, None, reset, now);
    lemma_reset(s.writer, tail, None);
    lemma_plain(seq!['\n'], rest, plain_style(), None);
    assert(seq!['\n'].skip(1) =~= Seq::<char>::empty());
    assert(all_shown(Seq::empty(), plain_style(), None) =~= Seq::<Shown>::empty());
    assert(all_shown(seq!['\n'], plain_style(), None) =~= seq![end]);
}

proof fn lemma_line(
    ink: InkV,
    spans: Seq<SpanV>,
    links: Seq<Seq<char>>,
    hyperlinks: bool,
    gs: Seq<Shown>,
)
    requires
        shows(ink, links, hyperlinks, gs),
        links_are_clean(links),
        spans_are_clean(spans),
    ensures
        line_written(ink, spans, links, hyperlinks).writer == ink.writer.at_rest(),
        line_written(ink, spans, links, hyperlinks).link is None,
        shows(
            line_written(ink, spans, links, hyperlinks),
            links,
            hyperlinks,
            gs + line_shown(spans, ink.writer, links, hyperlinks),
        ),
{
    let n = spans.len() as int;
    lemma_spans(ink, spans, n, links, hyperlinks, gs);
    assert(spans.take(n) =~= spans);
    let s = spans_written(ink, spans, n, links, hyperlinks);
    let after = line_written(ink, spans, links, hyperlinks);
    let end = one_shown('\n', plain_style(), None);
    let body = spans_shown(spans, ink.writer, links, hyperlinks);
    let more = end_text(s);
    assert(after.out =~= s.out + more);
    assert(faded(after.writer.depth, after.writer.current) == plain_style());
    assert(leads_to(after.link, links, hyperlinks) is None);
    assert forall|rest: Seq<char>| #![trigger more + rest]
        shown(
            more + rest,
            faded(s.writer.depth, s.writer.current),
            leads_to(s.link, links, hyperlinks),
        ) == seq![end] + shown(
            rest,
            faded(after.writer.depth, after.writer.current),
            leads_to(after.link, links, hyperlinks),
        ) by {
        lemma_end_text(s, links, hyperlinks, rest);
    }
    lemma_more(s, after, more, seq![end], links, hyperlinks, gs + body);
    assert((gs + body) + seq![end] =~= gs + line_shown(spans, ink.writer, links, hyperlinks));
}

/// The first `k` lines of a page as they are shown.
pub open spec fn lines_shown(
    lines: Seq<LineV>,
    k: int,
    w: StyleWriter,
    links: Seq<Seq<char>>,
    hyperlinks: bool,
) -> Seq<Shown>
    decreases k,
{
    if k <= 0 {
        Seq::empty()
    } else {
        lines_shown(lines, k - 1, w, links, hyperlinks) + line_shown(
            lines[k - 1].spans,
            w,
            links,
            hyperlinks,
        )
    }
}

proof fn lemma_rows<P: ImageProvider>(
    ink: InkV,
    lines: Seq<LineV>,
    k: int,
    links: Seq<Seq<char>>,
    opts: WriteOptions,
    images: P,
)
    requires
        0 <= k <= lines.len(),
        links_are_clean(links),
        shows(ink, links, opts.hyperlinks, Seq::empty()),
        ink.writer == ink.writer.at_rest(),
        ink.link is None,
        forall|i: int|
            0 <= i < lines.len() ==> (#[trigger] lines[i]).image is None && !lines[i].image_filler
                && spans_are_clean(lines[i].spans),
    ensures
        ({
            let after = rows_written(ink, lines, k, links, opts, images).0;
            &&& after.writer == ink.writer
            &&& after.link is None
            &&& shows(
                after,
                links,
                opts.hyperlinks,
                lines_shown(lines, k, ink.writer, links, opts.hyperlinks),
            )
        }),
    decreases k,
{
    if k > 0 {
        lemma_rows(ink, lines, k - 1, links, opts, images);
        let before = rows_written(ink, lines, k - 1, links, opts, images).0;
        assert(lines[k - 1].image is None);
        lemma_line(
            before,
            lines[k - 1].spans,
            links,
            opts.hyperlinks,
            lines_shown(lines, k - 1, ink.writer, links, opts.hyperlinks),
        );
    }
}

/// A page is shown as it was laid out: its lines one below the other, each span of them
/// in its own characters, its own style as far as the terminal has it, and leading where
/// its link does, or nowhere. Neither style nor link runs on past the end of a line, or
/// past the page.
pub proof fn pages_are_shown<P: ImageProvider>(
    screen: ScreenV,
    caps: Capabilities,
    opts: WriteOptions,
    images: P,
    rest: Seq<char>,
)
    requires
        links_are_clean(screen.links),
        forall|i: int|
            0 <= i < screen.lines.len() ==> (#[trigger] screen.lines[i]).image is None
                && !screen.lines[i].image_filler && spans_are_clean(screen.lines[i].spans),
    ensures
        shown(screen_written(screen, caps, opts, images).0 + rest, plain_style(), None)
            == lines_shown(
            screen.lines,
            screen.lines.len() as int,
            (StyleWriter {
                depth: caps.color,
                current: plain_style(),
                italic_as_underline: caps.italic_broken,
            }),
            screen.links,
            opts.hyperlinks,
        ) + shown(rest, plain_style(), None),
{
    let ink = super::fresh_ink(caps);
    let n = screen.lines.len() as int;
    assert(faded(caps.color, plain_style()) == plain_style());
    assert forall|more: Seq<char>| #![trigger shown(ink.out + more, plain_style(), None)]
        shown(ink.out + more, plain_style(), None) == Seq::<Shown>::empty() + shown(
        more,
        faded(ink.writer.depth, ink.writer.current),
        leads_to(ink.link, screen.links, opts.hyperlinks),
    ) by {
        assert(ink.out + more =~= more);
        assert(Seq::<Shown>::empty() + shown(more, plain_style(), None) =~= shown(
            more,
            plain_style(),
            None,
        ));
    }
    lemma_rows(ink, screen.lines, n, screen.links, opts, images);
    let after = rows_written(ink, screen.lines, n, screen.links, opts, images).0;
    assert(after.writer.reset_text() =~= Seq::empty());
    let t = screen_written(screen, caps, opts, images).0;
    assert(t + rest =~= after.out + rest);
}

} // verus!
