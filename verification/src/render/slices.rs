//! What is left of a line when only some of its columns show.
use vstd::prelude::*;

use super::inline::{
    char_columns, characters_stand_apart, columns_of, grapheme_clusters, is_plain, is_plain_char,
    plain_text_adds_up, singles, text_width,
};
use super::reading::{lemma_spans_text_add, lemma_spans_text_push};
use super::{
    cut_from, merging_keeps_the_text, sat, sliced, sliced_from, spans_text, SpanV,
};

verus! {

/// True of text whose characters take one column each.
pub open spec fn is_narrow(s: Seq<char>) -> bool {
    forall|k: int| 0 <= k < s.len() ==> is_plain_char(#[trigger] s[k]) && char_columns(s[k]) == 1
}

/// The characters of a text from one column to another, as far as it goes.
pub open spec fn window(s: Seq<char>, from: int, to: int) -> Seq<char> {
    let a = if from < 0 {
        0
    } else if from > s.len() {
        s.len() as int
    } else {
        from
    };
    let b = if to > s.len() {
        s.len() as int
    } else {
        to
    };
    if a < b {
        s.subrange(a, b)
    } else {
        Seq::empty()
    }
}

proof fn lemma_narrow_columns(s: Seq<char>)
    requires
        is_narrow(s),
    ensures
        columns_of(s) == s.len(),
        is_plain(s),
    decreases s.len(),
{
    if s.len() > 0 {
        let d = s.drop_last();
        assert forall|k: int| 0 <= k < d.len() implies is_plain_char(#[trigger] d[k])
            && char_columns(d[k]) == 1 by {
            assert(d[k] == s[k]);
        }
        lemma_narrow_columns(d);
        assert(char_columns(s[s.len() - 1]) == 1);
    }
}

proof fn lemma_narrow_width(s: Seq<char>)
    requires
        is_narrow(s),
        s.len() <= usize::MAX,
    ensures
        text_width(s) == s.len(),
        grapheme_clusters(s) == singles(s),
{
    lemma_narrow_columns(s);
    plain_text_adds_up(s);
    characters_stand_apart(s);
}

proof fn lemma_cut(s: Seq<char>, k: int, start: int, from: int, to: int, out: Seq<char>)
    requires
        is_narrow(s),
        0 <= k <= s.len(),
        0 <= start,
        start + s.len() <= usize::MAX,
        0 <= from <= to,
    ensures
        cut_from(singles(s), k, start + k, from, to, out) == out + window(
            s,
            if from - start > k {
                from - start
            } else {
                k
            },
            to - start,
        ),
    decreases s.len() - k,
{
    let gs = singles(s);
    if k < s.len() {
        let c = seq![s[k]];
        assert(gs[k] == c);
        assert(is_plain_char(s[k]) && char_columns(s[k]) == 1);
        assert forall|i: int| 0 <= i < c.len() implies is_plain_char(#[trigger] c[i])
            && char_columns(c[i]) == 1 by {}
        lemma_narrow_width(c);
        let next = if start + k + 1 <= from || start + k >= to {
            out
        } else {
            out + c
        };
        lemma_cut(s, k + 1, start, from, to, next);
        assert(cut_from(gs, k, start + k, from, to, out) == cut_from(
            gs,
            k + 1,
            start + k + 1,
            from,
            to,
            next,
        ));
        let a = if from - start > k {
            from - start
        } else {
            k
        };
        let b = if from - start > k + 1 {
            from - start
        } else {
            k + 1
        };
        assert(next + window(s, b, to - start) =~= out + window(s, a, to - start));
    } else {
        assert(out + window(
            s,
            if from - start > k {
                from - start
            } else {
                k
            },
            to - start,
        ) =~= out);
    }
}

proof fn lemma_sliced_from(s: Seq<SpanV>, i: int, from: int, to: int, out: Seq<SpanV>)
    requires
        0 <= i <= s.len(),
        0 <= from <= to,
        forall|k: int| 0 <= k < s.len() ==> is_narrow((#[trigger] s[k]).text),
        spans_text(s).len() <= usize::MAX,
    ensures
        ({
            let col = spans_text(s.take(i)).len() as int;
            spans_text(sliced_from(s, i, from, to, col, out)) == spans_text(out) + window(
                spans_text(s),
                if from > col {
                    from
                } else {
                    col
                },
                to,
            )
        }),
    decreases s.len() - i,
{
    let all = spans_text(s);
    let col = spans_text(s.take(i)).len() as int;
    if i < s.len() {
        let x = s[i].text;
        assert(s.take(i + 1).drop_last() =~= s.take(i));
        assert(spans_text(s.take(i + 1)) == spans_text(s.take(i)) + x);
        assert(s =~= s.take(i) + s.skip(i));
        lemma_spans_text_add(s.take(i), s.skip(i));
        assert(s =~= s.take(i + 1) + s.skip(i + 1));
        lemma_spans_text_add(s.take(i + 1), s.skip(i + 1));
        let end = col + x.len();
        assert(all.subrange(col, end) =~= x);
        assert(is_narrow(x));
        lemma_narrow_width(x);
        assert(sat(col + text_width(x)) == end);
        let low = if from > col {
            from
        } else {
            col
        };
        let next = if from > end {
            from
        } else {
            end
        };
        if end <= from {
            lemma_sliced_from(s, i + 1, from, to, out);
            assert(window(all, next, to) =~= window(all, low, to));
        } else if col >= to {
            assert(window(all, low, to) =~= Seq::empty());
            assert(spans_text(out) + Seq::<char>::empty() =~= spans_text(out));
        } else if col >= from && end <= to {
            lemma_spans_text_push(out, s[i]);
            lemma_sliced_from(s, i + 1, from, to, out.push(s[i]));
            assert(spans_text(out) + x + window(all, next, to) =~= spans_text(out) + window(
                all,
                low,
                to,
            ));
        } else {
            lemma_cut(x, 0, col, from, to, Seq::empty());
            let t = cut_from(grapheme_clusters(x), 0, col, from, to, Seq::empty());
            let a = if from - col > 0 {
                from - col
            } else {
                0
            };
            assert(t =~= window(x, a, to - col));
            let span = SpanV { text: t, ..s[i] };
            let more = if t.len() > 0 {
                out.push(span)
            } else {
                out
            };
            lemma_spans_text_push(out, span);
            if t.len() == 0 {
                assert(spans_text(out) + t =~= spans_text(out));
            }
            lemma_sliced_from(s, i + 1, from, to, more);
            assert(t =~= window(all, low, if to < end {
                to
            } else {
                end
            }));
            assert(spans_text(out) + t + window(all, next, to) =~= spans_text(out) + window(
                all,
                low,
                to,
            ));
        }
    } else {
        assert(s.take(i) =~= s);
        assert(spans_text(out) + window(
            all,
            if from > col {
                from
            } else {
                col
            },
            to,
        ) =~= spans_text(out));
    }
}

/// Of a line whose characters take one column each, exactly those show that stand in the
/// columns asked for, in their order.
pub proof fn slices_show_their_columns(s: Seq<SpanV>, from: int, to: int)
    requires
        0 <= from <= to,
        forall|k: int| 0 <= k < s.len() ==> is_narrow((#[trigger] s[k]).text),
        spans_text(s).len() <= usize::MAX,
    ensures
        spans_text(sliced(s, from, to)) == window(spans_text(s), from, to),
{
    let none = Seq::<SpanV>::empty();
    assert(s.take(0) =~= none);
    lemma_sliced_from(s, 0, from, to, none);
    let r = sliced_from(s, 0, from, to, 0, none);
    merging_keeps_the_text(r);
    assert(spans_text(none) + window(spans_text(s), from, to) =~= window(spans_text(s), from, to));
}

} // verus!
