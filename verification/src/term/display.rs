//! What a terminal shows of the text that is sent to it.
//!
//! The reader here knows nothing of how text is written: it takes characters one after
//! the other, puts them down under the style in force, and lets the numbers of a select
//! graphic rendition sequence change that style.
use vstd::prelude::*;

use super::style::{
    decimals, faded, plain_style, read_params, sequence, transitions_reach_every_depth, Style,
    StyleWriter,
};
use crate::text;

verus! {

/// A character and the style it is shown in.
pub struct Glyph {
    pub symbol: char,
    pub style: Style,
}

/// The numbers between semicolons, when `n` is what has been read of the first.
pub open spec fn numbers(s: Seq<char>, n: nat) -> Seq<nat>
    decreases s.len(),
{
    if s.len() == 0 {
        seq![n]
    } else if s[0] == ';' {
        seq![n] + numbers(s.skip(1), 0)
    } else {
        numbers(s.skip(1), (10 * n + (s[0] as int - '0' as int)) as nat)
    }
}

/// What a terminal that draws in style `s` shows of a text.
pub open spec fn displayed(t: Seq<char>, s: Style) -> Seq<Glyph>
    decreases t.len(),
{
    if t.len() == 0 {
        Seq::empty()
    } else if t.len() >= 2 && t[0] == '\x1b' && t[1] == '[' {
        let end = text::index_of(t, 'm', 2);
        if 2 <= end < t.len() {
            displayed(t.skip(end + 1), read_params(s, numbers(t.subrange(2, end), 0), 0))
        } else {
            Seq::empty()
        }
    } else {
        seq![styled(t[0], s)] + displayed(t.skip(1), s)
    }
}

/// The column of the cursor once the first `k` glyphs have been put down, from column
/// `start` on.
pub open spec fn column_at(gs: Seq<Glyph>, k: int, start: int) -> int
    decreases k,
{
    if k <= 0 {
        start
    } else if gs[k - 1].symbol == '\r' {
        0
    } else if gs[k - 1].symbol == '\n' {
        column_at(gs, k - 1, start)
    } else {
        column_at(gs, k - 1, start) + 1
    }
}

/// How many rows down the cursor is once the first `k` glyphs have been put down.
pub open spec fn row_at(gs: Seq<Glyph>, k: int) -> int
    decreases k,
{
    if k <= 0 {
        0
    } else if gs[k - 1].symbol == '\n' {
        row_at(gs, k - 1) + 1
    } else {
        row_at(gs, k - 1)
    }
}

pub open spec fn styled(symbol: char, style: Style) -> Glyph {
    Glyph { symbol, style }
}

/// The characters of a text in one style.
pub open spec fn in_style(t: Seq<char>, s: Style) -> Seq<Glyph> {
    Seq::new(t.len(), |k: int| styled(t[k], s))
}

pub proof fn lemma_in_style(t: Seq<char>, s: Style)
    ensures
        in_style(t, s).len() == t.len(),
        forall|k: int| 0 <= k < t.len() ==> #[trigger] in_style(t, s)[k] == styled(t[k], s),
{
    let f = |k: int| styled(t[k], s);
    assert(in_style(t, s) == Seq::new(t.len(), f));
}

/// Text without an escape is shown as it is.
pub proof fn plain_text_is_shown(t: Seq<char>, rest: Seq<char>, s: Style)
    requires
        !t.contains('\x1b'),
    ensures
        displayed(t + rest, s) == in_style(t, s) + displayed(rest, s),
    decreases t.len(),
{
    lemma_in_style(t, s);
    lemma_in_style(t.skip(1), s);
    if t.len() == 0 {
        assert(t + rest =~= rest);
        assert(in_style(t, s) + displayed(rest, s) =~= displayed(rest, s));
    } else {
        let all = t + rest;
        assert(t.contains(t[0]));
        assert(all[0] == t[0]);
        assert(all.skip(1) =~= t.skip(1) + rest);
        assert(!t.skip(1).contains('\x1b')) by {
            if t.skip(1).contains('\x1b') {
                let i = choose|i: int| 0 <= i < t.skip(1).len() && t.skip(1)[i] == '\x1b';
                assert(t[i + 1] == '\x1b');
            }
        }
        plain_text_is_shown(t.skip(1), rest, s);
        assert(in_style(t, s) =~= seq![styled(t[0], s)] + in_style(t.skip(1), s));
        assert(displayed(all, s) =~= in_style(t, s) + displayed(rest, s));
    }
}

pub(crate) proof fn lemma_numbers_decimal(n: nat, rest: Seq<char>)
    ensures
        numbers(text::decimal(n) + rest, 0) == numbers(rest, n),
    decreases n,
{
    let d = text::digit_char((n % 10) as int);
    let tail = seq![d] + rest;
    assert(tail.skip(1) =~= rest);
    assert(d as int - '0' as int == n % 10 && d != ';');
    if n < 10 {
        assert(text::decimal(n) + rest =~= tail);
    } else {
        assert(text::decimal(n) + rest =~= text::decimal(n / 10) + tail);
        lemma_numbers_decimal(n / 10, tail);
        assert(10 * (n / 10) + n % 10 == n);
    }
}

proof fn lemma_numbers_joined(p: Seq<nat>, rest: Seq<char>)
    requires
        p.len() > 0,
    ensures
        numbers(text::join(decimals(p), ";"@) + rest, 0) == p.drop_last() + numbers(rest, p.last()),
    decreases p.len(),
{
    reveal_strlit(";");
    let d = decimals(p);
    assert(d.last() == text::decimal(p.last()));
    if p.len() == 1 {
        lemma_numbers_decimal(p[0], rest);
        assert(p.drop_last() + numbers(rest, p.last()) =~= numbers(rest, p[0]));
    } else {
        let q = p.drop_last();
        assert(d.drop_last() =~= decimals(q));
        let tail = text::decimal(p.last()) + rest;
        let more = ";"@ + tail;
        assert(text::join(d, ";"@) + rest =~= text::join(decimals(q), ";"@) + more);
        lemma_numbers_joined(q, more);
        assert(more[0] == ';');
        assert(more.skip(1) =~= tail);
        lemma_numbers_decimal(p.last(), rest);
        assert(q.drop_last() + (seq![q.last()] + numbers(rest, p.last())) =~= q + numbers(
            rest,
            p.last(),
        ));
    }
}

pub open spec fn is_numeric(s: Seq<char>) -> bool {
    forall|k: int| 0 <= k < s.len() ==> ('0' <= #[trigger] s[k] <= '9' || s[k] == ';')
}

proof fn lemma_decimal_is_numeric(n: nat)
    ensures
        is_numeric(text::decimal(n)),
    decreases n,
{
    if n >= 10 {
        lemma_decimal_is_numeric(n / 10);
    }
}

proof fn lemma_joined_is_numeric(p: Seq<nat>)
    ensures
        is_numeric(text::join(decimals(p), ";"@)),
    decreases p.len(),
{
    reveal_strlit(";");
    let d = decimals(p);
    if p.len() > 0 {
        lemma_decimal_is_numeric(p.last());
        assert(d.last() == text::decimal(p.last()));
        if p.len() > 1 {
            assert(d.drop_last() =~= decimals(p.drop_last()));
            lemma_joined_is_numeric(p.drop_last());
        }
    }
}

proof fn lemma_index_past(s: Seq<char>, c: char, from: int, at: int)
    requires
        0 <= from <= at < s.len(),
        s[at] == c,
        forall|k: int| from <= k < at ==> #[trigger] s[k] != c,
    ensures
        text::index_of(s, c, from) == at,
    decreases at - from,
{
    if from < at {
        lemma_index_past(s, c, from + 1, at);
    }
}

/// Where the parts of a sequence of numbers stand.
pub(crate) proof fn lemma_sequence_parts(p: Seq<nat>, rest: Seq<char>) -> (end: int)
    requires
        p.len() > 0,
    ensures
        ({
            let t = sequence(p) + rest;
            &&& 2 <= end < t.len()
            &&& t[0] == '\x1b'
            &&& t[1] == '['
            &&& text::index_of(t, 'm', 2) == end
            &&& numbers(t.subrange(2, end), 0) == p
            &&& t.skip(end + 1) == rest
        }),
{
    reveal_strlit("\x1b[");
    reveal_strlit("m");
    let body = text::join(decimals(p), ";"@);
    let t = sequence(p) + rest;
    let end: int = 2 + body.len() as int;
    lemma_joined_is_numeric(p);
    assert(t[0] == '\x1b' && t[1] == '[');
    assert(t[end] == 'm');
    assert(t.subrange(2, end) =~= body);
    assert forall|k: int| 2 <= k < end implies #[trigger] t[k] != 'm' by {
        assert(t[k] == body[k - 2]);
    }
    lemma_index_past(t, 'm', 2, end);
    assert(t.skip(end + 1) =~= rest);
    lemma_numbers_joined(p, Seq::empty());
    assert(body + Seq::<char>::empty() =~= body);
    assert(numbers(Seq::empty(), p.last()) =~= seq![p.last()]);
    assert(p.drop_last() + seq![p.last()] =~= p);
    end
}

/// A reset is the sequence with the number zero.
pub(crate) proof fn lemma_reset_is_sequence()
    ensures
        "\x1b[0m"@ == sequence(seq![0nat]),
{
    reveal_strlit("\x1b[0m");
    reveal_strlit("\x1b[");
    reveal_strlit("m");
    reveal_with_fuel(text::decimal, 2);
    assert(text::decimal(0) =~= seq!['0']);
    assert(decimals(seq![0nat]) =~= seq![text::decimal(0)]);
    assert("\x1b[0m"@ =~= sequence(seq![0nat]));
}

/// A sequence of numbers is not shown; what follows it is, in the style they make.
pub proof fn sequences_change_the_style(p: Seq<nat>, rest: Seq<char>, s: Style)
    requires
        p.len() > 0,
    ensures
        displayed(sequence(p) + rest, s) == displayed(rest, read_params(s, p, 0)),
{
    let end = lemma_sequence_parts(p, rest);
}

/// What is written for a transition is not shown; what follows it is, in the style asked
/// for, as far as the terminal can show it.
pub proof fn transitions_are_shown(w: StyleWriter, next: Style, rest: Seq<char>)
    ensures
        displayed(w.written(next) + rest, faded(w.depth, w.current)) == displayed(
            rest,
            faded(w.depth, w.normal(next)),
        ),
{
    transitions_reach_every_depth(w, next);
    if w.normal(next) == w.current {
        assert(w.written(next) + rest =~= rest);
    } else {
        sequences_change_the_style(w.sent(next), rest, faded(w.depth, w.current));
    }
}

/// What is written for a reset is not shown; what follows it is in no style.
pub proof fn resets_are_shown(w: StyleWriter, rest: Seq<char>)
    ensures
        displayed(w.reset_text() + rest, faded(w.depth, w.current)) == displayed(
            rest,
            plain_style(),
        ),
{
    assert(faded(w.depth, plain_style()) == plain_style());
    if w.current == plain_style() {
        assert(w.reset_text() + rest =~= rest);
    } else {
        lemma_reset_is_sequence();
        reveal_with_fuel(read_params, 3);
        sequences_change_the_style(seq![0nat], rest, faded(w.depth, w.current));
    }
}

} // verus!
