//! GitHub-compatible heading slugs, so `[link](#some-heading)` resolves.
use vstd::prelude::*;

use crate::text;

verus! {

/// What `char::is_alphanumeric` answers: Unicode's letters and numbers.
pub uninterp spec fn alphanumeric(c: char) -> bool;

/// `char::is_alphanumeric` is a function of the character alone. In ASCII it holds of
/// letters and digits.
pub assume_specification[ char::is_alphanumeric ](c: char) -> (r: bool)
    ensures
        r == alphanumeric(c),
        c <= '\u{7f}' ==> r == text::is_ascii_alnum(c),
;

/// What `char::to_lowercase` gives: the lower case of a character, which may be
/// several characters.
pub uninterp spec fn lowercase(c: char) -> Seq<char>;

/// Collects what `char::to_lowercase` gives, which depends on the character alone. In
/// ASCII it is the small letter of a capital, and any other character itself.
#[verifier::external_body]
fn lowercase_of(c: char) -> (r: Vec<char>)
    ensures
        r@ == lowercase(c),
        c <= '\u{7f}' ==> r@ == seq![text::lower_char(c)],
{
    c.to_lowercase().collect()
}

/// `s[i..]` behind `out`: letters and numbers in lower case, hyphens and underscores
/// kept, a run of white space turned into one hyphen, everything else dropped.
pub open spec fn slug_from(s: Seq<char>, i: int, out: Seq<char>) -> Seq<char>
    decreases s.len() - i,
{
    if i < 0 || i >= s.len() {
        out
    } else if alphanumeric(s[i]) {
        slug_from(s, i + 1, out + lowercase(s[i]))
    } else if s[i] == '-' || s[i] == '_' {
        slug_from(s, i + 1, out.push(s[i]))
    } else if text::is_space(s[i]) && !(out.len() > 0 && out.last() == '-') {
        slug_from(s, i + 1, out.push('-'))
    } else {
        slug_from(s, i + 1, out)
    }
}

/// The slug of a heading, before repeats are told apart.
pub open spec fn slug_base(s: Seq<char>) -> Seq<char> {
    text::trim_matches(slug_from(s, 0, Seq::empty()), '-')
}

/// True of text in ASCII.
pub open spec fn in_ascii(s: Seq<char>) -> bool {
    forall|k: int| 0 <= k < s.len() ==> #[trigger] s[k] <= '\u{7f}'
}

/// `s[i..]` behind `out`, where `s` is in ASCII.
pub open spec fn ascii_slug_from(s: Seq<char>, i: int, out: Seq<char>) -> Seq<char>
    decreases s.len() - i,
{
    if i < 0 || i >= s.len() {
        out
    } else if text::is_ascii_alnum(s[i]) {
        ascii_slug_from(s, i + 1, out.push(text::lower_char(s[i])))
    } else if s[i] == '-' || s[i] == '_' {
        ascii_slug_from(s, i + 1, out.push(s[i]))
    } else if text::is_space(s[i]) && !(out.len() > 0 && out.last() == '-') {
        ascii_slug_from(s, i + 1, out.push('-'))
    } else {
        ascii_slug_from(s, i + 1, out)
    }
}

/// The slug of a heading in ASCII.
pub open spec fn ascii_slug(s: Seq<char>) -> Seq<char> {
    text::trim_matches(ascii_slug_from(s, 0, Seq::empty()), '-')
}

/// Lowercases, drops punctuation, and turns runs of white space into hyphens.
pub fn slugify(text: &str) -> (r: String)
    ensures
        r@ == slug_base(text@),
        in_ascii(text@) ==> r@ == ascii_slug(text@),
{
    let v = text::chars_of(text);
    let mut out: Vec<char> = Vec::new();
    let mut i: usize = 0;
    while i < v.len()
        invariant
            i <= v.len(),
            v@ == text@,
            slug_from(v@, i as int, out@) == slug_from(v@, 0, Seq::empty()),
            in_ascii(text@) ==> ascii_slug_from(v@, i as int, out@) == ascii_slug_from(
                v@,
                0,
                Seq::empty(),
            ),
        decreases v.len() - i,
    {
        let c = v[i];
        let ghost before = out@;
        if c.is_alphanumeric() {
            let low = lowercase_of(c);
            text::push_all(&mut out, &low);
            assert(in_ascii(text@) ==> out@ =~= before.push(text::lower_char(c)));
        } else if c == '-' || c == '_' {
            out.push(c);
        } else if text::char_is_space(c) {
            // Collapse runs so "a   b" and "a b" agree.
            if !(out.len() > 0 && out[out.len() - 1] == '-') {
                out.push('-');
            }
        }
        // Everything else -- punctuation, emoji -- is dropped, as GitHub does.
        i = i + 1;
    }
    let n: usize = out.len();
    assert(out@.subrange(0, n as int) =~= out@);
    let a = text::skip_char(&out, 0, n, '-');
    let b = text::skip_char_back(&out, a, n, '-');
    assert(out@ == slug_from(text@, 0, Seq::empty()));
    text::string_of_range(&out, a, b)
}

/// The slugs that have been given out.
pub type Seen = Set<Seq<char>>;

/// A slug told apart by a number.
pub open spec fn numbered(base: Seq<char>, n: nat) -> Seq<char> {
    base + "-"@ + text::decimal(n)
}

/// The first number from `n` on that makes a slug of `base` which is not taken. There
/// are no more taken numbers than there are slugs.
pub open spec fn free_number(seen: Seen, base: Seq<char>, n: nat) -> nat
    decreases seen.len() + 1 - n,
{
    if n > seen.len() || !seen.contains(numbered(base, n)) {
        n
    } else {
        free_number(seen, base, n + 1)
    }
}

/// The slug given out for `base`: itself where that is not taken, numbered otherwise.
pub open spec fn slug_given(seen: Seen, base: Seq<char>) -> Seq<char> {
    if seen.contains(base) {
        numbered(base, free_number(seen, base, 1))
    } else {
        base
    }
}

/// The slugs given out after one more request for `base`.
pub open spec fn slug_seen(seen: Seen, base: Seq<char>) -> Seen {
    seen.insert(slug_given(seen, base))
}

/// Generates slugs, disambiguating repeats the way GitHub does (`-1`, `-2`).
#[derive(Debug)]
pub struct Slugger {
    given: Vec<String>,
}

impl View for Slugger {
    type V = Seen;

    closed spec fn view(&self) -> Seen {
        text::views(self.given@).to_set()
    }
}

impl Default for Slugger {
    fn default() -> (r: Slugger)
        ensures
            r@ == Set::<Seq<char>>::empty(),
    {
        Slugger::new()
    }
}

impl Slugger {
    pub fn new() -> (r: Slugger)
        ensures
            r@ == Set::<Seq<char>>::empty(),
    {
        let r = Slugger { given: Vec::new() };
        assert(text::views(r.given@) =~= Seq::empty());
        assert(r@ =~= Set::empty());
        r
    }

    fn has(&self, slug: &str) -> (r: bool)
        ensures
            r == self@.contains(slug@),
    {
        let ghost v = text::views(self.given@);
        for k in 0..self.given.len()
            invariant
                v == text::views(self.given@),
                forall|j: int| 0 <= j < k ==> #[trigger] v[j] != slug@,
        {
            assert(v[k as int] == self.given@[k as int]@);
            if text::same(&self.given[k], slug) {
                assert(v.contains(slug@));
                return true;
            }
        }
        assert(!v.contains(slug@));
        false
    }

    /// Slugifies `text` and makes sure that no slug is given out twice.
    pub fn slug(&mut self, text: &str) -> (r: String)
        ensures
            r@ == slug_given(old(self)@, slug_base(text@)),
            !old(self)@.contains(r@),
            !old(self)@.contains(slug_base(text@)) ==> r@ == slug_base(text@),
            final(self)@ == slug_seen(old(self)@, slug_base(text@)),
            final(self)@ == old(self)@.insert(r@),
    {
        let base = slugify(text);
        let ghost seen = self@;
        let ghost all = text::views(self.given@);
        proof {
            vstd::seq_lib::seq_to_set_is_finite(all);
            all.lemma_cardinality_of_set();
        }
        let mut out = base.clone();
        if self.has(&base) {
            let mut n: u128 = 1;
            out.push_str("-");
            text::push_wide_decimal(&mut out, n);
            let limit: usize = self.given.len();
            while self.has(&out)
                invariant
                    seen == self@,
                    seen.finite(),
                    seen.len() <= limit,
                    1 <= n <= limit + 1,
                    out@ == numbered(base@, n as nat),
                    forall|m: nat| 1 <= m < n ==> seen.contains(#[trigger] numbered(base@, m)),
                    free_number(seen, base@, n as nat) == free_number(seen, base@, 1),
                decreases limit + 1 - n,
            {
                proof {
                    lemma_numbers_taken(seen, base@, n as nat);
                }
                n = n + 1;
                out = base.clone();
                out.push_str("-");
                text::push_wide_decimal(&mut out, n);
            }
        }
        self.given.push(out.clone());
        proof {
            let now = text::views(self.given@);
            assert(now =~= all.push(out@));
            assert(now.to_set() =~= all.to_set().insert(out@)) by {
                assert forall|x: Seq<char>| now.contains(x) == (all.contains(x) || x == out@) by {
                    if all.contains(x) {
                        let k = choose|k: int| 0 <= k < all.len() && all[k] == x;
                        assert(now[k] == x);
                    }
                    assert(now[all.len() as int] == out@);
                }
            }
        }
        out
    }
}

// --- laws ------------------------------------------------------------------------------

/// The slugs given out by the first `k` requests.
pub open spec fn seen_after(bases: Seq<Seq<char>>, k: int) -> Seen
    decreases k,
{
    if k <= 0 {
        Set::empty()
    } else {
        slug_seen(seen_after(bases, k - 1), bases[k - 1])
    }
}

/// The slug that the `k`th request is given.
pub open spec fn slug_at(bases: Seq<Seq<char>>, k: int) -> Seq<char> {
    slug_given(seen_after(bases, k), bases[k])
}

proof fn lemma_digits(n: nat)
    ensures
        text::decimal(n).len() > 0,
        forall|k: int| 0 <= k < text::decimal(n).len() ==> #[trigger] text::decimal(n)[k] != '-',
    decreases n,
{
    if n >= 10 {
        lemma_digits(n / 10);
    }
}

proof fn lemma_digit_char(a: int, b: int)
    requires
        0 <= a < 10,
        0 <= b < 10,
        text::digit_char(a) == text::digit_char(b),
    ensures
        a == b,
{
    assert(text::digit_char(0) == '0' && text::digit_char(1) == '1' && text::digit_char(2) == '2'
        && text::digit_char(3) == '3' && text::digit_char(4) == '4' && text::digit_char(5) == '5'
        && text::digit_char(6) == '6' && text::digit_char(7) == '7' && text::digit_char(8) == '8'
        && text::digit_char(9) == '9');
}

proof fn lemma_decimal_injective(m: nat, n: nat)
    requires
        text::decimal(m) == text::decimal(n),
    ensures
        m == n,
    decreases m,
{
    lemma_digits(m / 10);
    lemma_digits(n / 10);
    if m < 10 && n < 10 {
        assert(text::decimal(m)[0] == text::digit_char(m as int));
        assert(text::decimal(n)[0] == text::digit_char(n as int));
        lemma_digit_char(m as int, n as int);
    } else if m < 10 {
        assert(text::decimal(n).len() == text::decimal(n / 10).len() + 1);
    } else if n < 10 {
        assert(text::decimal(m).len() == text::decimal(m / 10).len() + 1);
    } else {
        assert(text::decimal(m).last() == text::digit_char((m % 10) as int));
        assert(text::decimal(n).last() == text::digit_char((n % 10) as int));
        assert(text::decimal(m).drop_last() =~= text::decimal(m / 10));
        assert(text::decimal(n).drop_last() =~= text::decimal(n / 10));
        lemma_decimal_injective(m / 10, n / 10);
        lemma_digit_char((m % 10) as int, (n % 10) as int);
    }
}

proof fn lemma_numbered_injective(a: Seq<char>, b: Seq<char>, m: nat, n: nat)
    requires
        numbered(a, m) == numbered(b, n),
    ensures
        a == b,
        m == n,
{
    reveal_strlit("-");
    lemma_digits(m);
    lemma_digits(n);
    let x = numbered(a, m);
    let y = numbered(b, n);
    assert(x.len() == a.len() + 1 + text::decimal(m).len());
    assert(y.len() == b.len() + 1 + text::decimal(n).len());
    if a.len() < b.len() {
        assert(y[b.len() as int] == '-');
        assert(x[b.len() as int] == text::decimal(m)[b.len() - a.len() - 1]);
    } else if b.len() < a.len() {
        assert(x[a.len() as int] == '-');
        assert(y[a.len() as int] == text::decimal(n)[a.len() - b.len() - 1]);
    }
    assert(a =~= x.subrange(0, a.len() as int));
    assert(b =~= y.subrange(0, b.len() as int));
    assert(text::decimal(m) =~= x.subrange(a.len() as int + 1, x.len() as int));
    assert(text::decimal(n) =~= y.subrange(b.len() as int + 1, y.len() as int));
    lemma_decimal_injective(m, n);
}

proof fn lemma_numbers_taken(seen: Seen, base: Seq<char>, n: nat)
    requires
        seen.finite(),
        forall|m: nat| 1 <= m <= n ==> seen.contains(#[trigger] numbered(base, m)),
    ensures
        n <= seen.len(),
    decreases n,
{
    if n > 0 {
        let last = numbered(base, n);
        assert(seen.contains(last));
        let rest = seen.remove(last);
        assert forall|m: nat| 1 <= m <= n - 1 implies rest.contains(#[trigger] numbered(base, m)) by {
            if numbered(base, m) == last {
                lemma_numbered_injective(base, base, m, n);
            }
        }
        lemma_numbers_taken(rest, base, (n - 1) as nat);
    }
}

proof fn lemma_free_number(seen: Seen, base: Seq<char>, n: nat)
    requires
        seen.finite(),
        n >= 1,
        forall|m: nat| 1 <= m < n ==> seen.contains(#[trigger] numbered(base, m)),
    ensures
        !seen.contains(numbered(base, free_number(seen, base, n))),
    decreases seen.len() + 1 - n,
{
    if seen.contains(numbered(base, n)) {
        lemma_numbers_taken(seen, base, n);
        lemma_free_number(seen, base, n + 1);
    }
}

/// A slug is never one that was given out before, and is the heading's own wherever
/// that is still to be had.
pub proof fn slugs_are_new(seen: Seen, base: Seq<char>)
    requires
        seen.finite(),
    ensures
        !seen.contains(slug_given(seen, base)),
        !seen.contains(base) ==> slug_given(seen, base) == base,
{
    lemma_free_number(seen, base, 1);
}

proof fn lemma_seen_after(bases: Seq<Seq<char>>, i: int, k: int)
    requires
        0 <= i < k,
    ensures
        seen_after(bases, k).finite(),
        seen_after(bases, k).contains(slug_at(bases, i)),
    decreases k,
{
    if i < k - 1 {
        lemma_seen_after(bases, i, k - 1);
    } else if k > 1 {
        lemma_seen_after(bases, k - 2, k - 1);
    } else {
        assert(seen_after(bases, 0) == Set::<Seq<char>>::empty());
    }
}

/// True of the characters that the slug of a heading in ASCII is made of.
pub open spec fn is_slug_char(c: char) -> bool {
    'a' <= c <= 'z' || '0' <= c <= '9' || c == '-' || c == '_'
}

pub open spec fn in_slug_chars(s: Seq<char>) -> bool {
    forall|k: int| 0 <= k < s.len() ==> is_slug_char(#[trigger] s[k])
}

/// The letters and digits of a text, in lower case.
pub open spec fn letters(s: Seq<char>) -> Seq<char>
    decreases s.len(),
{
    if s.len() == 0 {
        Seq::empty()
    } else if text::is_ascii_alnum(s.last()) {
        letters(s.drop_last()).push(text::lower_char(s.last()))
    } else {
        letters(s.drop_last())
    }
}

proof fn lemma_lower(c: char)
    requires
        text::is_ascii_alnum(c),
    ensures
        is_slug_char(text::lower_char(c)),
        text::is_ascii_alnum(text::lower_char(c)),
        text::lower_char(text::lower_char(c)) == text::lower_char(c),
{
}

proof fn lemma_ascii_slug_from(s: Seq<char>, i: int, out: Seq<char>)
    requires
        0 <= i <= s.len(),
        in_slug_chars(out),
        letters(out) == letters(s.take(i)),
    ensures
        in_slug_chars(ascii_slug_from(s, i, out)),
        letters(ascii_slug_from(s, i, out)) == letters(s),
    decreases s.len() - i,
{
    if i < s.len() {
        let c = s[i];
        assert(s.take(i + 1).drop_last() =~= s.take(i));
        assert(s.take(i + 1).last() == c);
        if text::is_ascii_alnum(c) {
            lemma_lower(c);
            assert(out.push(text::lower_char(c)).drop_last() =~= out);
            lemma_ascii_slug_from(s, i + 1, out.push(text::lower_char(c)));
        } else if c == '-' || c == '_' {
            assert(out.push(c).drop_last() =~= out);
            lemma_ascii_slug_from(s, i + 1, out.push(c));
        } else if text::is_space(c) && !(out.len() > 0 && out.last() == '-') {
            assert(out.push('-').drop_last() =~= out);
            lemma_ascii_slug_from(s, i + 1, out.push('-'));
        } else {
            lemma_ascii_slug_from(s, i + 1, out);
        }
    } else {
        assert(s.take(i) =~= s);
    }
}

proof fn lemma_slug_kept(s: Seq<char>, i: int)
    requires
        0 <= i <= s.len(),
        in_slug_chars(s),
    ensures
        ascii_slug_from(s, i, s.take(i)) == s,
    decreases s.len() - i,
{
    if i < s.len() {
        lemma_slug_kept(s, i + 1);
        assert(s.take(i).push(s[i]) =~= s.take(i + 1));
        assert(is_slug_char(s[i]));
        assert(text::is_ascii_alnum(s[i]) ==> text::lower_char(s[i]) == s[i]);
    } else {
        assert(s.take(i) =~= s);
    }
}

proof fn lemma_hyphens_trimmed(s: Seq<char>)
    requires
        in_slug_chars(s),
    ensures
        in_slug_chars(text::trim_start_char(s, '-')),
        letters(text::trim_start_char(s, '-')) == letters(s),
        text::trim_start_char(s, '-').len() > 0 ==> text::trim_start_char(s, '-')[0] != '-',
        in_slug_chars(text::trim_end_char(s, '-')),
        letters(text::trim_end_char(s, '-')) == letters(s),
        text::trim_end_char(s, '-').len() > 0 ==> text::trim_end_char(s, '-').last() != '-'
            && text::trim_end_char(s, '-')[0] == s[0],
    decreases s.len(),
{
    if s.len() > 0 {
        let head = s.drop_last();
        let tail = s.drop_first();
        assert forall|k: int| 0 <= k < head.len() implies is_slug_char(#[trigger] head[k]) by {
            assert(head[k] == s[k]);
        }
        assert forall|k: int| 0 <= k < tail.len() implies is_slug_char(#[trigger] tail[k]) by {
            assert(tail[k] == s[k + 1]);
        }
        if s.last() == '-' {
            lemma_hyphens_trimmed(head);
        }
        if s[0] == '-' {
            lemma_hyphens_trimmed(tail);
            lemma_letters_behind(s);
        }
    }
}

proof fn lemma_letters_behind(s: Seq<char>)
    requires
        s.len() > 0,
        s[0] == '-',
    ensures
        letters(s) == letters(s.drop_first()),
    decreases s.len(),
{
    if s.len() > 1 {
        lemma_letters_behind(s.drop_last());
        assert(s.drop_last().drop_first() =~= s.drop_first().drop_last());
        assert(s.drop_first().last() == s.last());
    } else {
        assert(s.drop_last() =~= Seq::empty());
        assert(s.drop_first() =~= Seq::empty());
    }
}

/// The slug of a heading in ASCII is made of small letters, digits, hyphens and
/// underscores, neither starts nor ends with a hyphen, holds the heading's letters and
/// digits in order, and is its own slug.
pub proof fn slugs_are_settled(s: Seq<char>)
    ensures
        in_slug_chars(ascii_slug(s)),
        in_ascii(ascii_slug(s)),
        ascii_slug(s).len() > 0 ==> ascii_slug(s)[0] != '-' && ascii_slug(s).last() != '-',
        letters(ascii_slug(s)) == letters(s),
        ascii_slug(ascii_slug(s)) == ascii_slug(s),
{
    assert(s.take(0) =~= Seq::empty());
    lemma_ascii_slug_from(s, 0, Seq::empty());
    let raw = ascii_slug_from(s, 0, Seq::empty());
    lemma_hyphens_trimmed(raw);
    let mid = text::trim_start_char(raw, '-');
    lemma_hyphens_trimmed(mid);
    let r = ascii_slug(s);
    assert(r.take(0) =~= Seq::empty());
    lemma_slug_kept(r, 0);
    assert forall|k: int| 0 <= k < r.len() implies #[trigger] r[k] <= '\u{7f}' by {
        assert(is_slug_char(r[k]));
    }
}

/// No two requests are given the same slug.
pub proof fn slugs_do_not_collide(bases: Seq<Seq<char>>, i: int, j: int)
    requires
        0 <= i < j < bases.len(),
    ensures
        slug_at(bases, i) != slug_at(bases, j),
{
    lemma_seen_after(bases, i, j);
    slugs_are_new(seen_after(bases, j), bases[j]);
}

} // verus!
