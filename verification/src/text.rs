//! Strings seen as sequences of characters.
//!
//! Contracts throughout the crate speak of text as `Seq<char>`. This module holds
//! the vocabulary they share -- trimming, searching, decimal numbers -- and the
//! executable functions that compute it.
use vstd::prelude::*;

verus! {

/// `String::push` appends one character.
pub assume_specification[ String::push ](s: &mut String, c: char)
    ensures
        final(s)@ == old(s)@.push(c),
;

/// `String::push_str` appends a string.
pub assume_specification[ String::push_str ](s: &mut String, t: &str)
    ensures
        final(s)@ == old(s)@ + t@,
;

/// `String::clear` leaves the empty string.
pub assume_specification[ String::clear ](s: &mut String)
    ensures
        final(s)@ == Seq::<char>::empty(),
;

/// `String::pop` removes the last character and returns it, if there is one.
pub assume_specification[ String::pop ](s: &mut String) -> (r: Option<char>)
    ensures
        old(s)@.len() == 0 ==> r is None && final(s)@ == old(s)@,
        old(s)@.len() > 0 ==> r == Some(old(s)@.last()) && final(s)@ == old(s)@.drop_last(),
;

/// Two strings are equal when they hold the same characters.
pub assume_specification[ <str as PartialEq>::eq ](a: &str, b: &str) -> (r: bool)
    ensures
        r == (a@ == b@),
;

/// True when two strings hold the same characters.
pub fn same(a: &str, b: &str) -> (r: bool)
    ensures
        r == (a@ == b@),
{
    str::eq(a, b)
}

// --- characters -----------------------------------------------------------

/// The characters with Unicode's `White_Space` property.
pub open spec fn is_space(c: char) -> bool {
    ||| '\u{9}' <= c <= '\u{d}'
    ||| c == '\u{20}'
    ||| c == '\u{85}'
    ||| c == '\u{a0}'
    ||| c == '\u{1680}'
    ||| '\u{2000}' <= c <= '\u{200a}'
    ||| c == '\u{2028}'
    ||| c == '\u{2029}'
    ||| c == '\u{202f}'
    ||| c == '\u{205f}'
    ||| c == '\u{3000}'
}

pub fn char_is_space(c: char) -> (r: bool)
    ensures
        r == is_space(c),
{
    ('\u{9}' <= c && c <= '\u{d}') || c == '\u{20}' || c == '\u{85}' || c == '\u{a0}' || c
        == '\u{1680}' || ('\u{2000}' <= c && c <= '\u{200a}') || c == '\u{2028}' || c == '\u{2029}'
        || c == '\u{202f}' || c == '\u{205f}' || c == '\u{3000}'
}

/// ASCII letters only.
pub open spec fn is_ascii_letter(c: char) -> bool {
    ('a' <= c <= 'z') || ('A' <= c <= 'Z')
}

pub open spec fn is_digit(c: char) -> bool {
    '0' <= c <= '9'
}

pub open spec fn is_ascii_alnum(c: char) -> bool {
    is_ascii_letter(c) || is_digit(c)
}

pub fn char_is_ascii_letter(c: char) -> (r: bool)
    ensures
        r == is_ascii_letter(c),
{
    ('a' <= c && c <= 'z') || ('A' <= c && c <= 'Z')
}

pub fn char_is_digit(c: char) -> (r: bool)
    ensures
        r == is_digit(c),
{
    '0' <= c && c <= '9'
}

pub fn char_is_ascii_alnum(c: char) -> (r: bool)
    ensures
        r == is_ascii_alnum(c),
{
    char_is_ascii_letter(c) || char_is_digit(c)
}

/// One character with ASCII capitals lowered and every other character kept.
pub open spec fn lower_char(c: char) -> char {
    if 'A' <= c <= 'Z' {
        ((c as u32) + 32) as char
    } else {
        c
    }
}

/// `char::from_u32` gives the character with the number `n`, or `None` where no
/// character has it: surrogates, and anything above U+10FFFF.
pub assume_specification[ char::from_u32 ](n: u32) -> (r: Option<char>)
    ensures
        (n <= 0xD7FF || 0xE000 <= n <= 0x10FFFF) ==> r == Some(n as char),
        !(n <= 0xD7FF || 0xE000 <= n <= 0x10FFFF) ==> r is None,
;

pub fn char_lower(c: char) -> (r: char)
    ensures
        r == lower_char(c),
{
    if 'A' <= c && c <= 'Z' {
        match char::from_u32(c as u32 + 32) {
            Some(l) => l,
            None => c,
        }
    } else {
        c
    }
}

// --- whole strings --------------------------------------------------------

/// The characters of a string, as a vector.
pub fn chars_of(s: &str) -> (r: Vec<char>)
    ensures
        r@ == s@,
{
    let mut out: Vec<char> = Vec::new();
    for c in it: s.chars()
        invariant
            out@ == s@.take(it.index() as int),
            it.seq() == s@,
    {
        out.push(c);
    }
    out
}

/// A string built from a run of characters.
pub fn string_of(v: &Vec<char>) -> (r: String)
    ensures
        r@ == v@,
{
    string_of_range(v, 0, v.len())
}

/// The string with every `from` replaced by `to`.
pub open spec fn replaced(s: Seq<char>, from: char, to: char) -> Seq<char> {
    s.map_values(
        |c: char|
            if c == from {
                to
            } else {
                c
            },
    )
}

pub fn replace_char(s: &str, from: char, to: char) -> (r: String)
    ensures
        r@ == replaced(s@, from, to),
{
    let v = chars_of(s);
    let mut out: String = String::new();
    for i in 0..v.len()
        invariant
            v@ == s@,
            out@ == replaced(v@.take(i as int), from, to),
    {
        out.push(
            if v[i] == from {
                to
            } else {
                v[i]
            },
        );
        assert(out@ =~= replaced(v@.take(i + 1), from, to));
    }
    assert(v@.take(v@.len() as int) =~= v@);
    out
}

/// A string built from the characters at `from..to`.
pub fn string_of_range(v: &Vec<char>, from: usize, to: usize) -> (r: String)
    requires
        from <= to <= v@.len(),
    ensures
        r@ == v@.subrange(from as int, to as int),
{
    let mut out: String = String::new();
    for i in from..to
        invariant
            from <= i <= to <= v@.len(),
            out@ == v@.subrange(from as int, i as int),
    {
        out.push(v[i]);
        assert(v@.subrange(from as int, i + 1) =~= v@.subrange(from as int, i as int).push(
            v@[i as int],
        ));
    }
    out
}

/// The characters at `from..to`, as a vector of their own.
pub fn chars_range(v: &Vec<char>, from: usize, to: usize) -> (r: Vec<char>)
    requires
        from <= to <= v@.len(),
    ensures
        r@ == v@.subrange(from as int, to as int),
{
    let mut out: Vec<char> = Vec::new();
    for i in from..to
        invariant
            from <= i <= to <= v@.len(),
            out@ == v@.subrange(from as int, i as int),
    {
        out.push(v[i]);
        assert(v@.subrange(from as int, i + 1) =~= v@.subrange(from as int, i as int).push(
            v@[i as int],
        ));
    }
    out
}

/// An owned copy of a string.
pub fn owned(s: &str) -> (r: String)
    ensures
        r@ == s@,
{
    let mut out: String = String::new();
    out.push_str(s);
    assert(out@ =~= s@);
    out
}

/// Every ASCII capital lowered.
pub open spec fn lower(s: Seq<char>) -> Seq<char> {
    s.map_values(|c: char| lower_char(c))
}

pub fn lowered(v: &Vec<char>) -> (r: Vec<char>)
    ensures
        r@ == lower(v@),
{
    let mut out: Vec<char> = Vec::new();
    for i in 0..v.len()
        invariant
            out@ == lower(v@.take(i as int)),
    {
        out.push(char_lower(v[i]));
        assert(out@ =~= lower(v@.take(i + 1)));
    }
    assert(v@.take(v@.len() as int) =~= v@);
    out
}

/// `n` copies of one string, end to end.
pub open spec fn repeated(s: Seq<char>, n: nat) -> Seq<char>
    decreases n,
{
    if n == 0 {
        Seq::empty()
    } else {
        repeated(s, (n - 1) as nat) + s
    }
}

pub fn push_repeated(out: &mut String, s: &str, n: usize)
    ensures
        final(out)@ == old(out)@ + repeated(s@, n as nat),
{
    let ghost before = out@;
    assert(out@ =~= before + repeated(s@, 0));
    for i in 0..n
        invariant
            out@ == before + repeated(s@, i as nat),
    {
        out.push_str(s);
        assert(out@ =~= before + repeated(s@, (i + 1) as nat));
    }
}

/// A run of `n` spaces.
pub open spec fn spaces(n: nat) -> Seq<char> {
    Seq::new(n, |i: int| ' ')
}

pub fn push_spaces(out: &mut String, n: usize)
    ensures
        final(out)@ == old(out)@ + spaces(n as nat),
{
    let ghost before = out@;
    assert(out@ =~= before + spaces(0));
    for i in 0..n
        invariant
            out@ == before + spaces(i as nat),
    {
        out.push(' ');
        assert(out@ =~= before + spaces((i + 1) as nat));
    }
}

pub fn spaces_string(n: usize) -> (r: String)
    ensures
        r@ == spaces(n as nat),
{
    let mut out: String = String::new();
    push_spaces(&mut out, n);
    assert(out@ =~= spaces(n as nat));
    out
}

/// Appends a run of characters.
pub fn push_all(out: &mut Vec<char>, v: &Vec<char>)
    ensures
        final(out)@ == old(out)@ + v@,
{
    push_range(out, v, 0, v.len());
    assert(v@.subrange(0, v@.len() as int) =~= v@);
}

/// Appends the characters at `from..to`.
pub fn push_range(out: &mut Vec<char>, v: &Vec<char>, from: usize, to: usize)
    requires
        from <= to <= v@.len(),
    ensures
        final(out)@ == old(out)@ + v@.subrange(from as int, to as int),
{
    let ghost before = out@;
    assert(before + v@.subrange(from as int, from as int) =~= before);
    for i in from..to
        invariant
            from <= i <= to <= v@.len(),
            out@ == before + v@.subrange(from as int, i as int),
    {
        out.push(v[i]);
        assert(out@ =~= before + v@.subrange(from as int, i + 1));
    }
}

/// Appends a literal.
pub fn push_text(out: &mut Vec<char>, s: &str)
    ensures
        final(out)@ == old(out)@ + s@,
{
    let v = chars_of(s);
    push_all(out, &v);
}

// --- trimming -------------------------------------------------------------

/// `s` without leading white space.
pub open spec fn trim_start(s: Seq<char>) -> Seq<char>
    decreases s.len(),
{
    if s.len() > 0 && is_space(s.first()) {
        trim_start(s.drop_first())
    } else {
        s
    }
}

/// `s` without trailing white space.
pub open spec fn trim_end(s: Seq<char>) -> Seq<char>
    decreases s.len(),
{
    if s.len() > 0 && is_space(s.last()) {
        trim_end(s.drop_last())
    } else {
        s
    }
}

/// `s` without every leading `c`.
pub open spec fn trim_start_char(s: Seq<char>, c: char) -> Seq<char>
    decreases s.len(),
{
    if s.len() > 0 && s.first() == c {
        trim_start_char(s.drop_first(), c)
    } else {
        s
    }
}

/// `s` without every trailing `c`.
pub open spec fn trim_end_char(s: Seq<char>, c: char) -> Seq<char>
    decreases s.len(),
{
    if s.len() > 0 && s.last() == c {
        trim_end_char(s.drop_last(), c)
    } else {
        s
    }
}

/// `s` without white space at either end.
pub open spec fn trim(s: Seq<char>) -> Seq<char> {
    trim_end(trim_start(s))
}

/// True of a string that holds nothing but white space.
pub open spec fn all_space(s: Seq<char>) -> bool {
    forall|i: int| 0 <= i < s.len() ==> is_space(#[trigger] s[i])
}

/// Where `trim_start` begins within `v[from..to]`.
pub fn trim_start_at(v: &Vec<char>, from: usize, to: usize) -> (r: usize)
    requires
        from <= to <= v@.len(),
    ensures
        from <= r <= to,
        v@.subrange(r as int, to as int) == trim_start(v@.subrange(from as int, to as int)),
{
    let mut i: usize = from;
    while i < to && char_is_space(v[i])
        invariant
            from <= i <= to <= v@.len(),
            trim_start(v@.subrange(i as int, to as int)) == trim_start(
                v@.subrange(from as int, to as int),
            ),
        decreases to - i,
    {
        assert(v@.subrange(i as int, to as int).drop_first() =~= v@.subrange(i + 1, to as int));
        i = i + 1;
    }
    i
}

/// Where `trim_end` ends within `v[from..to]`.
pub fn trim_end_at(v: &Vec<char>, from: usize, to: usize) -> (r: usize)
    requires
        from <= to <= v@.len(),
    ensures
        from <= r <= to,
        v@.subrange(from as int, r as int) == trim_end(v@.subrange(from as int, to as int)),
{
    let mut i: usize = to;
    while i > from && char_is_space(v[i - 1])
        invariant
            from <= i <= to <= v@.len(),
            trim_end(v@.subrange(from as int, i as int)) == trim_end(
                v@.subrange(from as int, to as int),
            ),
        decreases i,
    {
        assert(v@.subrange(from as int, i as int).drop_last() =~= v@.subrange(from as int, i - 1));
        i = i - 1;
    }
    i
}

pub fn trimmed(s: &str) -> (r: String)
    ensures
        r@ == trim(s@),
{
    let v = chars_of(s);
    let n: usize = v.len();
    assert(v@.subrange(0, n as int) =~= v@);
    let a = trim_start_at(&v, 0, n);
    let b = trim_end_at(&v, a, n);
    string_of_range(&v, a, b)
}

pub fn trimmed_end(s: &str) -> (r: String)
    ensures
        r@ == trim_end(s@),
{
    let v = chars_of(s);
    let n: usize = v.len();
    assert(v@.subrange(0, n as int) =~= v@);
    let b = trim_end_at(&v, 0, n);
    string_of_range(&v, 0, b)
}

pub fn is_all_space(s: &str) -> (r: bool)
    ensures
        r == all_space(s@),
{
    let v = chars_of(s);
    for i in 0..v.len()
        invariant
            v@ == s@,
            forall|k: int| 0 <= k < i ==> is_space(#[trigger] v@[k]),
    {
        if !char_is_space(v[i]) {
            assert(!is_space(s@[i as int]));
            return false;
        }
    }
    true
}

/// `s` without every leading and trailing `c`.
pub open spec fn trim_matches(s: Seq<char>, c: char) -> Seq<char> {
    trim_end_char(trim_start_char(s, c), c)
}

/// Where the leading run of `c` in `v[from..to]` ends.
pub fn skip_char(v: &Vec<char>, from: usize, to: usize, c: char) -> (r: usize)
    requires
        from <= to <= v@.len(),
    ensures
        from <= r <= to,
        v@.subrange(r as int, to as int) == trim_start_char(
            v@.subrange(from as int, to as int),
            c,
        ),
{
    let mut i: usize = from;
    while i < to && v[i] == c
        invariant
            from <= i <= to <= v@.len(),
            trim_start_char(v@.subrange(i as int, to as int), c) == trim_start_char(
                v@.subrange(from as int, to as int),
                c,
            ),
        decreases to - i,
    {
        assert(v@.subrange(i as int, to as int).drop_first() =~= v@.subrange(i + 1, to as int));
        i = i + 1;
    }
    i
}

/// Where the trailing run of `c` in `v[from..to]` starts.
pub fn skip_char_back(v: &Vec<char>, from: usize, to: usize, c: char) -> (r: usize)
    requires
        from <= to <= v@.len(),
    ensures
        from <= r <= to,
        v@.subrange(from as int, r as int) == trim_end_char(
            v@.subrange(from as int, to as int),
            c,
        ),
{
    let mut i: usize = to;
    while i > from && v[i - 1] == c
        invariant
            from <= i <= to <= v@.len(),
            trim_end_char(v@.subrange(from as int, i as int), c) == trim_end_char(
                v@.subrange(from as int, to as int),
                c,
            ),
        decreases i,
    {
        assert(v@.subrange(from as int, i as int).drop_last() =~= v@.subrange(from as int, i - 1));
        i = i - 1;
    }
    i
}

// --- searching ------------------------------------------------------------

/// True when `p` occurs in `s` at position `i`.
pub open spec fn occurs_at(s: Seq<char>, p: Seq<char>, i: int) -> bool {
    0 <= i && i + p.len() <= s.len() && s.subrange(i, i + p.len()) == p
}

pub open spec fn starts_with(s: Seq<char>, p: Seq<char>) -> bool {
    occurs_at(s, p, 0)
}

pub open spec fn ends_with(s: Seq<char>, p: Seq<char>) -> bool {
    occurs_at(s, p, s.len() - p.len())
}

pub open spec fn contains(s: Seq<char>, p: Seq<char>) -> bool {
    exists|i: int| occurs_at(s, p, i)
}

/// The first position at or after `from` at which `p` occurs in `s`, if any.
pub open spec fn find_from(s: Seq<char>, p: Seq<char>, from: int) -> Option<int>
    decreases s.len() + 1 - from,
{
    if from + p.len() > s.len() {
        None
    } else if occurs_at(s, p, from) {
        Some(from)
    } else {
        find_from(s, p, from + 1)
    }
}

/// `find_from` finds the first occurrence and nothing else.
pub proof fn lemma_find_from(s: Seq<char>, p: Seq<char>, from: int)
    requires
        0 <= from,
    ensures
        match find_from(s, p, from) {
            Some(i) => from <= i && occurs_at(s, p, i) && forall|k: int|
                from <= k < i ==> !occurs_at(s, p, k),
            None => forall|k: int| from <= k ==> !occurs_at(s, p, k),
        },
    decreases s.len() + 1 - from,
{
    if from + p.len() <= s.len() && !occurs_at(s, p, from) {
        lemma_find_from(s, p, from + 1);
    }
}

/// True when `p` occurs in `v` at `i`.
pub fn chars_at(v: &Vec<char>, p: &Vec<char>, i: usize) -> (r: bool)
    ensures
        r == occurs_at(v@, p@, i as int),
{
    let n: usize = v.len();
    let m: usize = p.len();
    if m > n || i > n - m {
        return false;
    }
    for k in 0..m
        invariant
            n == v@.len(),
            m == p@.len(),
            m <= n,
            i <= n - m,
            forall|j: int| 0 <= j < k ==> v@[i + j] == p@[j],
    {
        if v[i + k] != p[k] {
            assert(v@.subrange(i as int, i + m)[k as int] != p@[k as int]);
            return false;
        }
    }
    assert(v@.subrange(i as int, i + m) =~= p@);
    true
}

pub fn find_chars(v: &Vec<char>, p: &Vec<char>, from: usize) -> (r: Option<usize>)
    ensures
        match r {
            Some(i) => find_from(v@, p@, from as int) == Some(i as int),
            None => find_from(v@, p@, from as int) is None,
        },
{
    let n: usize = v.len();
    let m: usize = p.len();
    if m > n {
        return None;
    }
    let mut i: usize = from;
    while i <= n - m
        invariant
            n == v@.len(),
            m == p@.len(),
            m <= n,
            from <= i,
            find_from(v@, p@, i as int) == find_from(v@, p@, from as int),
        decreases n - i,
    {
        if chars_at(v, p, i) {
            return Some(i);
        }
        if i == n - m {
            assert(find_from(v@, p@, i + 1) is None);
            return None;
        }
        i = i + 1;
    }
    None
}

/// True when the string begins with `p`.
pub fn has_prefix(s: &str, p: &str) -> (r: bool)
    ensures
        r == starts_with(s@, p@),
{
    chars_at(&chars_of(s), &chars_of(p), 0)
}

/// True when the string ends with `p`.
pub fn has_suffix(s: &str, p: &str) -> (r: bool)
    ensures
        r == ends_with(s@, p@),
{
    let v = chars_of(s);
    let q = chars_of(p);
    v.len() >= q.len() && chars_at(&v, &q, v.len() - q.len())
}

/// True when `p` occurs anywhere in the string.
pub fn has_sub(s: &str, p: &str) -> (r: bool)
    ensures
        r == contains(s@, p@),
{
    proof {
        lemma_find_from(s@, p@, 0);
    }
    find_chars(&chars_of(s), &chars_of(p), 0).is_some()
}

/// The first position in `from..` that holds `c`, or the length of `s`.
pub open spec fn index_of(s: Seq<char>, c: char, from: int) -> int
    decreases s.len() - from,
{
    if from >= s.len() {
        s.len() as int
    } else if s[from] == c {
        from
    } else {
        index_of(s, c, from + 1)
    }
}

pub fn find_char(v: &Vec<char>, c: char, from: usize) -> (r: usize)
    requires
        from <= v@.len(),
    ensures
        r == index_of(v@, c, from as int),
        from <= r <= v@.len(),
        r < v@.len() ==> v@[r as int] == c,
        forall|k: int| from <= k < r ==> v@[k] != c,
{
    let mut i: usize = from;
    while i < v.len() && v[i] != c
        invariant
            from <= i <= v@.len(),
            index_of(v@, c, i as int) == index_of(v@, c, from as int),
            forall|k: int| from <= k < i ==> v@[k] != c,
        decreases v@.len() - i,
    {
        i = i + 1;
    }
    i
}

// --- lines ----------------------------------------------------------------

/// Where the line that starts at `from` ends: at the next line feed, or at the end.
pub open spec fn line_end(s: Seq<char>, from: int) -> int {
    index_of(s, '\n', from)
}

/// A line's own text: a carriage return before the line feed is not part of it.
pub open spec fn line_text(s: Seq<char>, from: int) -> Seq<char> {
    let end = line_end(s, from);
    if end < s.len() && from < end && s[end - 1] == '\r' {
        s.subrange(from, end - 1)
    } else {
        s.subrange(from, end)
    }
}

/// The lines of `s[from..]`; a final line feed opens no further line.
pub open spec fn lines_from(s: Seq<char>, from: int) -> Seq<Seq<char>>
    decreases s.len() + 1 - from,
    when 0 <= from
    via lines_from_decreases
{
    if from >= s.len() {
        Seq::empty()
    } else {
        seq![line_text(s, from)] + lines_from(s, line_end(s, from) + 1)
    }
}

proof fn lemma_index_of_bounds(s: Seq<char>, c: char, from: int)
    requires
        0 <= from <= s.len(),
    ensures
        from <= index_of(s, c, from) <= s.len(),
    decreases s.len() - from,
{
    if from < s.len() && s[from] != c {
        lemma_index_of_bounds(s, c, from + 1);
    }
}

#[via_fn]
proof fn lines_from_decreases(s: Seq<char>, from: int) {
    if from < s.len() {
        lemma_index_of_bounds(s, '\n', from);
    }
}

/// The lines of a text.
pub open spec fn lines(s: Seq<char>) -> Seq<Seq<char>> {
    lines_from(s, 0)
}

/// The views of a vector of strings.
pub open spec fn views(v: Seq<String>) -> Seq<Seq<char>> {
    Seq::new(v.len(), |i: int| v[i]@)
}

pub fn lines_of(s: &str) -> (r: Vec<String>)
    ensures
        views(r@) == lines(s@),
{
    let v = chars_of(s);
    let n: usize = v.len();
    let mut out: Vec<String> = Vec::new();
    let mut at: usize = 0;
    assert(views(out@) + lines_from(v@, 0) =~= lines(s@));
    while at < n
        invariant
            n == v@.len(),
            v@ == s@,
            at <= n + 1,
            at <= usize::MAX,
            views(out@) + lines_from(v@, at as int) == lines(s@),
        decreases n + 1 - at,
    {
        let end = find_char(&v, '\n', at);
        let stop: usize = if end < n && at < end && v[end - 1] == '\r' {
            end - 1
        } else {
            end
        };
        let ghost before = views(out@);
        out.push(string_of_range(&v, at, stop));
        assert(views(out@) =~= before.push(line_text(v@, at as int)));
        assert(before + (seq![line_text(v@, at as int)] + lines_from(v@, end + 1)) =~= views(out@)
            + lines_from(v@, end + 1));
        if end == n {
            assert(lines_from(v@, end + 1) =~= Seq::<Seq<char>>::empty());
            assert(views(out@) + lines_from(v@, end + 1) =~= views(out@));
            return out;
        }
        at = end + 1;
    }
    assert(views(out@) + lines_from(v@, at as int) =~= views(out@));
    out
}

// --- words ----------------------------------------------------------------

/// The first position in `i..` that is not white space.
pub open spec fn past_space(s: Seq<char>, i: int) -> int
    decreases s.len() - i,
{
    if 0 <= i < s.len() && is_space(s[i]) {
        past_space(s, i + 1)
    } else {
        i
    }
}

/// The first position in `i..` that is white space.
pub open spec fn past_word(s: Seq<char>, i: int) -> int
    decreases s.len() - i,
{
    if 0 <= i < s.len() && !is_space(s[i]) {
        past_word(s, i + 1)
    } else {
        i
    }
}

/// The runs of `s[i..]` between white space.
pub open spec fn words_from(s: Seq<char>, i: int) -> Seq<Seq<char>>
    decreases s.len() - i,
    when 0 <= i
    via words_from_decreases
{
    let a = past_space(s, i);
    if a >= s.len() {
        Seq::empty()
    } else {
        seq![s.subrange(a, past_word(s, a))] + words_from(s, past_word(s, a))
    }
}

proof fn lemma_past_space(s: Seq<char>, i: int)
    requires
        0 <= i,
    ensures
        i <= past_space(s, i),
        i <= s.len() ==> past_space(s, i) <= s.len(),
        past_space(s, i) < s.len() ==> !is_space(s[past_space(s, i)]),
    decreases s.len() - i,
{
    if i < s.len() && is_space(s[i]) {
        lemma_past_space(s, i + 1);
    }
}

proof fn lemma_past_word(s: Seq<char>, i: int)
    requires
        0 <= i,
    ensures
        i <= past_word(s, i),
        i <= s.len() ==> past_word(s, i) <= s.len(),
        i < s.len() && !is_space(s[i]) ==> i < past_word(s, i),
    decreases s.len() - i,
{
    if i < s.len() && !is_space(s[i]) {
        lemma_past_word(s, i + 1);
    }
}

#[via_fn]
proof fn words_from_decreases(s: Seq<char>, i: int) {
    lemma_past_space(s, i);
    lemma_past_word(s, past_space(s, i));
}

/// The words of a text.
pub open spec fn words(s: Seq<char>) -> Seq<Seq<char>> {
    words_from(s, 0)
}

pub fn words_of(s: &str) -> (r: Vec<String>)
    ensures
        views(r@) == words(s@),
{
    let v = chars_of(s);
    let n: usize = v.len();
    let mut out: Vec<String> = Vec::new();
    let mut at: usize = 0;
    assert(views(out@) + words_from(v@, 0) =~= words(s@));
    loop
        invariant
            n == v.len(),
            v@ == s@,
            at <= n,
            views(out@) + words_from(v@, at as int) == words(s@),
        decreases n - at,
    {
        let mut a: usize = at;
        while a < n && char_is_space(v[a])
            invariant
                n == v.len(),
                at <= a <= n,
                past_space(v@, a as int) == past_space(v@, at as int),
            decreases n - a,
        {
            a = a + 1;
        }
        if a >= n {
            assert(views(out@) + words_from(v@, at as int) =~= views(out@));
            return out;
        }
        let mut b: usize = a;
        while b < n && !char_is_space(v[b])
            invariant
                n == v.len(),
                a <= b <= n,
                past_word(v@, b as int) == past_word(v@, a as int),
            decreases n - b,
        {
            b = b + 1;
        }
        proof {
            lemma_past_word(v@, a as int);
        }
        let ghost before = views(out@);
        out.push(string_of_range(&v, a, b));
        assert(views(out@) =~= before.push(v@.subrange(a as int, b as int)));
        assert(before + (seq![v@.subrange(a as int, b as int)] + words_from(v@, b as int))
            =~= views(out@) + words_from(v@, b as int));
        at = b;
    }
}

// --- splitting and joining ------------------------------------------------

/// The pieces of `s[from..]` between occurrences of `c`.
pub open spec fn split_from(s: Seq<char>, c: char, from: int) -> Seq<Seq<char>>
    decreases s.len() + 1 - from,
    when 0 <= from <= s.len()
    via split_from_decreases
{
    let end = index_of(s, c, from);
    if end >= s.len() {
        seq![s.subrange(from, s.len() as int)]
    } else {
        seq![s.subrange(from, end)] + split_from(s, c, end + 1)
    }
}

#[via_fn]
proof fn split_from_decreases(s: Seq<char>, c: char, from: int) {
    lemma_index_of_bounds(s, c, from);
}

/// The pieces of a text between occurrences of `c`; there is always at least one.
pub open spec fn split(s: Seq<char>, c: char) -> Seq<Seq<char>> {
    split_from(s, c, 0)
}

pub fn split_of(s: &str, c: char) -> (r: Vec<String>)
    ensures
        views(r@) == split(s@, c),
{
    let v = chars_of(s);
    let n: usize = v.len();
    let mut out: Vec<String> = Vec::new();
    let mut at: usize = 0;
    assert(views(out@) + split_from(v@, c, 0) =~= split(s@, c));
    loop
        invariant
            n == v@.len(),
            v@ == s@,
            at <= n,
            views(out@) + split_from(v@, c, at as int) == split(s@, c),
        decreases n - at,
    {
        let end = find_char(&v, c, at);
        let ghost before = views(out@);
        out.push(string_of_range(&v, at, end));
        assert(views(out@) =~= before.push(v@.subrange(at as int, end as int)));
        if end == n {
            assert(before + seq![v@.subrange(at as int, n as int)] =~= views(out@));
            return out;
        }
        assert(before + (seq![v@.subrange(at as int, end as int)] + split_from(v@, c, end + 1))
            =~= views(out@) + split_from(v@, c, end + 1));
        at = end + 1;
    }
}

/// `parts` end to end, with `sep` between each two.
pub open spec fn join(parts: Seq<Seq<char>>, sep: Seq<char>) -> Seq<char>
    decreases parts.len(),
{
    if parts.len() == 0 {
        Seq::empty()
    } else if parts.len() == 1 {
        parts[0]
    } else {
        join(parts.drop_last(), sep) + sep + parts.last()
    }
}

pub fn joined(parts: &Vec<String>, sep: &str) -> (r: String)
    ensures
        r@ == join(views(parts@), sep@),
{
    let mut out: String = String::new();
    let n: usize = parts.len();
    let ghost all = views(parts@);
    assert(all.take(0) =~= Seq::empty());
    for i in 0..n
        invariant
            n == parts@.len(),
            all == views(parts@),
            out@ == join(all.take(i as int), sep@),
    {
        let ghost before = out@;
        if i > 0 {
            out.push_str(sep);
        }
        out.push_str(&parts[i]);
        assert(all.take(i + 1).drop_last() =~= all.take(i as int));
        assert(all.take(i + 1).last() == parts@[i as int]@);
        assert(out@ =~= join(all.take(i + 1), sep@));
    }
    assert(all.take(n as int) =~= all);
    out
}

// --- numbers --------------------------------------------------------------

/// The character for one decimal digit.
pub open spec fn digit_char(d: int) -> char {
    (('0' as u32) + d) as char
}

/// A number in decimal, without leading zeros.
pub open spec fn decimal(n: nat) -> Seq<char>
    decreases n,
{
    if n < 10 {
        seq![digit_char(n as int)]
    } else {
        decimal(n / 10).push(digit_char((n % 10) as int))
    }
}

fn digit(d: u64) -> (r: char)
    requires
        d < 10,
    ensures
        r == digit_char(d as int),
{
    match char::from_u32(48 + d as u32) {
        Some(c) => c,
        None => '0',
    }
}

pub fn push_decimal(out: &mut String, n: u64)
    ensures
        final(out)@ == old(out)@ + decimal(n as nat),
    decreases n,
{
    if n >= 10 {
        push_decimal(out, n / 10);
    }
    let ghost before = out@;
    out.push(digit(n % 10));
    assert(out@ =~= old(out)@ + decimal(n as nat));
}

pub fn push_wide_decimal(out: &mut String, n: u128)
    ensures
        final(out)@ == old(out)@ + decimal(n as nat),
    decreases n,
{
    if n >= 10 {
        push_wide_decimal(out, n / 10);
    }
    out.push(digit((n % 10) as u64));
    assert(out@ =~= old(out)@ + decimal(n as nat));
}

/// The value of a digit in bases up to sixteen, or -1.
pub open spec fn digit_value(c: char) -> int {
    if '0' <= c <= '9' {
        c as int - '0' as int
    } else if 'a' <= c <= 'f' {
        c as int - 'a' as int + 10
    } else if 'A' <= c <= 'F' {
        c as int - 'A' as int + 10
    } else {
        -1
    }
}

/// True when every character is a digit in base `radix`.
pub open spec fn all_digits(s: Seq<char>, radix: int) -> bool {
    forall|i: int| 0 <= i < s.len() ==> 0 <= digit_value(#[trigger] s[i]) < radix
}

/// The number that a run of digits stands for.
pub open spec fn positional(s: Seq<char>, radix: int) -> int
    decreases s.len(),
{
    if s.len() == 0 {
        0
    } else {
        positional(s.drop_last(), radix) * radix + digit_value(s.last())
    }
}

/// A number as the standard library reads it: an optional `+`, then one or more
/// digits, with a value of at most `max`.
pub open spec fn parse_number(s: Seq<char>, radix: int, max: int) -> Option<int> {
    let body = if s.len() > 0 && s[0] == '+' {
        s.drop_first()
    } else {
        s
    };
    if body.len() > 0 && all_digits(body, radix) && positional(body, radix) <= max {
        Some(positional(body, radix))
    } else {
        None
    }
}

/// A number written with digits alone.
pub open spec fn digits_number(s: Seq<char>, radix: int, max: int) -> Option<int> {
    if s.len() > 0 && all_digits(s, radix) && positional(s, radix) <= max {
        Some(positional(s, radix))
    } else {
        None
    }
}

proof fn lemma_positional_prefix(s: Seq<char>, radix: int, i: int)
    requires
        0 <= i <= s.len(),
        radix >= 1,
        all_digits(s, radix),
    ensures
        0 <= positional(s.take(i), radix) <= positional(s, radix),
    decreases s.len(),
{
    if i == s.len() {
        assert(s.take(i) =~= s);
        if s.len() > 0 {
            assert(all_digits(s.drop_last(), radix));
            lemma_positional_prefix(s.drop_last(), radix, i - 1);
            assert(s.drop_last().take(i - 1) =~= s.drop_last());
            let p = positional(s.drop_last(), radix);
            assert(p * radix >= 0) by (nonlinear_arith)
                requires
                    p >= 0,
                    radix >= 1,
            ;
            assert(0 <= digit_value(s[s.len() - 1]));
        }
    } else {
        assert(all_digits(s.drop_last(), radix));
        lemma_positional_prefix(s.drop_last(), radix, i);
        assert(s.drop_last().take(i) =~= s.take(i));
        lemma_positional_prefix(s.drop_last(), radix, s.len() - 1);
        assert(s.drop_last().take(s.len() - 1) =~= s.drop_last());
        let p = positional(s.drop_last(), radix);
        assert(p * radix >= p) by (nonlinear_arith)
            requires
                p >= 0,
                radix >= 1,
        ;
        assert(0 <= digit_value(s[s.len() - 1]));
    }
}

pub fn hex_digit(c: char) -> (r: u64)
    ensures
        digit_value(c) >= 0 ==> r == digit_value(c),
        digit_value(c) < 0 ==> r == 16,
{
    if '0' <= c && c <= '9' {
        (c as u32 - 48) as u64
    } else if 'a' <= c && c <= 'f' {
        (c as u32 - 97 + 10) as u64
    } else if 'A' <= c && c <= 'F' {
        (c as u32 - 65 + 10) as u64
    } else {
        16
    }
}

/// Reads `v[from..to]` as a number in base `radix` of at most `max`.
pub fn number_at(v: &Vec<char>, from: usize, to: usize, radix: u64, max: u64) -> (r: Option<u64>)
    requires
        from <= to <= v@.len(),
        2 <= radix <= 16,
        max <= 0xffff_ffff,
    ensures
        match r {
            Some(n) => parse_number(v@.subrange(from as int, to as int), radix as int, max as int)
                == Some(n as int),
            None => parse_number(v@.subrange(from as int, to as int), radix as int, max as int)
                is None,
        },
{
    let ghost whole = v@.subrange(from as int, to as int);
    let mut i: usize = from;
    if from < to && v[from] == '+' {
        i = from + 1;
    }
    let start: usize = i;
    let ghost body = v@.subrange(start as int, to as int);
    assert(body =~= if whole.len() > 0 && whole[0] == '+' {
        whole.drop_first()
    } else {
        whole
    });
    if start == to {
        return None;
    }
    let mut n: u64 = 0;
    while i < to
        invariant
            from <= start <= i <= to <= v@.len(),
            2 <= radix <= 16,
            max <= 0xffff_ffff,
            body == v@.subrange(start as int, to as int),
            whole == v@.subrange(from as int, to as int),
            start < to,
            body == (if whole.len() > 0 && whole[0] == '+' {
                whole.drop_first()
            } else {
                whole
            }),
            n == positional(body.take(i - start), radix as int),
            n <= max,
            all_digits(body.take(i - start), radix as int),
        decreases to - i,
    {
        let d = hex_digit(v[i]);
        let ghost k = i - start;
        assert(body[k] == v@[i as int]);
        if d >= radix {
            assert(!all_digits(body, radix as int));
            return None;
        }
        assert(body.take(k + 1).drop_last() =~= body.take(k));
        assert(body.take(k + 1).last() == body[k]);
        assert(n * radix <= 0xffff_ffff * 16) by (nonlinear_arith)
            requires
                n <= 0xffff_ffff,
                radix <= 16,
        ;
        n = n * radix + d;
        assert(all_digits(body.take(k + 1), radix as int)) by {
            assert forall|j: int| 0 <= j < k + 1 implies 0 <= digit_value(
                #[trigger] body.take(k + 1)[j],
            ) < radix by {
                if j < k {
                    assert(body.take(k + 1)[j] == body.take(k)[j]);
                }
            }
        }
        if n > max {
            proof {
                if all_digits(body, radix as int) {
                    lemma_positional_prefix(body, radix as int, k + 1);
                }
            }
            return None;
        }
        i = i + 1;
    }
    assert(body.take(to - start) =~= body);
    Some(n)
}

/// Reads `v[from..to]` as digits in base `radix`, without a sign, of at most `max`.
pub fn digits_at(v: &Vec<char>, from: usize, to: usize, radix: u64, max: u64) -> (r: Option<u64>)
    requires
        from <= to <= v@.len(),
        2 <= radix <= 16,
        max <= 0xffff_ffff,
    ensures
        match r {
            Some(n) => digits_number(v@.subrange(from as int, to as int), radix as int, max as int)
                == Some(n as int),
            None => digits_number(v@.subrange(from as int, to as int), radix as int, max as int)
                is None,
        },
{
    let ghost s = v@.subrange(from as int, to as int);
    if from < to && v[from] == '+' {
        assert(s[0] == '+');
        assert(!all_digits(s, radix as int)) by {
            assert(digit_value(s[0]) < 0);
        }
        return None;
    }
    number_at(v, from, to, radix, max)
}

/// Reads a whole string as a number.
pub fn number_of(s: &str, radix: u64, max: u64) -> (r: Option<u64>)
    requires
        2 <= radix <= 16,
        max <= 0xffff_ffff,
    ensures
        match r {
            Some(n) => parse_number(s@, radix as int, max as int) == Some(n as int),
            None => parse_number(s@, radix as int, max as int) is None,
        },
{
    let v = chars_of(s);
    assert(v@.subrange(0, v@.len() as int) =~= v@);
    number_at(&v, 0, v.len(), radix, max)
}

// --- lists ------------------------------------------------------------------

/// A copy of a list of strings.
pub fn copied(v: &Vec<String>) -> (r: Vec<String>)
    ensures
        views(r@) == views(v@),
{
    let mut out: Vec<String> = Vec::new();
    for k in 0..v.len()
        invariant
            out.len() == k,
            forall|j: int| 0 <= j < k ==> (#[trigger] out@[j])@ == v@[j]@,
    {
        out.push(v[k].clone());
    }
    assert(views(out@) =~= views(v@));
    out
}

// --- quoting ---------------------------------------------------------------

/// The `Debug` form of a string: in quotes, with what would not show escaped.
pub uninterp spec fn quoted_text(s: Seq<char>) -> Seq<char>;

/// `format!` with `{:?}` of a string: the string in quotes, with escapes for what would
/// not show.
#[verifier::external_body]
pub(crate) fn quoted(s: &str) -> (r: String)
    ensures
        r@ == quoted_text(s@),
{
    format!("{s:?}")
}

} // verus!
