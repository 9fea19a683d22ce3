//! What a terminal receives when a picture is sent to it as a file.
//!
//! The readers here take an escape sequence apart: the values of its keys, and the
//! payload that it carries.
use vstd::prelude::*;
use vstd::utf8::encode_utf8;

use super::iterm2::{iterm2_text, named_text};
use super::kitty::{piece, piece_end, piece_keys, pieces};
use crate::codec::base64_text;
use crate::term::display::{lemma_numbers_decimal, numbers};
use crate::text;

verus! {

// --- keys and their values --------------------------------------------------------------------

/// How many digits a text starts with.
pub open spec fn digits_len(t: Seq<char>) -> int
    decreases t.len(),
{
    if t.len() > 0 && '0' <= t[0] <= '9' {
        1 + digits_len(t.skip(1))
    } else {
        0
    }
}

/// The number that a text starts with.
pub open spec fn leading_number(t: Seq<char>) -> nat {
    numbers(t.take(digits_len(t)), 0)[0]
}

/// The number that a key has among keys and values with separators between them.
pub open spec fn key_number(s: Seq<char>, key: Seq<char>, sep: char) -> Option<nat>
    decreases s.len(),
{
    if text::starts_with(s, key + seq!['=']) {
        Some(leading_number(s.skip(key.len() as int + 1)))
    } else {
        let e = text::index_of(s, sep, 0);
        if 0 <= e < s.len() {
            key_number(s.skip(e + 1), key, sep)
        } else {
            None
        }
    }
}

/// True of text that a number before it ends at.
spec fn ends_digits(t: Seq<char>) -> bool {
    t.len() == 0 || !('0' <= t[0] <= '9')
}

proof fn lemma_digits_len(s: Seq<char>, rest: Seq<char>)
    requires
        forall|k: int| 0 <= k < s.len() ==> '0' <= #[trigger] s[k] <= '9',
        ends_digits(rest),
    ensures
        digits_len(s + rest) == s.len(),
        (s + rest).take(s.len() as int) == s,
    decreases s.len(),
{
    let t = s + rest;
    assert(t.take(s.len() as int) =~= s);
    if s.len() > 0 {
        assert(t[0] == s[0]);
        assert(t.skip(1) =~= s.skip(1) + rest);
        lemma_digits_len(s.skip(1), rest);
    } else {
        assert(t =~= rest);
    }
}

proof fn lemma_decimal_digits(n: nat)
    ensures
        forall|k: int| 0 <= k < text::decimal(n).len() ==> '0' <= #[trigger] text::decimal(n)[k] <= '9',
    decreases n,
{
    let s = text::decimal(n);
    if n >= 10 {
        lemma_decimal_digits(n / 10);
        let d = text::decimal(n / 10);
        assert forall|k: int| 0 <= k < s.len() implies '0' <= #[trigger] s[k] <= '9' by {
            if k < d.len() {
                assert(s[k] == d[k]);
            }
        }
    }
}

proof fn lemma_leading_number(n: nat, rest: Seq<char>)
    requires
        ends_digits(rest),
    ensures
        leading_number(text::decimal(n) + rest) == n,
{
    lemma_decimal_digits(n);
    lemma_digits_len(text::decimal(n), rest);
    lemma_numbers_decimal(n, Seq::empty());
    assert(text::decimal(n) + Seq::<char>::empty() =~= text::decimal(n));
    assert(numbers(Seq::empty(), n) =~= seq![n]);
}

/// A key that comes first has the number behind it.
proof fn lemma_key_here(key: Seq<char>, n: nat, rest: Seq<char>, sep: char)
    requires
        ends_digits(rest),
    ensures
        key_number(key + seq!['='] + text::decimal(n) + rest, key, sep) == Some(n),
{
    let s = key + seq!['='] + text::decimal(n) + rest;
    assert(s.subrange(0, (key.len() + 1) as int) =~= key + seq!['=']);
    assert(s.skip(key.len() as int + 1) =~= text::decimal(n) + rest);
    lemma_leading_number(n, rest);
}

proof fn lemma_index(s: Seq<char>, c: char, from: int, at: int)
    requires
        0 <= from <= at < s.len(),
        s[at] == c,
        forall|k: int| from <= k < at ==> #[trigger] s[k] != c,
    ensures
        text::index_of(s, c, from) == at,
    decreases at - from,
{
    if from < at {
        lemma_index(s, c, from + 1, at);
    }
}

/// A key is looked for behind a field that is not its own.
proof fn lemma_key_later(field: Seq<char>, rest: Seq<char>, key: Seq<char>, sep: char)
    requires
        !field.contains(sep),
        !text::starts_with(field + seq![sep] + rest, key + seq!['=']),
    ensures
        key_number(field + seq![sep] + rest, key, sep) == key_number(rest, key, sep),
{
    let s = field + seq![sep] + rest;
    assert forall|k: int| 0 <= k < field.len() implies #[trigger] s[k] != sep by {
        assert(s[k] == field[k]);
    }
    lemma_index(s, sep, 0, field.len() as int);
    assert(s.skip(field.len() as int + 1) =~= rest);
}

// --- the kitty protocol ------------------------------------------------------------------------

/// What a terminal has received of an image.
pub struct Received {
    pub payload: Seq<char>,
    pub id: Option<nat>,
    pub cols: Option<nat>,
    pub rows: Option<nat>,
    /// More is to come.
    pub open: bool,
}

pub open spec fn nothing_received() -> Received {
    Received { payload: Seq::empty(), id: None, cols: None, rows: None, open: true }
}

/// `new` where it is there.
pub open spec fn updated(old_value: Option<nat>, new: Option<nat>) -> Option<nat> {
    if new is Some {
        new
    } else {
        old_value
    }
}

/// What has been received after one sequence with its keys and its payload.
pub open spec fn with_piece(r: Received, keys: Seq<char>, data: Seq<char>) -> Received {
    Received {
        payload: r.payload + data,
        id: updated(r.id, key_number(keys, seq!['i'], ',')),
        cols: updated(r.cols, key_number(keys, seq!['c'], ',')),
        rows: updated(r.rows, key_number(keys, seq!['r'], ',')),
        open: key_number(keys, seq!['m'], ',') == Some(1nat),
    }
}

/// What a terminal has received after some text, up to the end of an image.
pub open spec fn received(t: Seq<char>, r: Received) -> Received
    decreases t.len(),
{
    if r.open && text::starts_with(t, seq!['\x1b', '_', 'G']) {
        let k = text::index_of(t, ';', 3);
        let e = text::index_of(t, '\x1b', k + 1);
        if 3 <= k < e && e + 1 < t.len() && t[e + 1] == '\\' {
            received(t.skip(e + 2), with_piece(r, t.subrange(3, k), t.subrange(k + 1, e)))
        } else {
            r
        }
    } else {
        r
    }
}

proof fn lemma_piece_received(
    keys: Seq<char>,
    data: Seq<char>,
    rest: Seq<char>,
    r: Received,
)
    requires
        r.open,
        !keys.contains(';'),
        !data.contains('\x1b'),
    ensures
        received(piece(keys, data) + rest, r) == received(rest, with_piece(r, keys, data)),
{
    reveal_strlit("\x1b_G");
    reveal_strlit(";");
    reveal_strlit("\x1b\\");
    let t = piece(keys, data) + rest;
    let k: int = 3 + keys.len() as int;
    let e: int = k + 1 + data.len() as int;
    assert(t.subrange(0, 3) =~= seq!['\x1b', '_', 'G']);
    assert(t[k] == ';');
    assert forall|j: int| 3 <= j < k implies #[trigger] t[j] != ';' by {
        assert(t[j] == keys[j - 3]);
    }
    lemma_index(t, ';', 3, k);
    assert(t[e] == '\x1b' && t[e + 1] == '\\');
    assert forall|j: int| k + 1 <= j < e implies #[trigger] t[j] != '\x1b' by {
        assert(t[j] == data[j - k - 1]);
    }
    lemma_index(t, '\x1b', k + 1, e);
    assert(t.subrange(3, k) =~= keys);
    assert(t.subrange(k + 1, e) =~= data);
    assert(t.skip(e + 2) =~= rest);
}

/// A decimal holds digits alone.
proof fn lemma_decimal_plain(n: nat, c: char)
    requires
        !('0' <= c <= '9'),
    ensures
        !text::decimal(n).contains(c),
{
    lemma_decimal_digits(n);
}

/// The keys behind the image's own.
spec fn last_keys(more: bool) -> Seq<char> {
    seq!['q', '=', '2', ',', 'm', '='] + text::decimal(
        if more {
            1
        } else {
            0
        },
    )
}

proof fn lemma_last_keys(more: bool)
    ensures
        last_keys(more) == (if more {
            "q=2,m=1"@
        } else {
            "q=2,m=0"@
        }),
        key_number(last_keys(more), seq!['m'], ',') == Some(
            if more {
                1nat
            } else {
                0
            },
        ),
        key_number(last_keys(more), seq!['i'], ',') is None,
        key_number(last_keys(more), seq!['c'], ',') is None,
        key_number(last_keys(more), seq!['r'], ',') is None,
        !last_keys(more).contains(';'),
{
    reveal_strlit("q=2,m=1");
    reveal_strlit("q=2,m=0");
    reveal_with_fuel(text::decimal, 2);
    let n: nat = if more {
        1
    } else {
        0
    };
    let s = last_keys(more);
    assert(text::decimal(1) =~= seq!['1']);
    assert(text::decimal(0) =~= seq!['0']);
    assert(more ==> s =~= "q=2,m=1"@);
    assert(!more ==> s =~= "q=2,m=0"@);
    let none = Seq::<char>::empty();
    let field = seq!['q', '=', '2'];
    let rest = seq!['m'] + seq!['='] + text::decimal(n) + none;
    assert(s =~= field + seq![','] + rest);
    assert(!field.contains(','));
    lemma_key_here(seq!['m'], n, none, ',');
    lemma_not_first(s, 'q', 'm');
    lemma_key_later(field, rest, seq!['m'], ',');
    lemma_absent(field, rest, 'q', n, 'i');
    lemma_absent(field, rest, 'q', n, 'c');
    lemma_absent(field, rest, 'q', n, 'r');
}

/// A text that starts with another letter does not start with the key.
proof fn lemma_not_first(s: Seq<char>, first: char, key: char)
    requires
        s.len() > 0,
        s[0] == first,
        first != key,
    ensures
        !text::starts_with(s, seq![key] + seq!['=']),
{
    let p = seq![key] + seq!['='];
    assert(p[0] == key);
    if text::starts_with(s, p) {
        assert(s.subrange(0, 2)[0] == s[0]);
    }
}

proof fn lemma_absent(field: Seq<char>, rest: Seq<char>, first: char, n: nat, key: char)
    requires
        field == seq!['q', '=', '2'],
        first == 'q',
        rest == seq!['m'] + seq!['='] + text::decimal(n) + Seq::<char>::empty(),
        n < 10,
        key != 'q',
        key != 'm',
    ensures
        key_number(field + seq![','] + rest, seq![key], ',') is None,
{
    let s = field + seq![','] + rest;
    lemma_not_first(s, 'q', key);
    lemma_key_later(field, rest, seq![key], ',');
    lemma_not_first(rest, 'm', key);
    lemma_decimal_plain(n, ',');
    assert(!rest.contains(',')) by {
        if rest.contains(',') {
            let j = choose|j: int| 0 <= j < rest.len() && rest[j] == ',';
            assert(j >= 2 && rest[j] == text::decimal(n)[j - 2]);
        }
    }
    lemma_no_index(rest, ',', 0);
}

proof fn lemma_no_index(s: Seq<char>, c: char, from: int)
    requires
        !s.contains(c),
        0 <= from <= s.len(),
    ensures
        text::index_of(s, c, from) == s.len(),
    decreases s.len() - from,
{
    if from < s.len() {
        assert(s.contains(s[from]));
        lemma_no_index(s, c, from + 1);
    }
}

/// What some keys say of an image, and whether they keep clear of the payload.
struct Told {
    id: Option<nat>,
    cols: Option<nat>,
    rows: Option<nat>,
    more: Option<nat>,
    clear: bool,
}

#[verifier::opaque]
spec fn told(s: Seq<char>) -> Told {
    Told {
        id: key_number(s, seq!['i'], ','),
        cols: key_number(s, seq!['c'], ','),
        rows: key_number(s, seq!['r'], ','),
        more: key_number(s, seq!['m'], ','),
        clear: !s.contains(';'),
    }
}

/// A field that is none of the four says nothing.
proof fn lemma_other_field(field: Seq<char>, rest: Seq<char>)
    requires
        field.len() > 0,
        !field.contains(','),
        !field.contains(';'),
        field[0] != 'i' && field[0] != 'c' && field[0] != 'r' && field[0] != 'm',
        told(rest).clear,
    ensures
        told(field + seq![','] + rest) == told(rest),
{
    reveal(told);
    lemma_pass(field, rest, 'i');
    lemma_pass(field, rest, 'c');
    lemma_pass(field, rest, 'r');
    lemma_pass(field, rest, 'm');
    lemma_no_semicolon(field, rest);
}

/// A field that is one of the four says its number.
proof fn lemma_own_field(key: char, n: nat, rest: Seq<char>)
    requires
        key == 'i' || key == 'c' || key == 'r',
        told(rest).clear,
    ensures
        told(seq![key] + seq!['='] + text::decimal(n) + seq![','] + rest) == (if key == 'i' {
            Told { id: Some(n), ..told(rest) }
        } else if key == 'c' {
            Told { cols: Some(n), ..told(rest) }
        } else {
            Told { rows: Some(n), ..told(rest) }
        }),
{
    reveal(told);
    let field = seq![key] + seq!['='] + text::decimal(n);
    lemma_field(seq![key], n);
    let s = field + seq![','] + rest;
    assert(field[0] == key);
    lemma_key_here(seq![key], n, seq![','] + rest, ',');
    assert(s =~= seq![key] + seq!['='] + text::decimal(n) + (seq![','] + rest));
    if key != 'i' {
        lemma_pass(field, rest, 'i');
    }
    if key != 'c' {
        lemma_pass(field, rest, 'c');
    }
    if key != 'r' {
        lemma_pass(field, rest, 'r');
    }
    lemma_pass(field, rest, 'm');
    lemma_no_semicolon(field, rest);
}

/// The keys behind the rows.
spec fn tail_keys(more: bool) -> Seq<char> {
    seq!['C', '=', '1'] + seq![','] + (seq!['z', '=', '-', '1'] + seq![','] + last_keys(more))
}

proof fn lemma_tail_keys(more: bool)
    ensures
        told(tail_keys(more)) == told(last_keys(more)),
        told(last_keys(more)) == (Told {
            id: None,
            cols: None,
            rows: None,
            more: Some(
                if more {
                    1nat
                } else {
                    0
                },
            ),
            clear: true,
        }),
{
    lemma_last_keys(more);
    assert(told(last_keys(more)).clear) by {
        reveal(told);
    }
    let z = seq!['z', '=', '-', '1'];
    let c = seq!['C', '=', '1'];
    assert(!z.contains(',') && !z.contains(';') && !c.contains(',') && !c.contains(';'));
    lemma_other_field(z, last_keys(more));
    lemma_other_field(c, z + seq![','] + last_keys(more));
    reveal(told);
}

/// The keys of the first piece, field by field.
spec fn first_keys(more: bool, cols: u16, rows: u16, id: u32) -> Seq<char> {
    let r = seq!['r'] + seq!['='] + text::decimal(rows as nat) + seq![','] + tail_keys(more);
    let c = seq!['c'] + seq!['='] + text::decimal(cols as nat) + seq![','] + r;
    let i = seq!['i'] + seq!['='] + text::decimal(id as nat) + seq![','] + c;
    seq!['a', '=', 'T'] + seq![','] + (seq!['f', '=', '1', '0', '0'] + seq![','] + i)
}

proof fn lemma_keys_shape(more: bool, cols: u16, rows: u16, id: u32)
    ensures
        piece_keys(true, more, cols, rows, id) == first_keys(more, cols, rows, id),
{
    reveal_strlit("a=T,f=100,i=");
    reveal_strlit(",c=");
    reveal_strlit(",r=");
    reveal_strlit(",C=1,z=-1,");
    lemma_last_keys(more);
    let d = text::decimal(id as nat);
    let e = text::decimal(cols as nat);
    let f = text::decimal(rows as nat);
    let l = last_keys(more);
    assert(",C=1,z=-1,"@ + l =~= seq![','] + tail_keys(more));
    assert(",r="@ + f + (seq![','] + tail_keys(more)) =~= seq![','] + (seq!['r'] + seq!['='] + f
        + seq![','] + tail_keys(more)));
    let r = seq!['r'] + seq!['='] + f + seq![','] + tail_keys(more);
    assert(",c="@ + e + (seq![','] + r) =~= seq![','] + (seq!['c'] + seq!['='] + e + seq![',']
        + r));
    let c = seq!['c'] + seq!['='] + e + seq![','] + r;
    assert("a=T,f=100,i="@ =~= seq!['a', '=', 'T'] + seq![','] + seq!['f', '=', '1', '0', '0']
        + seq![','] + seq!['i'] + seq!['=']);
    assert("a=T,f=100,i="@ + d + (seq![','] + c) =~= first_keys(more, cols, rows, id));
    assert(piece_keys(true, more, cols, rows, id) =~= "a=T,f=100,i="@ + d + (",c="@ + e + (",r="@
        + f + (",C=1,z=-1,"@ + l))));
}

proof fn lemma_first_keys(more: bool, cols: u16, rows: u16, id: u32)
    ensures
        told(piece_keys(true, more, cols, rows, id)) == (Told {
            id: Some(id as nat),
            cols: Some(cols as nat),
            rows: Some(rows as nat),
            more: Some(
                if more {
                    1nat
                } else {
                    0
                },
            ),
            clear: true,
        }),
{
    lemma_keys_shape(more, cols, rows, id);
    lemma_tail_keys(more);
    let r = seq!['r'] + seq!['='] + text::decimal(rows as nat) + seq![','] + tail_keys(more);
    let c = seq!['c'] + seq!['='] + text::decimal(cols as nat) + seq![','] + r;
    let i = seq!['i'] + seq!['='] + text::decimal(id as nat) + seq![','] + c;
    lemma_own_field('r', rows as nat, tail_keys(more));
    lemma_own_field('c', cols as nat, r);
    lemma_own_field('i', id as nat, c);
    let ff = seq!['f', '=', '1', '0', '0'];
    let fa = seq!['a', '=', 'T'];
    assert(!ff.contains(',') && !ff.contains(';') && !fa.contains(',') && !fa.contains(';'));
    lemma_other_field(ff, i);
    lemma_other_field(fa, ff + seq![','] + i);
}

proof fn lemma_no_semicolon(field: Seq<char>, rest: Seq<char>)
    requires
        !field.contains(';'),
        !rest.contains(';'),
    ensures
        !(field + seq![','] + rest).contains(';'),
{
    let s = field + seq![','] + rest;
    assert forall|j: int| 0 <= j < s.len() implies #[trigger] s[j] != ';' by {
        if j < field.len() {
            assert(field.contains(s[j]));
        } else if j > field.len() {
            assert(s[j] == rest[j - field.len() - 1]);
            assert(rest.contains(s[j]));
        }
    }
}

proof fn lemma_field(key: Seq<char>, n: nat)
    requires
        key.len() == 1,
        key[0] != ',',
        key[0] != ';',
    ensures
        !(key + seq!['='] + text::decimal(n)).contains(','),
        !(key + seq!['='] + text::decimal(n)).contains(';'),
{
    lemma_decimal_plain(n, ',');
    lemma_decimal_plain(n, ';');
    let f = key + seq!['='] + text::decimal(n);
    assert forall|j: int| 0 <= j < f.len() implies #[trigger] f[j] != ',' && f[j] != ';' by {
        if j >= 2 {
            assert(f[j] == text::decimal(n)[j - 2]);
            assert(text::decimal(n).contains(f[j]));
        }
    }
}

/// A key with one letter is looked for behind a field with another.
proof fn lemma_pass(field: Seq<char>, rest: Seq<char>, key: char)
    requires
        field.len() > 0,
        field[0] != key,
        !field.contains(','),
    ensures
        key_number(field + seq![','] + rest, seq![key], ',') == key_number(rest, seq![key], ','),
{
    let s = field + seq![','] + rest;
    assert(s[0] == field[0]);
    lemma_not_first(s, field[0], key);
    lemma_key_later(field, rest, seq![key], ',');
}

proof fn lemma_pieces_received(
    payload: Seq<char>,
    at: int,
    cols: u16,
    rows: u16,
    id: u32,
    r: Received,
)
    requires
        0 <= at < payload.len(),
        !payload.contains('\x1b'),
        r.open,
        r.payload == payload.subrange(0, at),
        at > 0 ==> r.id == Some(id as nat) && r.cols == Some(cols as nat) && r.rows == Some(
            rows as nat,
        ),
    ensures
        received(pieces(payload, at, cols, rows, id), r) == (Received {
            payload,
            id: Some(id as nat),
            cols: Some(cols as nat),
            rows: Some(rows as nat),
            open: false,
        }),
    decreases payload.len() - at,
{
    let end = piece_end(payload.len() as int, at);
    let more = end < payload.len();
    let keys = piece_keys(at == 0, more, cols, rows, id);
    let data = payload.subrange(at, end);
    let rest = pieces(payload, end, cols, rows, id);
    assert(!data.contains('\x1b')) by {
        if data.contains('\x1b') {
            let j = choose|j: int| 0 <= j < data.len() && data[j] == '\x1b';
            assert(payload[at + j] == '\x1b');
        }
    }
    lemma_last_keys(more);
    lemma_tail_keys(more);
    if at == 0 {
        lemma_first_keys(more, cols, rows, id);
    } else {
        assert(keys =~= last_keys(more));
    }
    assert(told(keys).clear && told(keys).more == Some(
        if more {
            1nat
        } else {
            0
        },
    ));
    reveal(told);
    lemma_piece_received(keys, data, rest, r);
    let next = with_piece(r, keys, data);
    assert(r.payload + data =~= payload.subrange(0, end));
    if more {
        lemma_pieces_received(payload, end, cols, rows, id, next);
    } else {
        assert(payload.subrange(0, end) =~= payload);
        assert(received(rest, next) == next);
    }
}

/// The whole file arrives, however many sequences it takes: what a terminal puts together
/// from their payloads is what was sent, in order, and it is told once which image that
/// is and how many columns and rows it takes. Only the last sequence says that there is
/// no more.
pub proof fn files_arrive_whole(payload: Seq<char>, cols: u16, rows: u16, id: u32)
    requires
        payload.len() > 0,
        !payload.contains('\x1b'),
    ensures
        received(pieces(payload, 0, cols, rows, id), nothing_received()) == (Received {
            payload,
            id: Some(id as nat),
            cols: Some(cols as nat),
            rows: Some(rows as nat),
            open: false,
        }),
{
    assert(payload.subrange(0, 0) =~= Seq::empty());
    lemma_pieces_received(payload, 0, cols, rows, id, nothing_received());
}

// --- the iTerm2 protocol -----------------------------------------------------------------------

/// One key with its number.
pub open spec fn field(key: Seq<char>, n: nat) -> Seq<char> {
    key + seq!['='] + text::decimal(n)
}

/// The keys of a file, one after the other.
spec fn file_keys(size: nat, cols: u16, rows: u16) -> Seq<char> {
    let h = field("height"@, rows as nat) + seq![';'] + "preserveAspectRatio=1"@;
    let w = field("width"@, cols as nat) + seq![';'] + h;
    let z = field("size"@, size) + seq![';'] + w;
    field("inline"@, 1) + seq![';'] + z
}

proof fn lemma_file_shape(bytes: Seq<u8>, cols: u16, rows: u16)
    ensures
        super::iterm2::arguments(bytes, cols, rows) == file_keys(bytes.len(), cols, rows) + seq![
            ':',
        ] + base64_text(bytes) + seq!['\x1b', '\\'],
{
    reveal_strlit("inline=1;size=");
    reveal_strlit(";width=");
    reveal_strlit(";height=");
    reveal_strlit(";preserveAspectRatio=1:");
    reveal_strlit("preserveAspectRatio=1");
    reveal_strlit("\x1b\\");
    reveal_strlit("size");
    reveal_strlit("width");
    reveal_strlit("height");
    reveal_strlit("inline");
    reveal_with_fuel(text::decimal, 2);
    assert(text::decimal(1) =~= seq!['1']);
    let d = text::decimal(bytes.len());
    let e = text::decimal(cols as nat);
    let f = text::decimal(rows as nat);
    let b = base64_text(bytes);
    let p = "preserveAspectRatio=1"@;
    let tail = b + seq!['\x1b', '\\'];
    assert(";preserveAspectRatio=1:"@ =~= seq![';'] + p + seq![':']);
    assert(";height="@ =~= seq![';'] + "height"@ + seq!['=']);
    assert(";width="@ =~= seq![';'] + "width"@ + seq!['=']);
    assert("inline=1;size="@ =~= field("inline"@, 1) + seq![';'] + "size"@ + seq!['=']);
    assert("\x1b\\"@ =~= seq!['\x1b', '\\']);
    let h = field("height"@, rows as nat) + seq![';'] + p;
    let w = field("width"@, cols as nat) + seq![';'] + h;
    let z = field("size"@, bytes.len()) + seq![';'] + w;
    assert(";height="@ + f + (seq![';'] + p + seq![':'] + tail) =~= seq![';'] + h + seq![':']
        + tail);
    assert(";width="@ + e + (seq![';'] + h + seq![':'] + tail) =~= seq![';'] + w + seq![':']
        + tail);
    assert("inline=1;size="@ + d + (seq![';'] + w + seq![':'] + tail) =~= field("inline"@, 1)
        + seq![';'] + z + seq![':'] + tail);
    assert(super::iterm2::arguments(bytes, cols, rows) =~= "inline=1;size="@ + d + (";width="@ + e
        + (";height="@ + f + (";preserveAspectRatio=1:"@ + tail))));
    assert(file_keys(bytes.len(), cols, rows) + seq![':'] + b + seq!['\x1b', '\\'] =~= field(
        "inline"@,
        1,
    ) + seq![';'] + z + seq![':'] + tail);
}

proof fn lemma_file_keys(size: nat, cols: u16, rows: u16)
    ensures
        key_number(file_keys(size, cols, rows), "size"@, ';') == Some(size),
        key_number(file_keys(size, cols, rows), "width"@, ';') == Some(cols as nat),
        key_number(file_keys(size, cols, rows), "height"@, ';') == Some(rows as nat),
        key_number(file_keys(size, cols, rows), "inline"@, ';') == Some(1nat),
        !file_keys(size, cols, rows).contains(':'),
{
    reveal_strlit("size");
    reveal_strlit("width");
    reveal_strlit("height");
    reveal_strlit("inline");
    reveal_strlit("preserveAspectRatio=1");
    let p = "preserveAspectRatio=1"@;
    let h = field("height"@, rows as nat) + seq![';'] + p;
    let w = field("width"@, cols as nat) + seq![';'] + h;
    let z = field("size"@, size) + seq![';'] + w;
    lemma_named_field("height"@, rows as nat);
    lemma_named_field("width"@, cols as nat);
    lemma_named_field("size"@, size);
    lemma_named_field("inline"@, 1);
    lemma_named_here("height"@, rows as nat, p);
    lemma_named_here("width"@, cols as nat, h);
    lemma_named_here("size"@, size, w);
    lemma_named_here("inline"@, 1, z);
    lemma_pass_named(field("inline"@, 1), z, "size"@);
    lemma_pass_named(field("inline"@, 1), z, "width"@);
    lemma_pass_named(field("inline"@, 1), z, "height"@);
    lemma_pass_named(field("size"@, size), w, "width"@);
    lemma_pass_named(field("size"@, size), w, "height"@);
    lemma_pass_named(field("width"@, cols as nat), h, "height"@);
    assert(!p.contains(':'));
    lemma_no_colon(field("height"@, rows as nat), p);
    lemma_no_colon(field("width"@, cols as nat), h);
    lemma_no_colon(field("size"@, size), w);
    lemma_no_colon(field("inline"@, 1), z);
}

proof fn lemma_named_here(key: Seq<char>, n: nat, rest: Seq<char>)
    ensures
        key_number(field(key, n) + seq![';'] + rest, key, ';') == Some(n),
{
    lemma_key_here(key, n, seq![';'] + rest, ';');
    assert(field(key, n) + seq![';'] + rest =~= key + seq!['='] + text::decimal(n) + (seq![';']
        + rest));
}

proof fn lemma_no_colon(a: Seq<char>, rest: Seq<char>)
    requires
        !a.contains(':'),
        !rest.contains(':'),
    ensures
        !(a + seq![';'] + rest).contains(':'),
{
    let s = a + seq![';'] + rest;
    assert forall|j: int| 0 <= j < s.len() implies #[trigger] s[j] != ':' by {
        if j < a.len() {
            assert(a.contains(s[j]));
        } else if j > a.len() {
            assert(s[j] == rest[j - a.len() - 1]);
            assert(rest.contains(s[j]));
        }
    }
}

/// A file in the iTerm2 protocol says how large it is and how many columns and rows it
/// takes, in the keys before the colon, and carries its payload behind it, up to the end
/// of the sequence.
pub proof fn inline_files_say_their_size(bytes: Seq<u8>, cols: u16, rows: u16) -> (keys: Seq<char>)
    ensures
        iterm2_text(bytes, cols, rows) == seq![
            '\x1b',
            ']',
            '1',
            '3',
            '3',
            '7',
            ';',
            'F',
            'i',
            'l',
            'e',
            '=',
        ] + (keys + seq![':'] + base64_text(bytes) + seq!['\x1b', '\\']),
        !keys.contains(':'),
        key_number(keys, "size"@, ';') == Some(bytes.len()),
        key_number(keys, "width"@, ';') == Some(cols as nat),
        key_number(keys, "height"@, ';') == Some(rows as nat),
        key_number(keys, "inline"@, ';') == Some(1nat),
{
    lemma_file_shape(bytes, cols, rows);
    lemma_file_keys(bytes.len(), cols, rows);
    reveal_strlit("\x1b]1337;File=");
    assert("\x1b]1337;File="@ =~= seq![
        '\x1b',
        ']',
        '1',
        '3',
        '3',
        '7',
        ';',
        'F',
        'i',
        'l',
        'e',
        '=',
    ]);
    file_keys(bytes.len(), cols, rows)
}

proof fn lemma_named_field(key: Seq<char>, n: nat)
    requires
        !key.contains(';'),
        !key.contains(':'),
    ensures
        !field(key, n).contains(';'),
        !field(key, n).contains(':'),
        key.len() > 0 ==> field(key, n)[0] == key[0],
{
    lemma_decimal_plain(n, ';');
    lemma_decimal_plain(n, ':');
    let f = field(key, n);
    assert forall|j: int| 0 <= j < f.len() implies #[trigger] f[j] != ';' && f[j] != ':' by {
        if j < key.len() {
            assert(key.contains(f[j]));
        } else if j > key.len() {
            assert(f[j] == text::decimal(n)[j - key.len() - 1]);
            assert(text::decimal(n).contains(f[j]));
        }
    }
}

proof fn lemma_pass_named(field: Seq<char>, rest: Seq<char>, key: Seq<char>)
    requires
        field.len() > 0,
        key.len() > 0,
        field[0] != key[0],
        !field.contains(';'),
    ensures
        key_number(field + seq![';'] + rest, key, ';') == key_number(rest, key, ';'),
{
    let s = field + seq![';'] + rest;
    let p = key + seq!['='];
    assert(s[0] == field[0]);
    if text::starts_with(s, p) {
        assert(s.subrange(0, p.len() as int)[0] == s[0]);
        assert(p[0] == key[0]);
        assert(false);
    }
    lemma_key_later(field, rest, key, ';');
}

/// A name is sent before everything else, and changes nothing behind it.
pub proof fn names_come_first(name: Seq<char>, bytes: Seq<u8>, cols: u16, rows: u16)
    ensures
        ({
            let start = seq!['\x1b', ']', '1', '3', '3', '7', ';', 'F', 'i', 'l', 'e', '='];
            let bare = iterm2_text(bytes, cols, rows);
            named_text(name, bytes, cols, rows) == start + seq!['n', 'a', 'm', 'e', '=']
                + base64_text(encode_utf8(name)) + seq![';'] + bare.skip(start.len() as int)
        }),
{
    reveal_strlit("\x1b]1337;File=");
    reveal_strlit("\x1b]1337;File=name=");
    reveal_strlit(";");
    let start = seq!['\x1b', ']', '1', '3', '3', '7', ';', 'F', 'i', 'l', 'e', '='];
    assert(iterm2_text(bytes, cols, rows).skip(start.len() as int) =~= super::iterm2::arguments(
        bytes,
        cols,
        rows,
    ));
    assert(named_text(name, bytes, cols, rows) =~= start + seq!['n', 'a', 'm', 'e', '=']
        + base64_text(encode_utf8(name)) + seq![';'] + super::iterm2::arguments(
        bytes,
        cols,
        rows,
    ));
}

} // verus!
