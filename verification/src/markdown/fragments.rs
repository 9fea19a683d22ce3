//! What is read of a fragment of HTML.
//!
//! A fragment is text with tags in it. The laws here say what each of the tags that count
//! does to the text around it, and that the others do nothing.
use vstd::prelude::*;

use super::html::{
    after_tag, attr_from, attr_value, collapsed, collapsed_from, decoded, decoded_from,
    entity_char, flushed, is_line_element, name_end, scan_flushed, semicolon, simplified,
    simplified_from, tag_name_of, utf8_len, PieceV, ScanV,
};
use super::ir::ImageRefV;
use crate::render::inline::{inked, lemma_inked_append};
use crate::text;

verus! {

/// The scanner before anything has been read.
pub open spec fn fresh_scan() -> ScanV {
    ScanV { out: Seq::empty(), run: Seq::empty(), summary: false, skip: 0 }
}

/// A tag as it is written.
pub open spec fn tag_text(t: Seq<char>) -> Seq<char> {
    seq!['<'] + t + seq!['>']
}

// --- moving along -------------------------------------------------------------------------

proof fn lemma_index_shift(p: Seq<char>, h: Seq<char>, c: char, i: int)
    requires
        0 <= i <= h.len(),
    ensures
        text::index_of(p + h, c, p.len() + i) == p.len() + text::index_of(h, c, i),
        i <= text::index_of(h, c, i) <= h.len(),
    decreases h.len() - i,
{
    if i < h.len() {
        assert((p + h)[p.len() + i] == h[i]);
        if h[i] != c {
            lemma_index_shift(p, h, c, i + 1);
        }
    }
}

/// What has been read already has no part in how reading goes on.
proof fn lemma_shift(p: Seq<char>, h: Seq<char>, i: int, st: ScanV)
    requires
        0 <= i <= h.len(),
    ensures
        simplified_from(p + h, p.len() + i, st) == simplified_from(h, i, st),
    decreases h.len() - i,
{
    if i < h.len() {
        assert((p + h)[p.len() + i] == h[i]);
        if h[i] == '<' {
            lemma_index_shift(p, h, '>', i);
            let end = text::index_of(h, '>', i);
            if i < end < h.len() {
                let t = h.subrange(i + 1, end);
                assert((p + h).subrange(p.len() + i + 1, p.len() + end) =~= t);
                lemma_shift(p, h, end + 1, after_tag(st, t));
            } else {
                lemma_shift(p, h, i + 1, ScanV { run: st.run.push('<'), ..st });
            }
        } else if st.skip == 0 {
            lemma_shift(p, h, i + 1, ScanV { run: st.run.push(h[i]), ..st });
        } else {
            lemma_shift(p, h, i + 1, st);
        }
    }
}

/// Text up to the next tag is collected, or passed over in what is not prose.
proof fn lemma_run(a: Seq<char>, h: Seq<char>, st: ScanV)
    requires
        !a.contains('<'),
    ensures
        simplified_from(a + h, 0, st) == simplified_from(
            h,
            0,
            if st.skip == 0 {
                ScanV { run: st.run + a, ..st }
            } else {
                st
            },
        ),
    decreases a.len(),
{
    if a.len() == 0 {
        assert(a + h =~= h);
        assert(st.run + a =~= st.run);
    } else {
        let all = a + h;
        let one = seq![a[0]];
        let rest = a.skip(1);
        assert(a.contains(a[0]));
        assert(all[0] == a[0]);
        assert(all =~= one + (rest + h));
        let next = if st.skip == 0 {
            ScanV { run: st.run.push(a[0]), ..st }
        } else {
            st
        };
        lemma_shift(one, rest + h, 0, next);
        assert(simplified_from(all, 0, st) == simplified_from(all, 1, next));
        assert(!rest.contains('<')) by {
            if rest.contains('<') {
                let i = choose|i: int| 0 <= i < rest.len() && rest[i] == '<';
                assert(a[i + 1] == '<');
            }
        }
        lemma_run(rest, h, next);
        assert(st.run.push(a[0]) + rest =~= st.run + a);
    }
}

/// A tag does what it does, and reading goes on behind it.
proof fn lemma_tag(t: Seq<char>, h: Seq<char>, st: ScanV)
    requires
        !t.contains('>'),
    ensures
        simplified_from(tag_text(t) + h, 0, st) == simplified_from(h, 0, after_tag(st, t)),
{
    let all = tag_text(t) + h;
    let end: int = 1 + t.len() as int;
    assert(all[0] == '<');
    assert(all[end] == '>');
    assert(all.subrange(1, end) =~= t);
    lemma_index(all, '>', 0, end, t);
    lemma_shift(tag_text(t), h, 0, after_tag(st, t));
}

proof fn lemma_index(s: Seq<char>, c: char, from: int, at: int, t: Seq<char>)
    requires
        0 <= from <= at < s.len(),
        s[at] == c,
        c == '>',
        at == 1 + t.len(),
        s[0] == '<',
        s.subrange(1, at) == t,
        !t.contains('>'),
    ensures
        text::index_of(s, c, from) == at,
    decreases at - from,
{
    if from < at {
        if from > 0 {
            assert(s.subrange(1, at)[from - 1] == s[from]);
            assert(t.contains(t[from - 1]));
        }
        lemma_index(s, c, from + 1, at, t);
    }
}

proof fn lemma_after_tag_out(st: ScanV, t: Seq<char>)
    ensures
        ({
            let bare = after_tag(ScanV { out: Seq::empty(), ..st }, t);
            after_tag(st, t) == (ScanV { out: st.out + bare.out, ..bare })
        }),
{
    let none = Seq::<PieceV>::empty();
    let bare = ScanV { out: none, ..st };
    let f = flushed(st.run, st.summary);
    assert(none + f =~= f);
    assert(st.out + none =~= st.out);
    assert((st.out + f).push(PieceV::Break) =~= st.out + f.push(PieceV::Break));
    let image = super::html::tag_image(t);
    assert((st.out + f) + image =~= st.out + (f + image));
    assert(after_tag(st, t).out =~= st.out + after_tag(bare, t).out);
}

/// The pieces that are done come first.
proof fn lemma_out(h: Seq<char>, i: int, st: ScanV)
    requires
        0 <= i <= h.len(),
    ensures
        simplified_from(h, i, st) == st.out + simplified_from(
            h,
            i,
            (ScanV { out: Seq::empty(), ..st }),
        ),
    decreases h.len() - i,
{
    let none = Seq::<PieceV>::empty();
    let bare = ScanV { out: none, ..st };
    if i >= h.len() {
        assert(scan_flushed(st).out =~= st.out + scan_flushed(bare).out);
    } else if h[i] == '<' {
        lemma_index_shift(Seq::empty(), h, '>', i);
        assert(Seq::<char>::empty() + h =~= h);
        let end = text::index_of(h, '>', i);
        if i < end < h.len() {
            let t = h.subrange(i + 1, end);
            let a = after_tag(st, t);
            let b = after_tag(bare, t);
            lemma_after_tag_out(st, t);
            lemma_out(h, end + 1, a);
            lemma_out(h, end + 1, b);
            assert((ScanV { out: none, ..a }) == (ScanV { out: none, ..b }));
            let rest = simplified_from(h, end + 1, ScanV { out: none, ..a });
            assert((st.out + b.out) + rest =~= st.out + (b.out + rest));
        } else {
            lemma_out(h, i + 1, ScanV { run: st.run.push('<'), ..st });
        }
    } else if st.skip == 0 {
        lemma_out(h, i + 1, ScanV { run: st.run.push(h[i]), ..st });
    } else {
        lemma_out(h, i + 1, st);
    }
}

// --- text ---------------------------------------------------------------------------------

/// Text without tags is one piece, or none where it is blank.
pub proof fn text_is_one_piece(a: Seq<char>)
    requires
        !a.contains('<'),
    ensures
        simplified(a) == flushed(a, false),
        text::trim(decoded(a)).len() == 0 ==> simplified(a).len() == 0,
        text::trim(decoded(a)).len() > 0 ==> simplified(a) == seq![
            PieceV::Text(collapsed(text::trim(decoded(a)))),
        ],
{
    let none = Seq::<char>::empty();
    lemma_run(a, none, fresh_scan());
    assert(a + none =~= a);
    assert(none + a =~= a);
    assert(Seq::<PieceV>::empty() + flushed(a, false) =~= flushed(a, false));
}

/// Collapsing white space keeps every other character, in order.
pub proof fn collapsing_keeps_the_words(s: Seq<char>, i: int, out: Seq<char>, space: bool)
    requires
        0 <= i <= s.len(),
    ensures
        inked(collapsed_from(s, i, out, space))
            == inked(out) + inked(s.skip(i)),
    decreases s.len() - i,
{
    let none = Seq::<char>::empty();
    if i < s.len() {
        let c = seq![s[i]];
        let rest = s.skip(i + 1);
        assert(s.skip(i) =~= c + rest);
        lemma_inked_append(c, rest);
        assert(c.drop_last() =~= none);
        assert(inked(none) =~= none);
        assert(c.last() == s[i]);
        let next = if text::is_space(s[i]) {
            out
        } else if space && out.len() > 0 {
            out.push(' ').push(s[i])
        } else {
            out.push(s[i])
        };
        collapsing_keeps_the_words(s, i + 1, next, text::is_space(s[i]));
        if text::is_space(s[i]) {
            assert(inked(c) =~= none);
            assert(none + inked(rest) =~= inked(rest));
        } else {
            assert(inked(c) == none.push(s[i]));
            assert(none.push(s[i]) =~= c);
            assert(out.push(' ').drop_last() =~= out);
            assert(out.push(' ').push(s[i]).drop_last() =~= out.push(' '));
            assert(out.push(s[i]).drop_last() =~= out);
            assert(text::is_space(out.push(' ').last()));
            assert(inked(out.push(' ')) == inked(out));
            assert(next.last() == s[i]);
            assert(inked(next) == inked(out).push(s[i]));
            assert(inked(next) =~= inked(out) + c);
            assert(inked(out) + c + inked(rest)
                =~= inked(out) + (c + inked(rest)));
        }
    } else {
        assert(s.skip(i) =~= none);
        assert(inked(none) =~= none);
        assert(inked(out) + none =~= inked(out));
    }
}

// --- tags that count ------------------------------------------------------------------------

/// Text, a tag, and what follows.
proof fn lemma_text_then_tag(a: Seq<char>, t: Seq<char>, rest: Seq<char>)
    requires
        !a.contains('<'),
        !t.contains('>'),
    ensures
        simplified(a + tag_text(t) + rest) == simplified_from(
            rest,
            0,
            after_tag((ScanV { run: a, ..fresh_scan() }), t),
        ),
{
    assert(a + tag_text(t) + rest =~= a + (tag_text(t) + rest));
    lemma_run(a, tag_text(t) + rest, fresh_scan());
    assert(Seq::<char>::empty() + a =~= a);
    lemma_tag(t, rest, ScanV { run: a, ..fresh_scan() });
}

proof fn lemma_name(t: Seq<char>, k: int, n: int)
    requires
        0 <= k <= n <= t.len(),
        forall|i: int| 0 <= i < n ==> text::is_ascii_letter(#[trigger] t[i]),
        n < t.len() ==> t[n] == '/' || t[n] == ' ',
    ensures
        name_end(t, k) == n,
    decreases n - k,
{
    if k < n {
        assert(text::is_ascii_letter(t[k]));
        lemma_name(t, k + 1, n);
    }
}

/// The name of a tag that is written in small letters, alone or with a slash before it.
proof fn lemma_tag_name(name: Seq<char>)
    requires
        name.len() > 0,
        forall|i: int| 0 <= i < name.len() ==> 'a' <= #[trigger] name[i] <= 'z',
    ensures
        tag_name_of(name) == name,
        tag_name_of(seq!['/'] + name) == name,
        !name.contains('>'),
        !(seq!['/'] + name).contains('>'),
{
    assert(name[0] != '/');
    lemma_name(name, 0, name.len() as int);
    assert(name.subrange(0, name.len() as int) =~= name);
    assert(text::lower(name) =~= name);
    assert(text::trim_start_char(name, '/') == name);
    let closing = seq!['/'] + name;
    assert(closing.first() == '/');
    assert(closing.drop_first() =~= name);
    assert(text::trim_start_char(closing, '/') == name);
}

/// A line break ends the text before it, and what follows begins anew.
pub proof fn breaks_split_the_text(a: Seq<char>, rest: Seq<char>)
    requires
        !a.contains('<'),
    ensures
        simplified(a + tag_text("br"@) + rest) == simplified(a) + seq![PieceV::Break] + simplified(
            rest,
        ),
{
    reveal_strlit("br");
    let t = "br"@;
    lemma_tag_name(t);
    lemma_text_then_tag(a, t, rest);
    text_is_one_piece(a);
    lemma_distinct(t);
    let st = after_tag(ScanV { run: a, ..fresh_scan() }, t);
    let none = Seq::<PieceV>::empty();
    assert(none + flushed(a, false) =~= flushed(a, false));
    assert(st.out =~= simplified(a) + seq![PieceV::Break]);
    lemma_out(rest, 0, st);
    assert((ScanV { out: none, ..st }) == fresh_scan());
}

/// The names of the tags that count are not each other's.
proof fn lemma_distinct(t: Seq<char>)
    ensures
        t == "br"@ ==> t != "script"@ && t != "style"@,
        t == "img"@ ==> t != "script"@ && t != "style"@ && t != "br"@,
        t == "summary"@ ==> t != "script"@ && t != "style"@ && t != "br"@ && t != "img"@,
{
    reveal_strlit("br");
    reveal_strlit("img");
    reveal_strlit("script");
    reveal_strlit("style");
    reveal_strlit("summary");
    assert("script"@[1] == 'c' && "style"@[1] == 't' && "summary"@[1] == 'u' && "br"@[1] == 'r'
        && "img"@[1] == 'm');
}

/// The end of a paragraph, of an item, of a heading or of anything else that stands on
/// lines of its own ends the text as a line break does.
pub proof fn line_elements_end_the_text(a: Seq<char>, name: Seq<char>, rest: Seq<char>)
    requires
        !a.contains('<'),
        name == "p"@ || name == "div"@ || name == "li"@ || name == "tr"@ || name == "blockquote"@,
    ensures
        simplified(a + tag_text(seq!['/'] + name) + rest) == simplified(a) + seq![PieceV::Break]
            + simplified(rest),
{
    reveal_strlit("p");
    reveal_strlit("div");
    reveal_strlit("li");
    reveal_strlit("tr");
    reveal_strlit("blockquote");
    reveal_strlit("br");
    reveal_strlit("img");
    reveal_strlit("script");
    reveal_strlit("style");
    reveal_strlit("summary");
    assert(name.len() == 1 || name[1] != "br"@[1] || name.len() != 2 || name[0] != 'b');
    assert(name != "br"@ && name != "img"@ && name != "script"@ && name != "style"@ && name
        != "summary"@) by {
        assert("p"@.len() == 1 && "div"@[0] == 'd' && "li"@[0] == 'l' && "tr"@[0] == 't'
            && "blockquote"@.len() == 10);
        assert("br"@[0] == 'b' && "img"@[0] == 'i' && "script"@[0] == 's' && "style"@[0] == 's'
            && "summary"@[0] == 's');
    }
    let t = seq!['/'] + name;
    lemma_tag_name(name);
    lemma_text_then_tag(a, t, rest);
    text_is_one_piece(a);
    let st = after_tag(ScanV { run: a, ..fresh_scan() }, t);
    let none = Seq::<PieceV>::empty();
    assert(none + flushed(a, false) =~= flushed(a, false));
    assert(t[0] == '/');
    assert(is_line_element(name));
    assert(st.out =~= simplified(a) + seq![PieceV::Break]);
    lemma_out(rest, 0, st);
    assert((ScanV { out: none, ..st }) == fresh_scan());
}

/// A picture stands between the text before it and the text behind it. Its address, its
/// description and its title are those that the tag gives; one without an address is
/// nothing.
pub proof fn pictures_stand_in_the_text(a: Seq<char>, t: Seq<char>, rest: Seq<char>)
    requires
        !a.contains('<'),
        !t.contains('>'),
        tag_name_of(t) == "img"@,
        t.len() > 0,
        t[0] != '/',
    ensures
        simplified(a + tag_text(t) + rest) == simplified(a) + (match attr_from(t, "src"@, 0) {
            Some(url) => seq![
                PieceV::Image(
                    ImageRefV {
                        url,
                        alt: match attr_from(t, "alt"@, 0) {
                            Some(alt) => alt,
                            None => Seq::empty(),
                        },
                        title: attr_from(t, "title"@, 0),
                    },
                ),
            ],
            None => Seq::empty(),
        }) + simplified(rest),
{
    lemma_distinct(tag_name_of(t));
    lemma_text_then_tag(a, t, rest);
    text_is_one_piece(a);
    let st = after_tag(ScanV { run: a, ..fresh_scan() }, t);
    let none = Seq::<PieceV>::empty();
    assert(none + flushed(a, false) =~= flushed(a, false));
    lemma_out(rest, 0, st);
    assert((ScanV { out: none, ..st }) == fresh_scan());
}

/// A summary is kept apart from the text around it.
pub proof fn summaries_are_kept_apart(a: Seq<char>, x: Seq<char>, rest: Seq<char>)
    requires
        !a.contains('<'),
        !x.contains('<'),
    ensures
        simplified(
            a + tag_text("summary"@) + (x + tag_text(seq!['/'] + "summary"@) + rest),
        ) == simplified(a) + (if text::trim(decoded(x)).len() == 0 {
            Seq::empty()
        } else {
            seq![PieceV::Summary(text::trim(decoded(x)))]
        }) + simplified(rest),
{
    reveal_strlit("summary");
    let name = "summary"@;
    let t = seq!['/'] + name;
    let more = x + tag_text(t) + rest;
    lemma_tag_name(name);
    lemma_distinct(name);
    lemma_text_then_tag(a, name, more);
    text_is_one_piece(a);
    let none = Seq::<PieceV>::empty();
    let empty = Seq::<char>::empty();
    let begun = after_tag(ScanV { run: a, ..fresh_scan() }, name);
    assert(none + flushed(a, false) =~= flushed(a, false));
    assert(begun.out == simplified(a) && begun.summary && begun.skip == 0 && begun.run == empty);
    assert(more =~= x + (tag_text(t) + rest));
    lemma_run(x, tag_text(t) + rest, begun);
    assert(empty + x =~= x);
    let held = ScanV { run: x, ..begun };
    lemma_tag(t, rest, held);
    assert(t[0] == '/');
    let st = after_tag(held, t);
    assert(st.out == simplified(a) + flushed(x, true));
    lemma_out(rest, 0, st);
    assert((ScanV { out: none, ..st }) == fresh_scan());
}

/// What stands in a script or a style sheet is not read.
pub proof fn scripts_are_not_read(a: Seq<char>, name: Seq<char>, x: Seq<char>, rest: Seq<char>)
    requires
        !a.contains('<'),
        !x.contains('<'),
        name == "script"@ || name == "style"@,
    ensures
        simplified(a + tag_text(name) + (x + tag_text(seq!['/'] + name) + rest)) == simplified(
            a + rest,
        ),
{
    reveal_strlit("script");
    reveal_strlit("style");
    let t = seq!['/'] + name;
    let more = x + tag_text(t) + rest;
    lemma_tag_name(name);
    lemma_text_then_tag(a, name, more);
    let held = ScanV { run: a, ..fresh_scan() };
    assert(name[0] != '/' && name.last() != '/');
    let begun = after_tag(held, name);
    assert(begun == (ScanV { skip: 1, ..held }));
    assert(more =~= x + (tag_text(t) + rest));
    lemma_run(x, tag_text(t) + rest, begun);
    lemma_tag(t, rest, begun);
    assert(t[0] == '/');
    assert(after_tag(begun, t) == held);
    lemma_run(a, rest, fresh_scan());
    assert(Seq::<char>::empty() + a =~= a);
}

/// Any other tag is as if it were not there.
pub proof fn other_tags_are_not_there(a: Seq<char>, t: Seq<char>, rest: Seq<char>)
    requires
        !a.contains('<'),
        !t.contains('>'),
        tag_name_of(t) != "script"@,
        tag_name_of(t) != "style"@,
        tag_name_of(t) != "br"@,
        tag_name_of(t) != "img"@,
        tag_name_of(t) != "summary"@,
        !is_line_element(tag_name_of(t)) || t.len() == 0 || t[0] != '/',
    ensures
        simplified(a + tag_text(t) + rest) == simplified(a + rest),
{
    lemma_text_then_tag(a, t, rest);
    lemma_run(a, rest, fresh_scan());
    assert(Seq::<char>::empty() + a =~= a);
}

/// An attribute has the value between its quotes. The first place counts at which its
/// name stands.
pub proof fn attributes_have_their_values(
    x: Seq<char>,
    name: Seq<char>,
    v: Seq<char>,
    rest: Seq<char>,
)
    requires
        name.len() > 0,
        v.len() > 0,
        !v.contains('"'),
        ({
            let tag = x + seq![' '] + name + seq!['=', '"'] + v + seq!['"'] + rest;
            text::find_from(text::lower(tag), name, 0) == Some(x.len() as int + 1)
        }),
    ensures
        attr_from(x + seq![' '] + name + seq!['=', '"'] + v + seq!['"'] + rest, name, 0) == Some(
            decoded(v),
        ),
{
    let tag = x + seq![' '] + name + seq!['=', '"'] + v + seq!['"'] + rest;
    let at = x.len() as int + 1;
    let after = tag.subrange(at + name.len(), tag.len() as int);
    assert(tag[at - 1] == ' ');
    assert(after =~= seq!['=', '"'] + v + seq!['"'] + rest);
    assert(after.first() == '=');
    assert(text::trim_start(after) == after);
    let value = after.drop_first();
    assert(value =~= seq!['"'] + v + seq!['"'] + rest);
    assert(value.first() == '"');
    assert(text::trim_start(value) == value);
    let end: int = 1 + v.len() as int;
    assert(value[end] == '"');
    assert(value.subrange(1, end) =~= v);
    lemma_quote(value, v, 1);
    assert(attr_value(value) == v);
}

proof fn lemma_quote(value: Seq<char>, v: Seq<char>, from: int)
    requires
        1 <= from <= 1 + v.len(),
        1 + v.len() < value.len(),
        value.subrange(1, 1 + v.len() as int) == v,
        value[1 + v.len() as int] == '"',
        !v.contains('"'),
    ensures
        text::index_of(value, '"', from) == 1 + v.len(),
    decreases 1 + v.len() - from,
{
    if from < 1 + v.len() {
        assert(value.subrange(1, 1 + v.len() as int)[from - 1] == value[from]);
        assert(v.contains(v[from - 1]));
        lemma_quote(value, v, from + 1);
    }
}

// --- entities -------------------------------------------------------------------------------

proof fn lemma_semicolon_shift(p: Seq<char>, h: Seq<char>, k: int, room: int)
    requires
        0 <= k <= h.len(),
    ensures
        semicolon(p + h, p.len() + k, room) == (match semicolon(h, k, room) {
            Some(i) => Some(p.len() + i),
            None => None,
        }),
        semicolon(h, k, room) matches Some(i) ==> k <= i < h.len(),
    decreases h.len() - k,
{
    if k < h.len() {
        assert((p + h)[p.len() + k] == h[k]);
        if utf8_len(h[k]) <= room && h[k] != ';' {
            lemma_semicolon_shift(p, h, k + 1, room - utf8_len(h[k]));
        }
    }
}

proof fn lemma_decoded_shift(p: Seq<char>, h: Seq<char>, i: int)
    requires
        0 <= i <= h.len(),
    ensures
        decoded_from(p + h, p.len() + i) == decoded_from(h, i),
    decreases h.len() - i,
{
    if i < h.len() {
        assert((p + h)[p.len() + i] == h[i]);
        lemma_decoded_shift(p, h, i + 1);
        if h[i] == '&' {
            lemma_semicolon_shift(p, h, i, 12);
            assert(semicolon(h, i, 12) == semicolon(h, i + 1, 11));
            lemma_semicolon_shift(p, h, i + 1, 11);
            match semicolon(h, i, 12) {
                Some(semi) => {
                    assert((p + h).subrange(p.len() + i + 1, p.len() + semi) =~= h.subrange(
                        i + 1,
                        semi,
                    ));
                    lemma_decoded_shift(p, h, semi + 1);
                },
                None => {},
            }
        }
    }
}

/// Text without an ampersand is decoded as itself, whatever follows it.
pub proof fn plain_text_is_left_alone(a: Seq<char>, rest: Seq<char>)
    requires
        !a.contains('&'),
    ensures
        decoded(a + rest) == a + decoded(rest),
    decreases a.len(),
{
    if a.len() == 0 {
        assert(a + rest =~= rest);
        assert(a + decoded(rest) =~= decoded(rest));
    } else {
        let one = seq![a[0]];
        let more = a.skip(1);
        assert(a.contains(a[0]));
        assert(a + rest =~= one + (more + rest));
        assert((a + rest)[0] == a[0]);
        lemma_decoded_shift(one, more + rest, 0);
        assert(!more.contains('&')) by {
            if more.contains('&') {
                let i = choose|i: int| 0 <= i < more.len() && more[i] == '&';
                assert(a[i + 1] == '&');
            }
        }
        plain_text_is_left_alone(more, rest);
        assert(one + (more + decoded(rest)) =~= a + decoded(rest));
    }
}

proof fn lemma_decimal_value(n: nat)
    ensures
        text::positional(text::decimal(n), 10) == n,
        text::all_digits(text::decimal(n), 10),
        text::decimal(n).len() > 0,
        '0' <= text::decimal(n)[0] <= '9',
    decreases n,
{
    let s = text::decimal(n);
    if n >= 10 {
        lemma_decimal_value(n / 10);
        let d = text::decimal(n / 10);
        assert(s.drop_last() =~= d);
        assert(text::digit_value(s.last()) == n % 10);
        assert forall|i: int| 0 <= i < s.len() implies 0 <= text::digit_value(#[trigger] s[i])
            < 10 by {
            if i < d.len() {
                assert(s[i] == d[i]);
            }
        }
        assert(10 * (n / 10) + n % 10 == n);
        assert(s[0] == d[0]);
    } else {
        assert(s.drop_last() =~= Seq::empty());
        assert(text::positional(Seq::empty(), 10) == 0);
    }
}

proof fn lemma_decimal_len(n: nat)
    requires
        n < 10_000_000,
    ensures
        text::decimal(n).len() <= 7,
{
    reveal_with_fuel(text::decimal, 8);
}

proof fn lemma_semicolon_at(s: Seq<char>, k: int, at: int, room: int)
    requires
        0 <= k <= at < s.len(),
        s[at] == ';',
        forall|i: int| k <= i < at ==> (#[trigger] s[i]) as u32 <= 0x7f && s[i] != ';',
        room > at - k,
    ensures
        semicolon(s, k, room) == Some(at),
    decreases at - k,
{
    if k < at {
        assert(s[k] as u32 <= 0x7f && s[k] != ';');
        lemma_semicolon_at(s, k + 1, at, room - 1);
    }
}

/// A numbered entity is the character with its number.
pub proof fn numbered_entities_are_their_characters(a: Seq<char>, n: nat, rest: Seq<char>)
    requires
        !a.contains('&'),
        n <= 0xD7FF || 0xE000 <= n <= 0x10FFFF,
    ensures
        decoded(a + (seq!['&', '#'] + text::decimal(n) + seq![';'] + rest)) == a + (seq![n as char]
            + decoded(rest)),
{
    let d = text::decimal(n);
    let e = seq!['#'] + d;
    let m = seq!['&', '#'] + d + seq![';'];
    let h = m + rest;
    plain_text_is_left_alone(a, h);
    lemma_decimal_value(n);
    lemma_decimal_len(n);
    let at = m.len() - 1;
    assert(h[0] == '&' && h[at] == ';');
    assert forall|i: int| 0 <= i < at implies (#[trigger] h[i]) as u32 <= 0x7f && h[i] != ';' by {
        if i >= 2 {
            assert(h[i] == d[i - 2]);
            assert(0 <= text::digit_value(d[i - 2]) < 10);
        }
    }
    lemma_semicolon_at(h, 0, at, 12);
    assert(h.subrange(1, at) =~= e);
    reveal_strlit("amp");
    reveal_strlit("lt");
    reveal_strlit("gt");
    reveal_strlit("quot");
    reveal_strlit("apos");
    reveal_strlit("nbsp");
    reveal_strlit("hellip");
    reveal_strlit("mdash");
    reveal_strlit("ndash");
    reveal_strlit("#39");
    assert(e[0] == '#' && e[1] == d[0]);
    assert("amp"@[0] == 'a' && "lt"@[0] == 'l' && "gt"@[0] == 'g' && "quot"@[0] == 'q' && "apos"@[0]
        == 'a' && "nbsp"@[0] == 'n' && "hellip"@[0] == 'h' && "mdash"@[0] == 'm' && "ndash"@[0]
        == 'n');
    assert(e.subrange(1, e.len() as int) =~= d);
    assert(text::parse_number(d, 10, 0xffff_ffff) == Some(n as int));
    if e == "#39"@ {
        assert(d =~= seq!['3', '9']);
        reveal_with_fuel(text::positional, 3);
        assert(d.drop_last() =~= seq!['3']);
        assert(seq!['3'].drop_last() =~= Seq::empty());
        assert(n == 39);
        assert(39 as char == '\'');
    }
    assert(entity_char(e) == Some(n as char));
    lemma_decoded_shift(m, rest, 0);
    assert(decoded(h) =~= seq![n as char] + decoded(rest));
}

} // verus!
