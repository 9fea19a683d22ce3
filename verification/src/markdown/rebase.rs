//! Making a document's relative URLs absolute.
//!
//! Done once after parsing, which means later stages never need to know which file a
//! node came from -- and a document assembled from several files keeps each part's own
//! idea of where `./diagram.png` lives.
//!
//! The result is an absolute path or URL. That matters more than it looks: later
//! stages resolve paths too, and a relative result can be joined a second time against
//! a different base, quietly turning `doc/x.png` into `doc/doc/x.png`. An absolute
//! path cannot be re-based by accident.
use vstd::prelude::*;

use super::ir::{
    block_view, blocks_view, bodies_view, cells_view, definition_view, definitions_view,
    footnotes_view, inline_view, inlines_view, item_view, items_view, rows_view, Block, BlockV,
    Document, DocumentV, ImageRefV, Inline, InlineV, List, ListItem, ListItemV, ListV, Table,
    TableV,
};
use crate::text;

verus! {

/// What a document's relative URLs resolve against.
#[derive(Debug, PartialEq, Eq)]
pub enum UrlBase {
    /// A directory.
    Dir(String),
    /// The URL the document was fetched from.
    Url(String),
}

/// What a base is, as a value.
pub enum BaseV {
    Dir(Seq<char>),
    Url(Seq<char>),
}

impl View for UrlBase {
    type V = BaseV;

    open spec fn view(&self) -> BaseV {
        match *self {
            UrlBase::Dir(d) => BaseV::Dir(d@),
            UrlBase::Url(u) => BaseV::Url(u@),
        }
    }
}

/// A base that has been looked up: where relative URLs really start.
#[derive(Debug)]
pub enum Root {
    /// An absolute directory.
    Absolute(String),
    /// A directory that could not be made absolute.
    Relative(String),
    /// A directory that no URL can be written for: its path is not Unicode.
    Unwritable,
    /// The URL the document was fetched from.
    Url(String),
}

pub enum RootV {
    Absolute(Seq<char>),
    Relative(Seq<char>),
    Unwritable,
    Url(Seq<char>),
}

impl View for Root {
    type V = RootV;

    open spec fn view(&self) -> RootV {
        match *self {
            Root::Absolute(d) => RootV::Absolute(d@),
            Root::Relative(d) => RootV::Relative(d@),
            Root::Unwritable => RootV::Unwritable,
            Root::Url(u) => RootV::Url(u@),
        }
    }
}

// --- which URLs are relative ----------------------------------------------------

/// True of the characters that a URL scheme is made of.
pub open spec fn is_scheme_char(c: char) -> bool {
    text::is_ascii_alnum(c) || c == '+' || c == '-'
}

/// True of text that starts with a scheme and a colon.
pub open spec fn has_scheme(url: Seq<char>) -> bool {
    let i = text::index_of(url, ':', 0);
    0 < i < url.len() && forall|k: int| 0 <= k < i ==> is_scheme_char(#[trigger] url[k])
}

/// True of a URL that means the same wherever it stands: a fragment, or anything with
/// a scheme.
pub open spec fn stands_alone(url: Seq<char>) -> bool {
    url.len() == 0 || url[0] == '#' || text::starts_with(url, "data:"@) || text::contains(
        url,
        "://"@,
    ) || has_scheme(url)
}

fn char_is_scheme(c: char) -> (r: bool)
    ensures
        r == is_scheme_char(c),
{
    text::char_is_ascii_alnum(c) || c == '+' || c == '-'
}

fn names_scheme(v: &Vec<char>) -> (r: bool)
    ensures
        r == has_scheme(v@),
{
    let i = text::find_char(v, ':', 0);
    if !(0 < i && i < v.len()) {
        return false;
    }
    for k in 0..i
        invariant
            i < v.len(),
            i == text::index_of(v@, ':', 0),
            forall|j: int| 0 <= j < k ==> is_scheme_char(#[trigger] v@[j]),
    {
        if !char_is_scheme(v[k]) {
            assert(!is_scheme_char(v@[k as int]));
            return false;
        }
    }
    true
}

fn is_complete(url: &str) -> (r: bool)
    ensures
        r == stands_alone(url@),
{
    let v = text::chars_of(url);
    v.len() == 0 || v[0] == '#' || text::has_prefix(url, "data:") || text::has_sub(url, "://")
        || names_scheme(&v)
}

// --- paths ------------------------------------------------------------------------

/// `path` under `dir`.
pub open spec fn joined_path(dir: Seq<char>, path: Seq<char>) -> Seq<char> {
    if dir.len() == 0 || dir.last() == '/' {
        dir + path
    } else {
        dir + "/"@ + path
    }
}

/// The parts of a path that lead somewhere: neither empty nor a dot.
pub open spec fn real_parts(parts: Seq<Seq<char>>) -> Seq<Seq<char>>
    decreases parts.len(),
{
    if parts.len() == 0 {
        Seq::empty()
    } else if parts.last().len() == 0 || parts.last() == "."@ {
        real_parts(parts.drop_last())
    } else {
        real_parts(parts.drop_last()).push(parts.last())
    }
}

/// An absolute path with its doubled slashes and its dots taken out. `..` stays, for
/// only the file system knows where it leads, and so does a slash at the end. Two
/// slashes at the start, no more and no less, are kept too.
pub open spec fn normal_path(path: Seq<char>) -> Seq<char> {
    let body = text::join(real_parts(text::split(path, '/')), "/"@);
    (if text::starts_with(path, "//"@) && !text::starts_with(path, "///"@) {
        "//"@
    } else {
        "/"@
    }) + body + (if path.len() > 0 && path.last() == '/' && body.len() > 0 {
        "/"@
    } else {
        ""@
    })
}

fn join_path(dir: &str, path: &str) -> (r: String)
    ensures
        r@ == joined_path(dir@, path@),
{
    let v = text::chars_of(dir);
    let mut out = text::owned(dir);
    if !(v.len() == 0 || v[v.len() - 1] == '/') {
        out.push_str("/");
    }
    out.push_str(path);
    out
}

/// Takes the doubled slashes and the dots out of an absolute path.
pub fn normalize_path(path: &str) -> (r: String)
    ensures
        r@ == normal_path(path@),
{
    let parts = text::split_of(path, '/');
    let ghost v = text::views(parts@);
    let mut kept: Vec<String> = Vec::new();
    assert(v.take(0) =~= Seq::empty());
    assert(text::views(kept@) =~= Seq::empty());
    for i in 0..parts.len()
        invariant
            v == text::views(parts@),
            text::views(kept@) == real_parts(v.take(i as int)),
    {
        assert(v.take(i + 1).drop_last() =~= v.take(i as int));
        assert(v.take(i + 1).last() == parts@[i as int]@);
        if !(parts[i].as_str().is_empty() || text::same(&parts[i], ".")) {
            let ghost before = text::views(kept@);
            kept.push(parts[i].clone());
            assert(text::views(kept@) =~= before.push(v[i as int]));
        }
    }
    assert(v.take(parts@.len() as int) =~= v);
    let body = text::joined(&kept, "/");
    let chars = text::chars_of(path);
    let mut out = text::owned(
        if text::has_prefix(path, "//") && !text::has_prefix(path, "///") {
            "//"
        } else {
            "/"
        },
    );
    out.push_str(&body);
    out.push_str(
        if chars.len() > 0 && chars[chars.len() - 1] == '/' && !body.as_str().is_empty() {
            "/"
        } else {
            ""
        },
    );
    out
}

// --- URLs -------------------------------------------------------------------------

/// The first position in `i..` that holds one of the characters that end the part of a
/// URL before it, or its length.
pub open spec fn part_end(url: Seq<char>, i: int, slash: bool) -> int
    decreases url.len() - i,
{
    if i < 0 || i >= url.len() {
        url.len() as int
    } else if url[i] == '?' || url[i] == '#' || (slash && url[i] == '/') {
        i
    } else {
        part_end(url, i + 1, slash)
    }
}

/// Where the authority of an absolute URL starts.
pub open spec fn authority_start(url: Seq<char>) -> int {
    match text::find_from(url, "://"@, 0) {
        Some(i) => i + 3,
        None => 0,
    }
}

/// Scheme and authority.
pub open spec fn origin_end(url: Seq<char>) -> int {
    part_end(url, authority_start(url), true)
}

/// One step of resolving a path: dots lead nowhere, two dots lead up.
pub open spec fn step_into(stack: Seq<Seq<char>>, part: Seq<char>, last: bool) -> Seq<Seq<char>> {
    if part == "."@ || part == ".."@ {
        let up = if part == ".."@ && stack.len() > 0 {
            stack.drop_last()
        } else {
            stack
        };
        if last {
            up.push(""@)
        } else {
            up
        }
    } else {
        stack.push(part)
    }
}

/// The parts of a path from `k` on, resolved on top of `stack`.
pub open spec fn resolved_parts(parts: Seq<Seq<char>>, k: int, stack: Seq<Seq<char>>) -> Seq<
    Seq<char>,
>
    decreases parts.len() - k,
{
    if k < 0 || k >= parts.len() {
        stack
    } else {
        resolved_parts(parts, k + 1, step_into(stack, parts[k], k == parts.len() - 1))
    }
}

/// A URL path that starts with a slash, without dots.
pub open spec fn resolved_path(path: Seq<char>) -> Seq<char> {
    "/"@ + text::join(resolved_parts(text::split(path, '/'), 1, Seq::empty()), "/"@)
}

/// The position after the last slash in the first `n` characters, or 0.
pub open spec fn after_slash(s: Seq<char>, n: int) -> int
    decreases n,
{
    if n <= 0 {
        0
    } else if s[n - 1] == '/' {
        n
    } else {
        after_slash(s, n - 1)
    }
}

/// A relative reference, made absolute against the URL of the document it stands in.
pub open spec fn resolved_url(base: Seq<char>, url: Seq<char>) -> Seq<char> {
    let from = origin_end(base);
    let origin = base.subrange(0, from);
    let path = base.subrange(from, part_end(base, from, false));
    let cut = part_end(url, 0, false);
    let rest = url.subrange(cut, url.len() as int);
    if text::starts_with(url, "//"@) {
        base.subrange(0, text::index_of(base, ':', 0)) + ":"@ + url
    } else if text::starts_with(url, "/"@) {
        origin + resolved_path(url.subrange(0, cut)) + rest
    } else if cut == 0 {
        origin + (if path.len() == 0 {
            "/"@
        } else {
            path
        }) + rest
    } else {
        let dir = path.subrange(0, after_slash(path, path.len() as int));
        origin + resolved_path(
            (if dir.len() == 0 {
                "/"@
            } else {
                dir
            }) + url.subrange(0, cut),
        ) + rest
    }
}

pub(crate) fn find_part_end(v: &Vec<char>, from: usize, slash: bool) -> (r: usize)
    requires
        from <= v.len(),
    ensures
        r == part_end(v@, from as int, slash),
        from <= r <= v.len(),
{
    let mut i: usize = from;
    while i < v.len() && !(v[i] == '?' || v[i] == '#' || (slash && v[i] == '/'))
        invariant
            from <= i <= v.len(),
            part_end(v@, i as int, slash) == part_end(v@, from as int, slash),
        decreases v.len() - i,
    {
        i = i + 1;
    }
    i
}

fn resolve_path(path: &str) -> (r: String)
    ensures
        r@ == resolved_path(path@),
{
    let parts = text::split_of(path, '/');
    let ghost v = text::views(parts@);
    let n: usize = parts.len();
    let mut stack: Vec<String> = Vec::new();
    assert(text::views(stack@) =~= Seq::empty());
    let mut k: usize = 1;
    while k < n
        invariant
            n == parts.len(),
            v == text::views(parts@),
            1 <= k,
            resolved_parts(v, k as int, text::views(stack@)) == resolved_parts(
                v,
                1,
                Seq::empty(),
            ),
        decreases n - k,
    {
        assert(v[k as int] == parts@[k as int]@);
        let ghost before = text::views(stack@);
        let up = text::same(&parts[k], "..");
        if text::same(&parts[k], ".") || up {
            if up && stack.len() > 0 {
                stack.pop();
                assert(text::views(stack@) =~= before.drop_last());
            }
            if k + 1 == n {
                let ghost mid = text::views(stack@);
                stack.push(text::owned(""));
                assert(text::views(stack@) =~= mid.push(""@));
            }
        } else {
            stack.push(parts[k].clone());
            assert(text::views(stack@) =~= before.push(v[k as int]));
        }
        k = k + 1;
    }
    let mut out = text::owned("/");
    out.push_str(&text::joined(&stack, "/"));
    out
}

/// Makes a relative reference absolute against the URL of the document it stands in.
pub fn resolve_url(base: &str, url: &str) -> (r: String)
    ensures
        r@ == resolved_url(base@, url@),
{
    let b = text::chars_of(base);
    let u = text::chars_of(url);
    proof {
        reveal_strlit("://");
        text::lemma_find_from(base@, "://"@, 0);
    }
    let start: usize = match text::find_chars(&b, &text::chars_of("://"), 0) {
        Some(i) => i + 3,
        None => 0,
    };
    let from = find_part_end(&b, start, true);
    let path = text::chars_range(&b, from, find_part_end(&b, from, false));
    let cut = find_part_end(&u, 0, false);
    let rest = text::string_of_range(&u, cut, u.len());
    if text::has_prefix(url, "//") {
        let mut out = text::string_of_range(&b, 0, text::find_char(&b, ':', 0));
        out.push_str(":");
        out.push_str(url);
        return out;
    }
    let mut out = text::string_of_range(&b, 0, from);
    if text::has_prefix(url, "/") {
        out.push_str(&resolve_path(&text::string_of_range(&u, 0, cut)));
    } else if cut == 0 {
        if path.len() == 0 {
            out.push_str("/");
        } else {
            out.push_str(&text::string_of(&path));
        }
    } else {
        let mut n: usize = path.len();
        while n > 0 && path[n - 1] != '/'
            invariant
                n <= path.len(),
                after_slash(path@, n as int) == after_slash(path@, path@.len() as int),
            decreases n,
        {
            n = n - 1;
        }
        let mut full = if n == 0 {
            text::owned("/")
        } else {
            text::string_of_range(&path, 0, n)
        };
        full.push_str(&text::string_of_range(&u, 0, cut));
        out.push_str(&resolve_path(&full));
    }
    out.push_str(&rest);
    out
}

// --- one URL ------------------------------------------------------------------------

/// What becomes of a URL. Absolute URLs, fragments, and anything with a scheme stay as
/// they are.
pub open spec fn rebased(root: RootV, url: Seq<char>) -> Seq<char> {
    if stands_alone(url) {
        url
    } else {
        match root {
            RootV::Url(base) => resolved_url(base, url),
            RootV::Absolute(dir) => if url[0] == '/' {
                url
            } else {
                normal_path(joined_path(dir, url))
            },
            RootV::Relative(dir) => if url[0] == '/' {
                url
            } else {
                joined_path(dir, url)
            },
            RootV::Unwritable => url,
        }
    }
}

/// Resolves one relative URL against the document's base.
pub fn rebase_url(url: &str, root: &Root) -> (r: String)
    ensures
        r@ == rebased(root@, url@),
{
    if is_complete(url) {
        return text::owned(url);
    }
    let v = text::chars_of(url);
    match root {
        Root::Url(base) => resolve_url(base, url),
        Root::Absolute(dir) => {
            if v[0] == '/' {
                text::owned(url)
            } else {
                normalize_path(&join_path(dir, url))
            }
        },
        Root::Relative(dir) => {
            if v[0] == '/' {
                text::owned(url)
            } else {
                join_path(dir, url)
            }
        },
        Root::Unwritable => text::owned(url),
    }
}

// --- whole documents ------------------------------------------------------------------

pub open spec fn image_rebased(root: RootV, i: ImageRefV) -> ImageRefV {
    ImageRefV { url: rebased(root, i.url), ..i }
}

pub open spec fn inline_rebased(root: RootV, i: InlineV) -> InlineV
    decreases i,
{
    match i {
        InlineV::Image(img) => InlineV::Image(image_rebased(root, img)),
        InlineV::Link { dest, title, content } => InlineV::Link {
            dest: rebased(root, dest),
            title,
            content: inlines_rebased(root, content),
        },
        InlineV::Emph(c) => InlineV::Emph(inlines_rebased(root, c)),
        InlineV::Strong(c) => InlineV::Strong(inlines_rebased(root, c)),
        InlineV::Strike(c) => InlineV::Strike(inlines_rebased(root, c)),
        InlineV::Superscript(c) => InlineV::Superscript(inlines_rebased(root, c)),
        InlineV::Subscript(c) => InlineV::Subscript(inlines_rebased(root, c)),
        _ => i,
    }
}

pub open spec fn inlines_rebased(root: RootV, s: Seq<InlineV>) -> Seq<InlineV>
    decreases s,
{
    Seq::new(
        s.len(),
        |k: int|
            if 0 <= k < s.len() {
                inline_rebased(root, s[k])
            } else {
                arbitrary()
            },
    )
}

pub open spec fn cells_rebased(root: RootV, s: Seq<Seq<InlineV>>) -> Seq<Seq<InlineV>> {
    Seq::new(s.len(), |k: int| inlines_rebased(root, s[k]))
}

pub open spec fn rows_rebased(root: RootV, s: Seq<Seq<Seq<InlineV>>>) -> Seq<Seq<Seq<InlineV>>> {
    Seq::new(s.len(), |k: int| cells_rebased(root, s[k]))
}

pub open spec fn block_rebased(root: RootV, b: BlockV) -> BlockV
    decreases b,
{
    match b {
        BlockV::Heading { level, id, content } => BlockV::Heading {
            level,
            id,
            content: inlines_rebased(root, content),
        },
        BlockV::Paragraph(content) => BlockV::Paragraph(inlines_rebased(root, content)),
        BlockV::BlockQuote { kind, blocks } => BlockV::BlockQuote {
            kind,
            blocks: blocks_rebased(root, blocks),
        },
        BlockV::FootnoteDefinition { label, blocks } => BlockV::FootnoteDefinition {
            label,
            blocks: blocks_rebased(root, blocks),
        },
        BlockV::List(list) => BlockV::List(list_rebased(root, list)),
        BlockV::Table(t) => BlockV::Table(
            TableV {
                alignments: t.alignments,
                head: cells_rebased(root, t.head),
                rows: rows_rebased(root, t.rows),
            },
        ),
        BlockV::Figure { image, caption } => BlockV::Figure {
            image: image_rebased(root, image),
            caption: inlines_rebased(root, caption),
        },
        BlockV::DefinitionList(terms) => BlockV::DefinitionList(terms_rebased(root, terms)),
        BlockV::CodeBlock { .. } | BlockV::Rule | BlockV::Html(_) | BlockV::DisplayMath(_) => b,
    }
}

pub open spec fn blocks_rebased(root: RootV, s: Seq<BlockV>) -> Seq<BlockV>
    decreases s,
{
    Seq::new(
        s.len(),
        |k: int|
            if 0 <= k < s.len() {
                block_rebased(root, s[k])
            } else {
                arbitrary()
            },
    )
}

pub open spec fn list_rebased(root: RootV, l: ListV) -> ListV
    decreases l,
{
    ListV { start: l.start, tight: l.tight, items: items_rebased(root, l.items) }
}

pub open spec fn items_rebased(root: RootV, s: Seq<ListItemV>) -> Seq<ListItemV>
    decreases s,
{
    Seq::new(
        s.len(),
        |k: int|
            if 0 <= k < s.len() {
                item_rebased(root, s[k])
            } else {
                arbitrary()
            },
    )
}

pub open spec fn item_rebased(root: RootV, i: ListItemV) -> ListItemV
    decreases i,
{
    ListItemV { task: i.task, blocks: blocks_rebased(root, i.blocks) }
}

pub open spec fn bodies_rebased(root: RootV, s: Seq<Seq<BlockV>>) -> Seq<Seq<BlockV>>
    decreases s,
{
    Seq::new(
        s.len(),
        |k: int|
            if 0 <= k < s.len() {
                blocks_rebased(root, s[k])
            } else {
                arbitrary()
            },
    )
}

pub open spec fn term_rebased(root: RootV, t: (Seq<InlineV>, Seq<Seq<BlockV>>)) -> (
    Seq<InlineV>,
    Seq<Seq<BlockV>>,
)
    decreases t,
{
    (inlines_rebased(root, t.0), bodies_rebased(root, t.1))
}

pub open spec fn terms_rebased(root: RootV, s: Seq<(Seq<InlineV>, Seq<Seq<BlockV>>)>) -> Seq<
    (Seq<InlineV>, Seq<Seq<BlockV>>),
>
    decreases s,
{
    Seq::new(
        s.len(),
        |k: int|
            if 0 <= k < s.len() {
                term_rebased(root, s[k])
            } else {
                arbitrary()
            },
    )
}

/// A document with every relative URL in it made absolute.
pub open spec fn document_rebased(root: RootV, d: DocumentV) -> DocumentV {
    DocumentV {
        blocks: blocks_rebased(root, d.blocks),
        footnotes: Seq::new(
            d.footnotes.len(),
            |k: int| (d.footnotes[k].0, blocks_rebased(root, d.footnotes[k].1)),
        ),
        ..d
    }
}

fn rebase_text(url: &mut String, root: &Root)
    ensures
        final(url)@ == rebased(root@, old(url)@),
{
    let next = rebase_url(url, root);
    *url = next;
}

fn rebase_inlines(inlines: &mut Vec<Inline>, root: &Root)
    ensures
        inlines_view(*final(inlines)) == inlines_rebased(root@, inlines_view(*old(inlines))),
    decreases *old(inlines), 0int,
{
    let n: usize = inlines.len();
    let ghost before = *inlines;
    let ghost v = inlines_view(before);
    let ghost all = inlines_rebased(root@, v);
    for i in 0..n
        invariant
            n == inlines.len(),
            n == before@.len(),
            before == *old(inlines),
            v == inlines_view(before),
            all == inlines_rebased(root@, v),
            forall|k: int| 0 <= k < i ==> inline_view(#[trigger] inlines@[k]) == all[k],
            forall|k: int| i <= k < n ==> #[trigger] inlines@[k] == before@[k],
    {
        assert(v[i as int] == inline_view(before@[i as int]));
        assert(inlines@[i as int] == before@[i as int]);
        rebase_inline(&mut inlines[i], root);
        assert(inline_view(inlines@[i as int]) == all[i as int]);
    }
    assert(inlines_view(*inlines) =~= all);
}

fn rebase_inline(inline: &mut Inline, root: &Root)
    ensures
        inline_view(*final(inline)) == inline_rebased(root@, inline_view(*old(inline))),
    decreases *old(inline), 0int,
{
    match inline {
        Inline::Image(img) => rebase_text(&mut img.url, root),
        Inline::Link { dest, content, .. } => {
            rebase_text(dest, root);
            rebase_inlines(content, root);
        },
        Inline::Emph(c) => rebase_inlines(c, root),
        Inline::Strong(c) => rebase_inlines(c, root),
        Inline::Strike(c) => rebase_inlines(c, root),
        Inline::Superscript(c) => rebase_inlines(c, root),
        Inline::Subscript(c) => rebase_inlines(c, root),
        _ => {},
    }
}

fn rebase_cells(cells: &mut Vec<Vec<Inline>>, root: &Root)
    ensures
        cells_view(*final(cells)) == cells_rebased(root@, cells_view(*old(cells))),
{
    let n: usize = cells.len();
    let ghost before = *cells;
    let ghost all = cells_rebased(root@, cells_view(before));
    for i in 0..n
        invariant
            n == cells.len(),
            n == before@.len(),
            all == cells_rebased(root@, cells_view(before)),
            forall|k: int| 0 <= k < i ==> inlines_view(#[trigger] cells@[k]) == all[k],
            forall|k: int| i <= k < n ==> #[trigger] cells@[k] == before@[k],
    {
        assert(cells@[i as int] == before@[i as int]);
        rebase_inlines(&mut cells[i], root);
        assert(inlines_view(cells@[i as int]) == all[i as int]);
    }
    assert(cells_view(*cells) =~= all);
}

fn rebase_rows(rows: &mut Vec<Vec<Vec<Inline>>>, root: &Root)
    ensures
        rows_view(*final(rows)) == rows_rebased(root@, rows_view(*old(rows))),
{
    let n: usize = rows.len();
    let ghost before = *rows;
    let ghost all = rows_rebased(root@, rows_view(before));
    for i in 0..n
        invariant
            n == rows.len(),
            n == before@.len(),
            all == rows_rebased(root@, rows_view(before)),
            forall|k: int| 0 <= k < i ==> cells_view(#[trigger] rows@[k]) == all[k],
            forall|k: int| i <= k < n ==> #[trigger] rows@[k] == before@[k],
    {
        assert(rows@[i as int] == before@[i as int]);
        rebase_cells(&mut rows[i], root);
        assert(cells_view(rows@[i as int]) == all[i as int]);
    }
    assert(rows_view(*rows) =~= all);
}

fn rebase_blocks(blocks: &mut Vec<Block>, root: &Root)
    ensures
        blocks_view(*final(blocks)) == blocks_rebased(root@, blocks_view(*old(blocks))),
    decreases *old(blocks), 0int,
{
    let n: usize = blocks.len();
    let ghost before = *blocks;
    let ghost v = blocks_view(before);
    let ghost all = blocks_rebased(root@, v);
    for i in 0..n
        invariant
            n == blocks.len(),
            n == before@.len(),
            before == *old(blocks),
            v == blocks_view(before),
            all == blocks_rebased(root@, v),
            forall|k: int| 0 <= k < i ==> block_view(#[trigger] blocks@[k]) == all[k],
            forall|k: int| i <= k < n ==> #[trigger] blocks@[k] == before@[k],
    {
        assert(v[i as int] == block_view(before@[i as int]));
        assert(blocks@[i as int] == before@[i as int]);
        rebase_block(&mut blocks[i], root);
        assert(block_view(blocks@[i as int]) == all[i as int]);
    }
    assert(blocks_view(*blocks) =~= all);
}

fn rebase_items(items: &mut Vec<ListItem>, root: &Root)
    ensures
        items_view(*final(items)) == items_rebased(root@, items_view(*old(items))),
    decreases *old(items), 0int,
{
    let n: usize = items.len();
    let ghost before = *items;
    let ghost v = items_view(before);
    let ghost all = items_rebased(root@, v);
    for i in 0..n
        invariant
            n == items.len(),
            n == before@.len(),
            before == *old(items),
            v == items_view(before),
            all == items_rebased(root@, v),
            forall|k: int| 0 <= k < i ==> item_view(#[trigger] items@[k]) == all[k],
            forall|k: int| i <= k < n ==> #[trigger] items@[k] == before@[k],
    {
        assert(v[i as int] == item_view(before@[i as int]));
        assert(items@[i as int] == before@[i as int]);
        rebase_blocks(&mut items[i].blocks, root);
        assert(all[i as int] == item_rebased(root@, v[i as int]));
        assert(item_view(items@[i as int]) == all[i as int]);
    }
    assert(items_view(*items) =~= all);
}

fn rebase_bodies(bodies: &mut Vec<Vec<Block>>, root: &Root)
    ensures
        bodies_view(*final(bodies)) == bodies_rebased(root@, bodies_view(*old(bodies))),
    decreases *old(bodies), 0int,
{
    let n: usize = bodies.len();
    let ghost before = *bodies;
    let ghost v = bodies_view(before);
    let ghost all = bodies_rebased(root@, v);
    for i in 0..n
        invariant
            n == bodies.len(),
            n == before@.len(),
            before == *old(bodies),
            v == bodies_view(before),
            all == bodies_rebased(root@, v),
            forall|k: int| 0 <= k < i ==> blocks_view(#[trigger] bodies@[k]) == all[k],
            forall|k: int| i <= k < n ==> #[trigger] bodies@[k] == before@[k],
    {
        assert(v[i as int] == blocks_view(before@[i as int]));
        assert(bodies@[i as int] == before@[i as int]);
        rebase_blocks(&mut bodies[i], root);
        assert(blocks_view(bodies@[i as int]) == all[i as int]);
    }
    assert(bodies_view(*bodies) =~= all);
}

fn rebase_terms(terms: &mut Vec<(Vec<Inline>, Vec<Vec<Block>>)>, root: &Root)
    ensures
        definitions_view(*final(terms)) == terms_rebased(root@, definitions_view(*old(terms))),
    decreases *old(terms), 0int,
{
    let n: usize = terms.len();
    let ghost before = *terms;
    let ghost v = definitions_view(before);
    let ghost all = terms_rebased(root@, v);
    for i in 0..n
        invariant
            n == terms.len(),
            n == before@.len(),
            before == *old(terms),
            v == definitions_view(before),
            all == terms_rebased(root@, v),
            forall|k: int| 0 <= k < i ==> definition_view(#[trigger] terms@[k]) == all[k],
            forall|k: int| i <= k < n ==> #[trigger] terms@[k] == before@[k],
    {
        assert(v[i as int] == definition_view(before@[i as int]));
        assert(terms@[i as int] == before@[i as int]);
        rebase_inlines(&mut terms[i].0, root);
        rebase_bodies(&mut terms[i].1, root);
        assert(all[i as int] == term_rebased(root@, v[i as int]));
        assert(definition_view(terms@[i as int]) == all[i as int]);
    }
    assert(definitions_view(*terms) =~= all);
}

fn rebase_block(block: &mut Block, root: &Root)
    ensures
        block_view(*final(block)) == block_rebased(root@, block_view(*old(block))),
    decreases *old(block), 0int,
{
    match block {
        Block::Heading { content, .. } => rebase_inlines(content, root),
        Block::Paragraph(content) => rebase_inlines(content, root),
        Block::BlockQuote { blocks, .. } => rebase_blocks(blocks, root),
        Block::FootnoteDefinition { blocks, .. } => rebase_blocks(blocks, root),
        Block::List(list) => rebase_items(&mut list.items, root),
        Block::Table(table) => {
            rebase_cells(&mut table.head, root);
            rebase_rows(&mut table.rows, root);
        },
        Block::Figure { image, caption } => {
            rebase_text(&mut image.url, root);
            rebase_inlines(caption, root);
        },
        Block::DefinitionList(terms) => rebase_terms(terms, root),
        Block::CodeBlock { .. } => {},
        Block::Rule => {},
        Block::Html(_) => {},
        Block::DisplayMath(_) => {},
    }
}

/// Rewrites relative image and link URLs so that they start at `root`.
pub fn rebase_onto(doc: &mut Document, root: &Root)
    ensures
        final(doc)@ == document_rebased(root@, old(doc)@),
{
    let ghost start = *doc;
    rebase_blocks(&mut doc.blocks, root);
    let n: usize = doc.footnotes.len();
    let ghost all = document_rebased(root@, start@).footnotes;
    for i in 0..n
        invariant
            n == doc.footnotes.len(),
            n == start.footnotes@.len(),
            all == document_rebased(root@, start@).footnotes,
            blocks_view(doc.blocks) == blocks_rebased(root@, blocks_view(start.blocks)),
            doc.title == start.title,
            doc.front_matter == start.front_matter,
            forall|k: int|
                0 <= k < i ==> ((#[trigger] doc.footnotes@[k]).0@, blocks_view(doc.footnotes@[k].1))
                    == all[k],
            forall|k: int| i <= k < n ==> #[trigger] doc.footnotes@[k] == start.footnotes@[k],
    {
        assert(doc.footnotes@[i as int] == start.footnotes@[i as int]);
        rebase_blocks(&mut doc.footnotes[i].1, root);
    }
    assert(footnotes_view(doc.footnotes) =~= all);
}

/// The parts of a path that lead somewhere.
pub open spec fn path_parts(path: Seq<char>) -> Seq<Seq<char>> {
    real_parts(text::split(path, '/'))
}

/// True of an absolute path whose last parts are those of `path`.
pub open spec fn ends_at(absolute: Seq<char>, path: Seq<char>) -> bool {
    absolute.len() > 0 && absolute[0] == '/' && path_parts(path).is_suffix_of(
        path_parts(absolute),
    )
}

/// True of what can come of making a path absolute.
pub open spec fn made_absolute(path: Seq<char>, r: Option<Option<String>>) -> bool {
    if path.len() == 0 {
        r is None
    } else if path[0] == '/' {
        r matches Some(Some(s)) && s@ == normal_path(path)
    } else {
        r matches Some(Some(s)) ==> ends_at(s@, path)
    }
}

/// `std::path::absolute` on a POSIX system: a path made absolute without touching the
/// file system. Nothing comes back where it fails, as it does for an empty path and may
/// for want of a current directory, and `Some(None)` where the result is not Unicode. A
/// path that is absolute already is normalised; any other is appended to the current
/// directory, and which directory that is is left unsaid.
#[verifier::external_body]
fn absolute(path: &str) -> (r: Option<Option<String>>)
    ensures
        made_absolute(path@, r),
{
    Some(std::path::absolute(path).ok()?.to_str().map(String::from))
}

/// What `base` can stand for, once it has been looked up. A URL stands for itself and an
/// absolute directory for its normal form. A relative directory stands for an absolute
/// one that ends with it; where the current directory cannot be had it stands for
/// itself, and where that is not Unicode no URL can be written for it.
pub open spec fn stands_for(base: BaseV, root: RootV) -> bool {
    match base {
        BaseV::Url(url) => root == RootV::Url(url),
        BaseV::Dir(dir) => if dir.len() > 0 && dir[0] == '/' {
            root == RootV::Absolute(normal_path(dir))
        } else {
            match root {
                RootV::Absolute(d) => ends_at(d, dir),
                RootV::Relative(d) => d == dir,
                RootV::Unwritable => true,
                RootV::Url(_) => false,
            }
        },
    }
}

/// Neither an empty path nor a dot leads anywhere.
proof fn lemma_no_parts(empty: Seq<char>, dot: Seq<char>)
    requires
        empty.len() == 0,
        dot == "."@,
    ensures
        path_parts(empty) == path_parts(dot),
{
    reveal_strlit(".");
    reveal_with_fuel(text::split_from, 2);
    reveal_with_fuel(text::index_of, 2);
    assert(text::index_of(dot, '/', 0) == 1);
    assert(empty.subrange(0, 0) =~= empty);
    assert(dot.subrange(0, 1) =~= dot);
    assert(text::split(empty, '/') =~= seq![empty]);
    assert(text::split(dot, '/') =~= seq![dot]);
    assert(seq![empty].drop_last() =~= Seq::empty());
    assert(seq![dot].drop_last() =~= Seq::empty());
    reveal_with_fuel(real_parts, 2);
}

/// Looks a base up.
pub fn root_of(base: &UrlBase) -> (r: Root)
    ensures
        stands_for(base@, r@),
{
    match base {
        UrlBase::Url(url) => Root::Url(text::owned(url)),
        UrlBase::Dir(dir) => {
            let here = dir.as_str().is_empty();
            proof {
                reveal_strlit(".");
                if here {
                    lemma_no_parts(dir@, "."@);
                }
            }
            match absolute(
                if here {
                    "."
                } else {
                    dir
                },
            ) {
                Some(Some(path)) => Root::Absolute(path),
                Some(None) => Root::Unwritable,
                None => Root::Relative(text::owned(dir)),
            }
        },
    }
}

/// Rewrites relative image and link URLs so that they resolve against `base`.
pub fn rebase_urls(doc: &mut Document, base: &UrlBase)
    ensures
        exists|root: RootV| #[trigger]
            stands_for(base@, root) && final(doc)@ == document_rebased(root, old(doc)@),
{
    let root = root_of(base);
    rebase_onto(doc, &root);
    assert(stands_for(base@, root@));
}

// --- laws -------------------------------------------------------------------------------

/// A URL resolved against an absolute directory cannot be resolved a second time by
/// accident: whatever the second directory is, the result stays as it is.
pub proof fn rebasing_holds(root: RootV, other: RootV, url: Seq<char>)
    requires
        root is Absolute,
        !(other is Url),
    ensures
        rebased(other, rebased(root, url)) == rebased(root, url),
{
    reveal_strlit("/");
    reveal_strlit("//");
    if !stands_alone(url) && url[0] != '/' {
        let r = normal_path(joined_path(root->Absolute_0, url));
        assert(r[0] == '/');
    }
}

proof fn lemma_inline_twice(root: RootV, other: RootV, i: InlineV)
    requires
        root is Absolute,
        !(other is Url),
    ensures
        inline_rebased(other, inline_rebased(root, i)) == inline_rebased(root, i),
    decreases i,
{
    match i {
        InlineV::Image(img) => rebasing_holds(root, other, img.url),
        InlineV::Link { dest, title, content } => {
            rebasing_holds(root, other, dest);
            lemma_inlines_twice(root, other, content);
        },
        InlineV::Emph(c) => lemma_inlines_twice(root, other, c),
        InlineV::Strong(c) => lemma_inlines_twice(root, other, c),
        InlineV::Strike(c) => lemma_inlines_twice(root, other, c),
        InlineV::Superscript(c) => lemma_inlines_twice(root, other, c),
        InlineV::Subscript(c) => lemma_inlines_twice(root, other, c),
        _ => {},
    }
}

proof fn lemma_inlines_twice(root: RootV, other: RootV, s: Seq<InlineV>)
    requires
        root is Absolute,
        !(other is Url),
    ensures
        inlines_rebased(other, inlines_rebased(root, s)) == inlines_rebased(root, s),
    decreases s,
{
    let once = inlines_rebased(root, s);
    assert forall|k: int| 0 <= k < s.len() implies inline_rebased(other, #[trigger] once[k]) == once[k] by {
        lemma_inline_twice(root, other, s[k]);
    }
    assert(inlines_rebased(other, once) =~= once);
}

proof fn lemma_cells_twice(root: RootV, other: RootV, s: Seq<Seq<InlineV>>)
    requires
        root is Absolute,
        !(other is Url),
    ensures
        cells_rebased(other, cells_rebased(root, s)) == cells_rebased(root, s),
    decreases s,
{
    let once = cells_rebased(root, s);
    assert forall|k: int| 0 <= k < s.len() implies inlines_rebased(other, #[trigger] once[k]) == once[k] by {
        lemma_inlines_twice(root, other, s[k]);
    }
    assert(cells_rebased(other, once) =~= once);
}

proof fn lemma_rows_twice(root: RootV, other: RootV, s: Seq<Seq<Seq<InlineV>>>)
    requires
        root is Absolute,
        !(other is Url),
    ensures
        rows_rebased(other, rows_rebased(root, s)) == rows_rebased(root, s),
    decreases s,
{
    let once = rows_rebased(root, s);
    assert forall|k: int| 0 <= k < s.len() implies cells_rebased(other, #[trigger] once[k]) == once[k] by {
        lemma_cells_twice(root, other, s[k]);
    }
    assert(rows_rebased(other, once) =~= once);
}

proof fn lemma_block_twice(root: RootV, other: RootV, b: BlockV)
    requires
        root is Absolute,
        !(other is Url),
    ensures
        block_rebased(other, block_rebased(root, b)) == block_rebased(root, b),
    decreases b,
{
    match b {
        BlockV::Heading { level, id, content } => lemma_inlines_twice(root, other, content),
        BlockV::Paragraph(content) => lemma_inlines_twice(root, other, content),
        BlockV::BlockQuote { kind, blocks } => lemma_blocks_twice(root, other, blocks),
        BlockV::FootnoteDefinition { label, blocks } => lemma_blocks_twice(root, other, blocks),
        BlockV::List(list) => lemma_items_twice(root, other, list.items),
        BlockV::Table(t) => {
            lemma_cells_twice(root, other, t.head);
            lemma_rows_twice(root, other, t.rows);
        },
        BlockV::Figure { image, caption } => {
            rebasing_holds(root, other, image.url);
            lemma_inlines_twice(root, other, caption);
        },
        BlockV::DefinitionList(terms) => lemma_terms_twice(root, other, terms),
        _ => {},
    }
}

proof fn lemma_blocks_twice(root: RootV, other: RootV, s: Seq<BlockV>)
    requires
        root is Absolute,
        !(other is Url),
    ensures
        blocks_rebased(other, blocks_rebased(root, s)) == blocks_rebased(root, s),
    decreases s,
{
    let once = blocks_rebased(root, s);
    assert forall|k: int| 0 <= k < s.len() implies block_rebased(other, #[trigger] once[k]) == once[k] by {
        lemma_block_twice(root, other, s[k]);
    }
    assert(blocks_rebased(other, once) =~= once);
}

proof fn lemma_item_twice(root: RootV, other: RootV, i: ListItemV)
    requires
        root is Absolute,
        !(other is Url),
    ensures
        item_rebased(other, item_rebased(root, i)) == item_rebased(root, i),
    decreases i,
{
    lemma_blocks_twice(root, other, i.blocks);
}

proof fn lemma_items_twice(root: RootV, other: RootV, s: Seq<ListItemV>)
    requires
        root is Absolute,
        !(other is Url),
    ensures
        items_rebased(other, items_rebased(root, s)) == items_rebased(root, s),
    decreases s,
{
    let once = items_rebased(root, s);
    assert forall|k: int| 0 <= k < s.len() implies item_rebased(other, #[trigger] once[k]) == once[k] by {
        lemma_item_twice(root, other, s[k]);
    }
    assert(items_rebased(other, once) =~= once);
}

proof fn lemma_bodies_twice(root: RootV, other: RootV, s: Seq<Seq<BlockV>>)
    requires
        root is Absolute,
        !(other is Url),
    ensures
        bodies_rebased(other, bodies_rebased(root, s)) == bodies_rebased(root, s),
    decreases s,
{
    let once = bodies_rebased(root, s);
    assert forall|k: int| 0 <= k < s.len() implies blocks_rebased(other, #[trigger] once[k]) == once[k] by {
        lemma_blocks_twice(root, other, s[k]);
    }
    assert(bodies_rebased(other, once) =~= once);
}

proof fn lemma_term_twice(
    root: RootV,
    other: RootV,
    t: (Seq<InlineV>, Seq<Seq<BlockV>>),
)
    requires
        root is Absolute,
        !(other is Url),
    ensures
        term_rebased(other, term_rebased(root, t)) == term_rebased(root, t),
    decreases t,
{
    lemma_inlines_twice(root, other, t.0);
    lemma_bodies_twice(root, other, t.1);
}

proof fn lemma_terms_twice(root: RootV, other: RootV, s: Seq<(Seq<InlineV>, Seq<Seq<BlockV>>)>)
    requires
        root is Absolute,
        !(other is Url),
    ensures
        terms_rebased(other, terms_rebased(root, s)) == terms_rebased(root, s),
    decreases s,
{
    let once = terms_rebased(root, s);
    assert forall|k: int| 0 <= k < s.len() implies term_rebased(other, #[trigger] once[k]) == once[k] by {
        lemma_term_twice(root, other, s[k]);
    }
    assert(terms_rebased(other, once) =~= once);
}

/// A document whose URLs were resolved against an absolute directory stays as it is
/// when they are resolved against any other directory.
pub proof fn documents_are_rebased_once(root: RootV, other: RootV, d: DocumentV)
    requires
        root is Absolute,
        !(other is Url),
    ensures
        document_rebased(other, document_rebased(root, d)) == document_rebased(root, d),
{
    let once = document_rebased(root, d);
    lemma_blocks_twice(root, other, d.blocks);
    assert forall|k: int| 0 <= k < d.footnotes.len() implies blocks_rebased(
        other,
        (#[trigger] once.footnotes[k]).1,
    ) == once.footnotes[k].1 by {
        lemma_blocks_twice(root, other, d.footnotes[k].1);
    }
    assert(document_rebased(other, once).footnotes =~= once.footnotes);
}

/// An absolute URL, a fragment, or anything with a scheme stays as it is, whatever the
/// base.
pub proof fn complete_urls_stay(root: RootV, url: Seq<char>)
    requires
        stands_alone(url),
    ensures
        rebased(root, url) == url,
{
}

/// A relative URL in a fetched document stays on the origin that the document came
/// from, unless it names a host itself.
pub proof fn fetched_links_stay_on_the_origin(base: Seq<char>, url: Seq<char>)
    requires
        !stands_alone(url),
        !text::starts_with(url, "//"@),
    ensures
        rebased(RootV::Url(base), url).len() >= origin_end(base),
        rebased(RootV::Url(base), url).subrange(0, origin_end(base)) == base.subrange(
            0,
            origin_end(base),
        ),
{
    reveal_strlit("://");
    text::lemma_find_from(base, "://"@, 0);
    lemma_part_end(base, authority_start(base), true);
    let r = rebased(RootV::Url(base), url);
    let origin = base.subrange(0, origin_end(base));
    assert(r.subrange(0, origin_end(base)) =~= origin);
}

proof fn lemma_part_end(url: Seq<char>, i: int, slash: bool)
    requires
        0 <= i <= url.len(),
    ensures
        i <= part_end(url, i, slash) <= url.len(),
    decreases url.len() - i,
{
    if i < url.len() {
        lemma_part_end(url, i + 1, slash);
    }
}

} // verus!
