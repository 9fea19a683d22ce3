//! What was named on the command line: files, directories, URLs and standard input,
//! and merging several of them into one page.
//!
//! Nothing here reads anything. Paths are text with `/` between their parts, and what
//! the file system said comes in as values.
use vstd::prelude::*;
use vstd::utf8::{decode_utf8, valid_utf8};

use crate::codec::{from_utf8_lossy, utf8_lossy};
use crate::markdown::events::cmark_events;
use crate::markdown::ir::{
    block_view, blocks_view, footnotes_view, inlines_view, opt_text, Block, BlockV, Document,
    DocumentV, Inline, InlineV,
};
use crate::markdown::parse::{document_of, parse, ParseOptions};
use crate::markdown::rebase::{
    after_slash, document_rebased, real_parts, rebase_onto, root_of, stands_for, BaseV, RootV,
    UrlBase,
};
use crate::markdown::slug::{slug_base, slug_given, slug_seen, Seen, Slugger};
use crate::text;

verus! {

/// A directory listing stops here. Long before this it has stopped being a document
/// and started being a list of files.
pub const MAX_INDEX_ENTRIES: usize = 500;

/// How far down to look for Markdown before deciding a directory has none. Deep enough
/// for a tree of documents, shallow enough to be quick about it.
pub const HOLDS_MARKDOWN_DEPTH: usize = 8;

/// Where a document came from, and how to read it again.
#[derive(Debug, PartialEq, Eq)]
pub enum Origin {
    /// A file, which can be read again and watched.
    File(String),
    /// A directory, whose Markdown is listed as a generated index.
    Directory(String),
    /// Fetched over HTTP.
    Url(String),
    /// Standard input, which is gone once it has been read.
    Stdin,
}

/// One input document, with enough context to read it again later.
#[derive(Debug, PartialEq, Eq)]
pub struct Source {
    pub origin: Origin,
    pub name: String,
    pub text: String,
}

pub enum OriginV {
    File(Seq<char>),
    Directory(Seq<char>),
    Url(Seq<char>),
    Stdin,
}

impl View for Origin {
    type V = OriginV;

    open spec fn view(&self) -> OriginV {
        match *self {
            Origin::File(p) => OriginV::File(p@),
            Origin::Directory(p) => OriginV::Directory(p@),
            Origin::Url(u) => OriginV::Url(u@),
            Origin::Stdin => OriginV::Stdin,
        }
    }
}

pub struct SourceV {
    pub origin: OriginV,
    pub name: Seq<char>,
    pub text: Seq<char>,
}

impl View for Source {
    type V = SourceV;

    open spec fn view(&self) -> SourceV {
        SourceV { origin: self.origin@, name: self.name@, text: self.text@ }
    }
}

// --- paths ---------------------------------------------------------------------

/// The last part of a path, unless that leads up.
pub open spec fn file_part(path: Seq<char>) -> Option<Seq<char>> {
    let parts = real_parts(text::split(path, '/'));
    if parts.len() > 0 && parts.last() != ".."@ {
        Some(parts.last())
    } else {
        None
    }
}

/// The first position after `n` characters from the right that follows a dot, or 0.
pub open spec fn after_dot(s: Seq<char>, n: int) -> int
    decreases n,
{
    if n <= 0 {
        0
    } else if s[n - 1] == '.' {
        n
    } else {
        after_dot(s, n - 1)
    }
}

/// What follows the last dot of a file's name. A name's own first dot makes it hidden
/// and starts no extension.
pub open spec fn extension_of(path: Seq<char>) -> Option<Seq<char>> {
    match file_part(path) {
        None => None,
        Some(name) => {
            let i = after_dot(name, name.len() as int);
            if i <= 1 {
                None
            } else {
                Some(name.subrange(i, name.len() as int))
            }
        },
    }
}

/// A path without the slashes and the single dots at its end.
pub open spec fn tail_trimmed(s: Seq<char>) -> Seq<char>
    decreases s.len(),
{
    if s.len() > 1 && (s.last() == '/' || (s.last() == '.' && s[s.len() - 2] == '/')) {
        tail_trimmed(s.drop_last())
    } else {
        s
    }
}

/// The directory that a path's last part stands in; the working directory for a bare
/// name.
pub open spec fn parent_dir(path: Seq<char>) -> Seq<char> {
    let t = tail_trimmed(path);
    let i = after_slash(t, t.len() as int);
    if t.len() == 0 || t == "/"@ || i == 0 {
        "."@
    } else {
        tail_trimmed(t.subrange(0, i))
    }
}

/// The last part of a path, or nothing at all.
pub open spec fn name_of(path: Seq<char>) -> Seq<char> {
    match file_part(path) {
        Some(name) => name,
        None => ""@,
    }
}

fn last_part(path: &str) -> (r: Option<String>)
    ensures
        opt_text(r) == file_part(path@),
{
    let parts = text::split_of(path, '/');
    let ghost v = text::views(parts@);
    let mut k: usize = parts.len();
    assert(v.take(k as int) =~= v);
    while k > 0 && (parts[k - 1].as_str().is_empty() || text::same(&parts[k - 1], "."))
        invariant
            k <= parts.len(),
            v == text::views(parts@),
            real_parts(v.take(k as int)) == real_parts(v),
        decreases k,
    {
        assert(v.take(k as int).drop_last() =~= v.take(k - 1));
        assert(v.take(k as int).last() == parts@[k - 1]@);
        k = k - 1;
    }
    if k == 0 {
        assert(v.take(0) =~= Seq::empty());
        return None;
    }
    assert(v.take(k as int).last() == parts@[k - 1]@);
    if text::same(&parts[k - 1], "..") {
        None
    } else {
        Some(parts[k - 1].clone())
    }
}

/// The last part of a path, or an empty name where it has none.
pub fn file_name(path: &str) -> (r: String)
    ensures
        r@ == name_of(path@),
{
    match last_part(path) {
        Some(name) => name,
        None => text::owned(""),
    }
}

fn extension(path: &str) -> (r: Option<String>)
    ensures
        opt_text(r) == extension_of(path@),
{
    match last_part(path) {
        None => None,
        Some(name) => {
            let v = text::chars_of(&name);
            let mut n: usize = v.len();
            while n > 0 && v[n - 1] != '.'
                invariant
                    n <= v.len(),
                    after_dot(v@, n as int) == after_dot(v@, v@.len() as int),
                decreases n,
            {
                n = n - 1;
            }
            if n <= 1 {
                None
            } else {
                Some(text::string_of_range(&v, n, v.len()))
            }
        },
    }
}

pub(crate) fn trim_tail(v: &Vec<char>, from: usize) -> (r: usize)
    requires
        from <= v.len(),
    ensures
        r <= from,
        v@.subrange(0, r as int) == tail_trimmed(v@.subrange(0, from as int)),
{
    let mut n: usize = from;
    while n > 1 && (v[n - 1] == '/' || (v[n - 1] == '.' && v[n - 2] == '/'))
        invariant
            n <= from <= v.len(),
            tail_trimmed(v@.subrange(0, n as int)) == tail_trimmed(v@.subrange(0, from as int)),
        decreases n,
    {
        assert(v@.subrange(0, n as int).drop_last() =~= v@.subrange(0, n - 1));
        n = n - 1;
    }
    n
}

fn dir_of(path: &str) -> (r: String)
    ensures
        r@ == parent_dir(path@),
{
    let v = text::chars_of(path);
    assert(v@.subrange(0, v@.len() as int) =~= v@);
    let t = trim_tail(&v, v.len());
    let ghost kept = v@.subrange(0, t as int);
    if t == 0 {
        return text::owned(".");
    }
    let mut n: usize = t;
    while n > 0 && v[n - 1] != '/'
        invariant
            n <= t <= v.len(),
            kept == v@.subrange(0, t as int),
            after_slash(kept, n as int) == after_slash(kept, t as int),
        decreases n,
    {
        n = n - 1;
    }
    proof {
        reveal_strlit("/");
    }
    if n == 0 {
        return text::owned(".");
    }
    if t == 1 {
        assert(kept =~= "/"@);
        return text::owned(".");
    }
    assert(kept.subrange(0, n as int) =~= v@.subrange(0, n as int));
    let d = trim_tail(&v, n);
    text::string_of_range(&v, 0, d)
}

/// The extensions of Markdown files.
pub open spec fn markdown_extension(e: Seq<char>) -> bool {
    e == "md"@ || e == "markdown"@ || e == "mdown"@ || e == "mkd"@ || e == "mdx"@
}

/// True of a path that names something to render as Markdown, in any case of letters.
pub open spec fn names_markdown(path: Seq<char>) -> bool {
    match extension_of(path) {
        Some(e) => markdown_extension(text::lower(e)),
        None => false,
    }
}

/// Whether a path names something that is rendered as Markdown.
pub fn is_markdown(path: &str) -> (r: bool)
    ensures
        r == names_markdown(path@),
{
    match extension(path) {
        None => false,
        Some(e) => {
            let e = text::string_of(&text::lowered(&text::chars_of(&e)));
            text::same(&e, "md") || text::same(&e, "markdown") || text::same(&e, "mdown")
                || text::same(&e, "mkd") || text::same(&e, "mdx")
        },
    }
}

// --- where a document comes from ---------------------------------------------------

/// True of what can be fetched.
pub open spec fn is_url(name: Seq<char>) -> bool {
    text::starts_with(name, "http://"@) || text::starts_with(name, "https://"@)
}

/// The argument as an HTTP URL, if that is what it is.
///
/// Only http and https: a `file:` URL is a path by another name and is left to the
/// file reader, and nothing else is something that could be fetched.
pub fn as_url(name: &str) -> (r: Option<String>)
    ensures
        opt_text(r) == (if is_url(name@) {
            Some(name@)
        } else {
            None
        }),
{
    if text::has_prefix(name, "http://") || text::has_prefix(name, "https://") {
        Some(text::owned(name))
    } else {
        None
    }
}

/// What an argument names, given whether it is a directory.
pub open spec fn origin_named(name: Seq<char>, is_dir: bool) -> OriginV {
    if name == "-"@ {
        OriginV::Stdin
    } else if is_url(name) {
        OriginV::Url(name)
    } else if is_dir {
        OriginV::Directory(name)
    } else {
        OriginV::File(name)
    }
}

/// What an argument names: `-`, a URL, a directory or a file.
pub fn origin_of(name: &str, is_dir: bool) -> (r: Origin)
    ensures
        r@ == origin_named(name@, is_dir),
{
    if text::same(name, "-") {
        return Origin::Stdin;
    }
    match as_url(name) {
        Some(url) => Origin::Url(url),
        None => if is_dir {
            Origin::Directory(text::owned(name))
        } else {
            Origin::File(text::owned(name))
        },
    }
}

/// What a document is called.
pub open spec fn title_from(origin: OriginV) -> Seq<char> {
    match origin {
        OriginV::File(path) => path,
        OriginV::Directory(path) => text::trim_end_char(path, '/') + "/"@,
        OriginV::Url(url) => url,
        OriginV::Stdin => "<stdin>"@,
    }
}

fn without_slashes(path: &str) -> (r: String)
    ensures
        r@ == text::trim_end_char(path@, '/'),
{
    let v = text::chars_of(path);
    assert(v@.subrange(0, v@.len() as int) =~= v@);
    let n = text::skip_char_back(&v, 0, v.len(), '/');
    text::string_of_range(&v, 0, n)
}

/// What the relative URLs of a document from `origin` resolve against.
pub open spec fn base_from(origin: OriginV) -> BaseV {
    match origin {
        OriginV::File(path) => BaseV::Dir(parent_dir(path)),
        OriginV::Directory(path) => BaseV::Dir(path),
        OriginV::Url(url) => BaseV::Url(url),
        OriginV::Stdin => BaseV::Dir("."@),
    }
}

/// The path of an origin that has one.
pub open spec fn path_from(origin: OriginV) -> Option<Seq<char>> {
    match origin {
        OriginV::File(path) => Some(path),
        OriginV::Directory(path) => Some(path),
        _ => None,
    }
}

impl Source {
    /// A source read from a file at `path`.
    pub fn file(path: String, text: String) -> (r: Source)
        ensures
            r@ == (SourceV { origin: OriginV::File(path@), name: path@, text: text@ }),
    {
        Source { name: path.clone(), origin: Origin::File(path), text }
    }

    /// A source that is known but not yet read.
    pub fn pending(origin: Origin) -> (r: Source)
        ensures
            r@ == (SourceV { origin: origin@, name: title_from(origin@), text: ""@ }),
    {
        let name = match &origin {
            Origin::File(path) => text::owned(path),
            Origin::Directory(path) => {
                let mut name = without_slashes(path);
                name.push_str("/");
                name
            },
            Origin::Url(url) => text::owned(url),
            Origin::Stdin => text::owned("<stdin>"),
        };
        Source { origin, name, text: text::owned("") }
    }

    /// The path this came from, when it came from one.
    pub fn path(&self) -> (r: Option<&str>)
        ensures
            (match r {
                Some(p) => Some(p@),
                None => None,
            }) == path_from(self@.origin),
    {
        match &self.origin {
            Origin::File(path) => Some(path.as_str()),
            Origin::Directory(path) => Some(path.as_str()),
            _ => None,
        }
    }

    /// What this document's relative URLs resolve against.
    pub fn base(&self) -> (r: UrlBase)
        ensures
            r@ == base_from(self@.origin),
    {
        match &self.origin {
            Origin::File(path) => UrlBase::Dir(dir_of(path)),
            Origin::Directory(path) => UrlBase::Dir(text::owned(path)),
            Origin::Url(url) => UrlBase::Url(text::owned(url)),
            Origin::Stdin => UrlBase::Dir(text::owned(".")),
        }
    }

    /// The directory to resolve a local path against.
    ///
    /// A remote document has none, and answers with the working directory: its own
    /// relative URLs have already been resolved into absolute ones, so nothing should
    /// be joining paths onto it any more.
    pub fn base_dir(&self) -> (r: String)
        ensures
            r@ == (match base_from(self@.origin) {
                BaseV::Dir(dir) => dir,
                BaseV::Url(_) => "."@,
            }),
    {
        match self.base() {
            UrlBase::Dir(dir) => dir,
            UrlBase::Url(_) => text::owned("."),
        }
    }
}

/// The values of a run of sources.
pub open spec fn source_views(s: Seq<Source>) -> Seq<SourceV> {
    Seq::new(s.len(), |k: int| s[k]@)
}

/// The paths among some sources.
pub open spec fn paths_among(s: Seq<SourceV>) -> Seq<Seq<char>>
    decreases s.len(),
{
    if s.len() == 0 {
        Seq::empty()
    } else {
        match path_from(s.last().origin) {
            Some(p) => paths_among(s.drop_last()).push(p),
            None => paths_among(s.drop_last()),
        }
    }
}

/// The paths that can be watched for changes. A directory counts: its index changes
/// when a file appears in it.
pub fn watchable_paths(sources: &[Source]) -> (r: Vec<String>)
    ensures
        text::views(r@) == paths_among(source_views(sources@)),
{
    let ghost all = source_views(sources@);
    let mut out: Vec<String> = Vec::new();
    assert(all.take(0) =~= Seq::empty());
    assert(text::views(out@) =~= Seq::empty());
    for i in 0..sources.len()
        invariant
            all == source_views(sources@),
            text::views(out@) == paths_among(all.take(i as int)),
    {
        assert(all.take(i + 1).drop_last() =~= all.take(i as int));
        assert(all.take(i + 1).last() == sources@[i as int]@);
        let ghost before = text::views(out@);
        match sources[i].path() {
            Some(path) => {
                out.push(text::owned(path));
                assert(text::views(out@) =~= before.push(path@));
            },
            None => {},
        }
    }
    assert(all.take(sources@.len() as int) =~= all);
    out
}

/// The URLs among some sources, each with the text it holds.
pub open spec fn urls_among(s: Seq<SourceV>) -> Seq<(Seq<char>, Seq<char>)>
    decreases s.len(),
{
    if s.len() == 0 {
        Seq::empty()
    } else {
        match s.last().origin {
            OriginV::Url(url) => urls_among(s.drop_last()).push((url, s.last().text)),
            _ => urls_among(s.drop_last()),
        }
    }
}

pub open spec fn pair_views(v: Seq<(String, String)>) -> Seq<(Seq<char>, Seq<char>)> {
    Seq::new(v.len(), |k: int| (v[k].0@, v[k].1@))
}

/// The URLs among `sources`, each with the text it holds now.
///
/// Nothing on the far side of a URL will tell when it changes, so a watcher has to
/// fetch it again and compare, and this is what it compares against.
pub fn watchable_urls(sources: &[Source]) -> (r: Vec<(String, String)>)
    ensures
        pair_views(r@) == urls_among(source_views(sources@)),
{
    let ghost all = source_views(sources@);
    let mut out: Vec<(String, String)> = Vec::new();
    assert(all.take(0) =~= Seq::empty());
    assert(pair_views(out@) =~= Seq::empty());
    for i in 0..sources.len()
        invariant
            all == source_views(sources@),
            pair_views(out@) == urls_among(all.take(i as int)),
    {
        assert(all.take(i + 1).drop_last() =~= all.take(i as int));
        assert(all.take(i + 1).last() == sources@[i as int]@);
        let ghost before = pair_views(out@);
        match &sources[i].origin {
            Origin::Url(url) => {
                out.push((text::owned(url), text::owned(&sources[i].text)));
                assert(pair_views(out@) =~= before.push((url@, sources@[i as int].text@)));
            },
            _ => {},
        }
    }
    assert(all.take(sources@.len() as int) =~= all);
    out
}

// --- the index of a directory ---------------------------------------------------------

/// True where `a` sorts before `b` from position `i` on, character by character.
pub open spec fn text_before(a: Seq<char>, b: Seq<char>, i: int) -> bool
    decreases a.len() - i,
{
    if i >= b.len() {
        false
    } else if i >= a.len() {
        true
    } else if a[i] != b[i] {
        a[i] < b[i]
    } else {
        text_before(a, b, i + 1)
    }
}

/// True of the name of a file that introduces its directory.
pub open spec fn is_readme(name: Seq<char>) -> bool {
    text::starts_with(text::lower(name), "readme."@)
}

/// True where `a` comes before `b` in an index: README first where that is asked for,
/// then by name, case last so that `A.md` and `a.md` do not swap places between runs.
pub open spec fn listed_before(a: Seq<char>, b: Seq<char>, readme_first: bool) -> bool {
    let ra = readme_first && is_readme(a);
    let rb = readme_first && is_readme(b);
    if ra != rb {
        ra
    } else if text::lower(a) != text::lower(b) {
        text_before(text::lower(a), text::lower(b), 0)
    } else {
        text_before(a, b, 0)
    }
}

/// True of names in the order of an index.
pub open spec fn in_order(names: Seq<Seq<char>>, readme_first: bool) -> bool {
    forall|i: int, j: int|
        0 <= i < j < names.len() ==> !listed_before(
            #[trigger] names[j],
            #[trigger] names[i],
            readme_first,
        )
}

proof fn lemma_text_before(a: Seq<char>, b: Seq<char>, i: int)
    requires
        0 <= i <= a.len(),
        i <= b.len(),
        forall|k: int| 0 <= k < i ==> a[k] == b[k],
    ensures
        !(text_before(a, b, i) && text_before(b, a, i)),
        text_before(a, b, i) || text_before(b, a, i) || a == b,
        !text_before(a, a, i),
    decreases a.len() - i,
{
    if i < a.len() {
        lemma_text_before(a, a, i + 1);
    }
    if i < a.len() && i < b.len() {
        if a[i] == b[i] {
            lemma_text_before(a, b, i + 1);
        }
    } else if i == a.len() && i == b.len() {
        assert(a =~= b);
    }
}

proof fn lemma_text_order(a: Seq<char>, b: Seq<char>, c: Seq<char>, i: int)
    requires
        0 <= i,
        text_before(a, b, i),
        text_before(b, c, i),
    ensures
        text_before(a, c, i),
    decreases a.len() - i,
{
    if i < a.len() && i < b.len() && i < c.len() && a[i] == b[i] && b[i] == c[i] {
        lemma_text_order(a, b, c, i + 1);
    }
}

/// The order of an index is a strict order, and only equal names are unordered.
pub proof fn index_order_is_total(a: Seq<char>, b: Seq<char>, c: Seq<char>, readme_first: bool)
    ensures
        !listed_before(a, a, readme_first),
        !(listed_before(a, b, readme_first) && listed_before(b, a, readme_first)),
        listed_before(a, b, readme_first) || listed_before(b, a, readme_first) || a == b,
        listed_before(a, b, readme_first) && listed_before(b, c, readme_first) ==> listed_before(
            a,
            c,
            readme_first,
        ),
{
    let la = text::lower(a);
    let lb = text::lower(b);
    let lc = text::lower(c);
    lemma_text_before(a, a, 0);
    lemma_text_before(a, b, 0);
    lemma_text_before(la, lb, 0);
    lemma_text_before(lb, la, 0);
    lemma_text_before(lc, lb, 0);
    if text_before(a, b, 0) && text_before(b, c, 0) {
        lemma_text_order(a, b, c, 0);
    }
    if text_before(la, lb, 0) && text_before(lb, lc, 0) {
        lemma_text_order(la, lb, lc, 0);
    }
}

fn sorts_before(a: &Vec<char>, b: &Vec<char>) -> (r: bool)
    ensures
        r == text_before(a@, b@, 0),
{
    let mut i: usize = 0;
    while i < a.len() && i < b.len() && a[i] == b[i]
        invariant
            i <= a.len(),
            i <= b.len(),
            text_before(a@, b@, i as int) == text_before(a@, b@, 0),
        decreases a.len() - i,
    {
        i = i + 1;
    }
    if i >= b.len() {
        false
    } else if i >= a.len() {
        true
    } else {
        a[i] < b[i]
    }
}

fn same_chars(a: &Vec<char>, b: &Vec<char>) -> (r: bool)
    ensures
        r == (a@ == b@),
{
    let r = a.len() == b.len() && text::chars_at(a, b, 0);
    proof {
        assert(a@.len() == b@.len() ==> a@ =~= a@.subrange(0, b@.len() as int));
    }
    r
}

fn comes_before(a: &str, b: &str, readme_first: bool) -> (r: bool)
    ensures
        r == listed_before(a@, b@, readme_first),
{
    let va = text::chars_of(a);
    let vb = text::chars_of(b);
    let la = text::lowered(&va);
    let lb = text::lowered(&vb);
    let ra = readme_first && text::has_prefix(&text::string_of(&la), "readme.");
    let rb = readme_first && text::has_prefix(&text::string_of(&lb), "readme.");
    if ra != rb {
        ra
    } else if !same_chars(&la, &lb) {
        sorts_before(&la, &lb)
    } else {
        sorts_before(&va, &vb)
    }
}

/// Sorts the names of an index.
pub fn sort_names(names: Vec<String>, readme_first: bool) -> (r: Vec<String>)
    ensures
        in_order(text::views(r@), readme_first),
        text::views(r@).to_multiset() == text::views(names@).to_multiset(),
{
    let ghost all = text::views(names@);
    let n: usize = names.len();
    let mut out: Vec<String> = Vec::new();
    assert(text::views(out@) =~= Seq::empty());
    assert(all.take(0) =~= Seq::empty());
    for i in 0..n
        invariant
            n == names.len(),
            all == text::views(names@),
            in_order(text::views(out@), readme_first),
            text::views(out@).to_multiset() == all.take(i as int).to_multiset(),
    {
        let ghost before = text::views(out@);
        let ghost x = names@[i as int]@;
        let mut p: usize = out.len();
        while p > 0 && comes_before(&names[i], &out[p - 1], readme_first)
            invariant
                p <= out.len(),
                i < names.len(),
                x == names@[i as int]@,
                before == text::views(out@),
                forall|k: int|
                    p <= k < out.len() ==> listed_before(x, #[trigger] before[k], readme_first),
            decreases p,
        {
            p = p - 1;
        }
        out.insert(p, names[i].clone());
        assert(text::views(out@) =~= before.insert(p as int, x));
        proof {
            let after = before.insert(p as int, x);
            assert forall|a: int, b: int| 0 <= a < b < after.len() implies !listed_before(
                #[trigger] after[b],
                #[trigger] after[a],
                readme_first,
            ) by {
                let y = after[a];
                let z = after[b];
                if a == p {
                    assert(z == before[b - 1]);
                    index_order_is_total(x, z, x, readme_first);
                } else if b == p {
                    assert(y == before[a]);
                    if p > 0 {
                        let w = before[p - 1];
                        index_order_is_total(x, y, w, readme_first);
                        index_order_is_total(w, y, w, readme_first);
                        if listed_before(x, y, readme_first) {
                            index_order_is_total(y, w, w, readme_first);
                            if a < p - 1 {
                                assert(!listed_before(before[p - 1], before[a], readme_first));
                            }
                            assert(listed_before(x, w, readme_first));
                        }
                    }
                } else {
                    let a0 = if a < p {
                        a
                    } else {
                        a - 1
                    };
                    let b0 = if b < p {
                        b
                    } else {
                        b - 1
                    };
                    assert(y == before[a0] && z == before[b0]);
                }
            }
            vstd::seq_lib::to_multiset_insert(before, p as int, x);
            vstd::seq_lib::to_multiset_build(all.take(i as int), x);
            assert(all.take(i + 1) =~= all.take(i as int).push(x));
        }
    }
    assert(all.take(n as int) =~= all);
    out
}

/// The names that go into an index.
#[derive(Debug)]
pub struct Listing {
    /// Markdown files.
    pub files: Vec<String>,
    /// Directories that hold Markdown.
    pub subdirectories: Vec<String>,
}

/// What a directory entry is.
#[derive(Debug, Clone, Copy, PartialEq, Eq, Structural)]
pub enum EntryKind {
    File,
    Directory,
    /// A directory somewhere under which there is Markdown.
    MarkdownDirectory,
}

pub struct ListingV {
    pub files: Seq<Seq<char>>,
    pub subdirectories: Seq<Seq<char>>,
}

impl View for Listing {
    type V = ListingV;

    open spec fn view(&self) -> ListingV {
        ListingV {
            files: text::views(self.files@),
            subdirectories: text::views(self.subdirectories@),
        }
    }
}

/// True of a name that was not meant to be browsed.
pub open spec fn is_hidden(name: Seq<char>) -> bool {
    name.len() > 0 && name[0] == '.'
}

/// A listing with one more entry of the directory looked at.
pub open spec fn with_entry(l: ListingV, name: Seq<char>, kind: EntryKind) -> ListingV {
    if is_hidden(name) {
        l
    } else {
        match kind {
            EntryKind::File => if names_markdown(name) {
                ListingV { files: l.files.push(name), ..l }
            } else {
                l
            },
            EntryKind::Directory => l,
            EntryKind::MarkdownDirectory => ListingV {
                subdirectories: l.subdirectories.push(name),
                ..l
            },
        }
    }
}

/// True of a listing that can take another entry.
pub open spec fn has_room(l: ListingV) -> bool {
    l.files.len() + l.subdirectories.len() < MAX_INDEX_ENTRIES
}

/// Whether a name is hidden: a dotfile was not written to be browsed.
pub fn hidden(name: &str) -> (r: bool)
    ensures
        r == is_hidden(name@),
{
    let v = text::chars_of(name);
    v.len() > 0 && v[0] == '.'
}

impl Listing {
    pub fn new() -> (r: Listing)
        ensures
            r@ == (ListingV { files: Seq::empty(), subdirectories: Seq::empty() }),
    {
        let r = Listing { files: Vec::new(), subdirectories: Vec::new() };
        assert(r@.files =~= Seq::empty());
        assert(r@.subdirectories =~= Seq::empty());
        r
    }

    /// Looks at one entry, and says whether there is room for another.
    pub fn offer(&mut self, name: &str, kind: EntryKind) -> (r: bool)
        requires
            has_room(old(self)@),
        ensures
            final(self)@ == with_entry(old(self)@, name@, kind),
            r == has_room(final(self)@),
    {
        let ghost before = self@;
        if !hidden(name) {
            match kind {
                EntryKind::File => {
                    if is_markdown(name) {
                        self.files.push(text::owned(name));
                        assert(self@.files =~= before.files.push(name@));
                    }
                },
                EntryKind::Directory => {},
                EntryKind::MarkdownDirectory => {
                    self.subdirectories.push(text::owned(name));
                    assert(self@.subdirectories =~= before.subdirectories.push(name@));
                },
            }
        }
        self.files.len() + self.subdirectories.len() < MAX_INDEX_ENTRIES
    }

    /// Puts both lists in order, README first among the files.
    pub fn sort(self) -> (r: Listing)
        ensures
            in_order(r@.files, true),
            in_order(r@.subdirectories, false),
            r@.files.to_multiset() == self@.files.to_multiset(),
            r@.subdirectories.to_multiset() == self@.subdirectories.to_multiset(),
    {
        Listing {
            files: sort_names(self.files, true),
            subdirectories: sort_names(self.subdirectories, false),
        }
    }
}

/// What stands for one character in a link's target: those that would end it early are
/// percent-encoded.
pub open spec fn target_char(c: char) -> Seq<char> {
    if c == ' ' {
        "%20"@
    } else if c == '(' {
        "%28"@
    } else if c == ')' {
        "%29"@
    } else if c == '[' {
        "%5B"@
    } else if c == ']' {
        "%5D"@
    } else {
        seq![c]
    }
}

pub open spec fn target_of(name: Seq<char>) -> Seq<char>
    decreases name.len(),
{
    if name.len() == 0 {
        ""@
    } else {
        target_of(name.drop_last()) + target_char(name.last())
    }
}

/// A link target for a name in the index's own directory: a file called `a (1).md` is
/// a link that stops at the space unless that is encoded.
pub fn link(name: &str) -> (r: String)
    ensures
        r@ == target_of(name@),
{
    let v = text::chars_of(name);
    let mut out = text::owned("");
    assert(v@.take(0) =~= Seq::empty());
    for i in 0..v.len()
        invariant
            out@ == target_of(v@.take(i as int)),
    {
        assert(v@.take(i + 1).drop_last() =~= v@.take(i as int));
        let ghost before = out@;
        match v[i] {
            ' ' => out.push_str("%20"),
            '(' => out.push_str("%28"),
            ')' => out.push_str("%29"),
            '[' => out.push_str("%5B"),
            ']' => out.push_str("%5D"),
            c => {
                out.push(c);
                assert(out@ =~= before + seq![c]);
            },
        }
    }
    assert(v@.take(v@.len() as int) =~= v@);
    out
}

/// A link's target holds nothing that would end it early.
pub proof fn targets_hold_together(name: Seq<char>)
    ensures
        forall|k: int|
            0 <= k < target_of(name).len() ==> !(" ()[]"@.contains(#[trigger] target_of(name)[k])),
    decreases name.len(),
{
    reveal_strlit("");
    reveal_strlit(" ()[]");
    reveal_strlit("%20");
    reveal_strlit("%28");
    reveal_strlit("%29");
    reveal_strlit("%5B");
    reveal_strlit("%5D");
    assert(" ()[]"@ =~= seq![' ', '(', ')', '[', ']']);
    if name.len() > 0 {
        targets_hold_together(name.drop_last());
        let head = target_of(name.drop_last());
        let all = target_of(name);
        assert forall|k: int| 0 <= k < all.len() implies !(" ()[]"@.contains(#[trigger] all[k])) by {
            if k < head.len() {
                assert(all[k] == head[k]);
            } else {
                assert(all[k] == target_char(name.last())[k - head.len()]);
            }
        }
    }
}

pub open spec fn label_of(name: Seq<char>) -> Seq<char>
    decreases name.len(),
{
    if name.len() == 0 {
        ""@
    } else {
        label_of(name.drop_last()) + (if name.last() == '[' || name.last() == ']' {
            seq!['\\', name.last()]
        } else {
            seq![name.last()]
        })
    }
}

/// The same name as link text, where a bracket would end it early.
pub fn label(name: &str) -> (r: String)
    ensures
        r@ == label_of(name@),
{
    let v = text::chars_of(name);
    let mut out = text::owned("");
    assert(v@.take(0) =~= Seq::empty());
    for i in 0..v.len()
        invariant
            out@ == label_of(v@.take(i as int)),
    {
        assert(v@.take(i + 1).drop_last() =~= v@.take(i as int));
        let ghost before = out@;
        if v[i] == '[' || v[i] == ']' {
            out.push('\\');
            out.push(v[i]);
            assert(out@ =~= before + seq!['\\', v@[i as int]]);
        } else {
            out.push(v[i]);
            assert(out@ =~= before + seq![v@[i as int]]);
        }
    }
    assert(v@.take(v@.len() as int) =~= v@);
    out
}

/// One file of an index, with its first heading where that says more than its name.
pub open spec fn file_line(name: Seq<char>, heading: Option<Seq<char>>) -> Seq<char> {
    "- ["@ + label_of(name) + "]("@ + target_of(name) + ")"@ + (match heading {
        Some(title) if title != name => " \u{2014} "@ + title,
        _ => ""@,
    }) + "\n"@
}

pub open spec fn directory_line(name: Seq<char>) -> Seq<char> {
    "- ["@ + label_of(name) + "/]("@ + target_of(name) + ")\n"@
}

pub open spec fn file_lines(names: Seq<Seq<char>>, headings: Seq<Option<Seq<char>>>) -> Seq<char>
    decreases names.len(),
{
    if names.len() == 0 {
        ""@
    } else {
        let k = names.len() - 1;
        file_lines(names.drop_last(), headings) + file_line(
            names.last(),
            if k < headings.len() {
                headings[k]
            } else {
                None
            },
        )
    }
}

pub open spec fn directory_lines(names: Seq<Seq<char>>) -> Seq<char>
    decreases names.len(),
{
    if names.len() == 0 {
        ""@
    } else {
        directory_lines(names.drop_last()) + directory_line(names.last())
    }
}

/// A directory's Markdown as a document that links to all of it.
pub open spec fn index_text(
    dir: Seq<char>,
    listing: ListingV,
    headings: Seq<Option<Seq<char>>>,
) -> Seq<char> {
    "# "@ + text::trim_end_char(dir, '/') + "\n\n"@ + (if listing.files.len() == 0
        && listing.subdirectories.len() == 0 {
        "No Markdown here.\n"@
    } else {
        file_lines(listing.files, headings) + (if listing.subdirectories.len() == 0 {
            ""@
        } else {
            "\n"@ + directory_lines(listing.subdirectories)
        })
    })
}

pub open spec fn opt_texts(v: Seq<Option<String>>) -> Seq<Option<Seq<char>>> {
    Seq::new(v.len(), |k: int| opt_text(v[k]))
}

fn push_file_line(out: &mut String, name: &str, heading: Option<&String>)
    ensures
        final(out)@ == old(out)@ + file_line(
            name@,
            match heading {
                Some(t) => Some(t@),
                None => None,
            },
        ),
{
    let ghost before = out@;
    out.push_str("- [");
    out.push_str(&label(name));
    out.push_str("](");
    out.push_str(&link(name));
    out.push_str(")");
    match heading {
        Some(title) => {
            if !text::same(title, name) {
                out.push_str(" \u{2014} ");
                out.push_str(title);
            }
        },
        None => {},
    }
    out.push_str("\n");
    proof {
        reveal_strlit("");
    }
    assert(out@ =~= before + file_line(
        name@,
        match heading {
            Some(t) => Some(t@),
            None => None,
        },
    ));
}

/// Writes a directory's Markdown as a document that links to all of it.
///
/// Generating Markdown rather than building a file browser is the whole trick: the
/// pager already follows a link to a local document, and already comes back, so a
/// directory is a browsable tree made out of parts that were already there.
///
/// `headings` holds the first heading of each file of `listing`, where one was found.
pub fn index_of(dir: &str, listing: &Listing, headings: &Vec<Option<String>>) -> (r: String)
    ensures
        r@ == index_text(dir@, listing@, opt_texts(headings@)),
{
    let ghost hs = opt_texts(headings@);
    let mut out = text::owned("# ");
    out.push_str(&without_slashes(dir));
    out.push_str("\n\n");
    let ghost top = out@;
    let files = &listing.files;
    let subdirectories = &listing.subdirectories;
    if files.len() == 0 && subdirectories.len() == 0 {
        out.push_str("No Markdown here.\n");
        assert(listing@.files.len() == 0 && listing@.subdirectories.len() == 0);
        return out;
    }
    let ghost fv = text::views(files@);
    assert(fv.take(0) =~= Seq::empty());
    assert(top + ""@ =~= top) by {
        reveal_strlit("");
    }
    for i in 0..files.len()
        invariant
            fv == text::views(files@),
            hs == opt_texts(headings@),
            out@ == top + file_lines(fv.take(i as int), hs),
    {
        assert(fv.take(i + 1).drop_last() =~= fv.take(i as int));
        assert(fv.take(i + 1).last() == files@[i as int]@);
        let heading = if i < headings.len() {
            headings[i].as_ref()
        } else {
            None
        };
        let ghost before = out@;
        push_file_line(&mut out, &files[i], heading);
        assert(out@ =~= top + file_lines(fv.take(i + 1), hs));
    }
    assert(fv.take(files@.len() as int) =~= fv);
    let ghost listed = out@;
    if subdirectories.len() > 0 {
        out.push_str("\n");
        let ghost dv = text::views(subdirectories@);
        let ghost start = out@;
        assert(dv.take(0) =~= Seq::empty());
        assert(start + ""@ =~= start) by {
            reveal_strlit("");
        }
        for i in 0..subdirectories.len()
            invariant
                dv == text::views(subdirectories@),
                out@ == start + directory_lines(dv.take(i as int)),
        {
            assert(dv.take(i + 1).drop_last() =~= dv.take(i as int));
            assert(dv.take(i + 1).last() == subdirectories@[i as int]@);
            let name = &subdirectories[i];
            out.push_str("- [");
            out.push_str(&label(name));
            out.push_str("/](");
            out.push_str(&link(name));
            out.push_str(")\n");
            assert(out@ =~= start + directory_lines(dv.take(i + 1)));
        }
        assert(dv.take(subdirectories@.len() as int) =~= dv);
        assert(out@ =~= index_text(dir@, listing@, hs));
    } else {
        assert(out@ =~= index_text(dir@, listing@, hs)) by {
            reveal_strlit("");
        }
    }
    out
}

/// What is known of one directory on the way down.
#[derive(Debug)]
pub enum Look {
    /// There is Markdown in it.
    Found,
    /// There is none at this level. These are the directories left to look into.
    Deeper(Vec<String>),
}

/// True where some entry names a Markdown file.
pub open spec fn any_markdown(entries: Seq<(String, bool)>) -> bool {
    exists|k: int| 0 <= k < entries.len() && names_markdown((#[trigger] entries[k]).0@)
}

/// The names of the real directories among some entries.
pub open spec fn directories_in(entries: Seq<(String, bool)>) -> Seq<Seq<char>>
    decreases entries.len(),
{
    if entries.len() == 0 {
        Seq::empty()
    } else if entries.last().1 {
        directories_in(entries.drop_last()).push(entries.last().0@)
    } else {
        directories_in(entries.drop_last())
    }
}

/// What one level says about whether a directory is worth listing: one with no
/// Markdown in it is a directory of something else, and an index full of `images/`
/// helps nobody.
///
/// Each entry is a name and whether it is a real directory. A link can point back the
/// way the search came, and a cycle of them has no bottom, so links are not followed,
/// and nothing below `depth` levels is looked at.
pub fn look_for_markdown(entries: &Vec<(String, bool)>, depth: usize) -> (r: Look)
    ensures
        (r is Found) == any_markdown(entries@),
        r matches Look::Deeper(dirs) ==> text::views(dirs@) == (if depth == 0 {
            Seq::empty()
        } else {
            directories_in(entries@)
        }),
{
    let mut dirs: Vec<String> = Vec::new();
    assert(entries@.take(0) =~= Seq::empty());
    assert(text::views(dirs@) =~= Seq::empty());
    for i in 0..entries.len()
        invariant
            forall|k: int| 0 <= k < i ==> !names_markdown((#[trigger] entries@[k]).0@),
            text::views(dirs@) == (if depth == 0 {
                Seq::empty()
            } else {
                directories_in(entries@.take(i as int))
            }),
    {
        assert(entries@.take(i + 1).drop_last() =~= entries@.take(i as int));
        if is_markdown(&entries[i].0) {
            return Look::Found;
        }
        if depth > 0 && entries[i].1 {
            let ghost before = text::views(dirs@);
            dirs.push(entries[i].0.clone());
            assert(text::views(dirs@) =~= before.push(entries@[i as int].0@));
        }
    }
    assert(entries@.take(entries@.len() as int) =~= entries@);
    Look::Deeper(dirs)
}

// --- the first heading -------------------------------------------------------------------

/// Where the document starts behind its front matter.
pub open spec fn past_front_matter(lines: Seq<Seq<char>>, k: int) -> int
    decreases lines.len() - k,
{
    if k >= lines.len() {
        lines.len() as int
    } else if lines[k] == "---"@ || lines[k] == "..."@ {
        k + 1
    } else {
        past_front_matter(lines, k + 1)
    }
}

/// The text of a heading, without the marks around it.
pub open spec fn heading_text(s: Seq<char>) -> Seq<char> {
    text::trim(text::trim_end_char(text::trim(s), '#'))
}

pub open spec fn is_fence(s: Seq<char>) -> bool {
    text::starts_with(s, "```"@) || text::starts_with(s, "~~~"@)
}

/// True of a line under a heading.
pub open spec fn is_underline(s: Seq<char>) -> bool {
    s.len() >= 2 && forall|k: int| 0 <= k < s.len() ==> #[trigger] s[k] == '='
}

/// The first heading in the lines from `k` on. A comment in a code block is no heading,
/// and an underlined heading ends the search.
pub open spec fn heading_from(lines: Seq<Seq<char>>, k: int, fenced: bool) -> Option<Seq<char>>
    decreases lines.len() - k,
{
    if k < 0 || k >= lines.len() {
        None
    } else {
        let s = text::trim(lines[k]);
        if is_fence(s) {
            heading_from(lines, k + 1, !fenced)
        } else if fenced {
            heading_from(lines, k + 1, fenced)
        } else if text::starts_with(s, "# "@) {
            Some(heading_text(s.subrange(2, s.len() as int)))
        } else if is_underline(s) {
            None
        } else {
            heading_from(lines, k + 1, fenced)
        }
    }
}

pub open spec fn heading_in(head: Seq<char>) -> Option<Seq<char>> {
    let lines = text::lines(head);
    heading_from(
        lines,
        if lines.len() > 0 && lines[0] == "---"@ {
            past_front_matter(lines, 1)
        } else {
            0
        },
        false,
    )
}

fn underlines(s: &str) -> (r: bool)
    ensures
        r == is_underline(s@),
{
    let v = text::chars_of(s);
    if v.len() < 2 {
        return false;
    }
    for i in 0..v.len()
        invariant
            v@ == s@,
            s@.len() >= 2,
            forall|k: int| 0 <= k < i ==> #[trigger] v@[k] == '=',
    {
        if v[i] != '=' {
            assert(s@[i as int] != '=');
            return false;
        }
    }
    true
}

fn heading_words(s: &str) -> (r: String)
    ensures
        r@ == heading_text(s@),
{
    let t = text::trimmed(s);
    let v = text::chars_of(&t);
    assert(v@.subrange(0, v@.len() as int) =~= v@);
    let n = text::skip_char_back(&v, 0, v.len(), '#');
    text::trimmed(&text::string_of_range(&v, 0, n))
}

/// The text of a page that was fetched. Markdown is text, and a page that is not valid
/// UTF-8 is not Markdown anything sensible can be done with; replacing is kinder than
/// refusing.
pub fn page_of(bytes: &Vec<u8>) -> (r: String)
    ensures
        r@ == utf8_lossy(bytes@),
        valid_utf8(bytes@) ==> r@ == decode_utf8(bytes@),
{
    from_utf8_lossy(bytes.as_slice())
}

/// The first heading in the bytes that a file starts with.
pub fn heading_of(bytes: &Vec<u8>) -> (r: Option<String>)
    ensures
        opt_text(r) == heading_in(utf8_lossy(bytes@)),
        valid_utf8(bytes@) ==> opt_text(r) == heading_in(decode_utf8(bytes@)),
{
    first_heading(&from_utf8_lossy(bytes.as_slice()))
}

/// The first heading in the start of a file, to say what it is beyond its name.
pub fn first_heading(head: &str) -> (r: Option<String>)
    ensures
        opt_text(r) == heading_in(head@),
{
    let lines = text::lines_of(head);
    let ghost v = text::views(lines@);
    let n: usize = lines.len();
    let mut k: usize = 0;
    // Front matter is not the document, so it is skipped to reach the heading.
    if n > 0 && text::same(&lines[0], "---") {
        assert(v[0] == lines@[0]@);
        k = 1;
        while k < n && !(text::same(&lines[k], "---") || text::same(&lines[k], "..."))
            invariant
                n == lines.len(),
                v == text::views(lines@),
                1 <= k <= n,
                past_front_matter(v, k as int) == past_front_matter(v, 1),
            decreases n - k,
        {
            assert(v[k as int] == lines@[k as int]@);
            k = k + 1;
        }
        if k < n {
            assert(v[k as int] == lines@[k as int]@);
            k = k + 1;
        }
        assert(k == past_front_matter(v, 1));
    } else if n > 0 {
        assert(v[0] == lines@[0]@);
    }
    let ghost start = k as int;
    let mut fenced = false;
    while k < n
        invariant
            n == lines.len(),
            v == text::views(lines@),
            k <= n,
            heading_from(v, k as int, fenced) == heading_from(v, start, false),
            heading_from(v, start, false) == heading_in(head@),
        decreases n - k,
    {
        assert(v[k as int] == lines@[k as int]@);
        let s = text::trimmed(&lines[k]);
        if text::has_prefix(&s, "```") || text::has_prefix(&s, "~~~") {
            fenced = !fenced;
        } else if !fenced {
            if text::has_prefix(&s, "# ") {
                let c = text::chars_of(&s);
                proof {
                    reveal_strlit("# ");
                }
                return Some(heading_words(&text::string_of_range(&c, 2, c.len())));
            }
            if underlines(&s) {
                return None;
            }
        }
        k = k + 1;
    }
    None
}

// --- merging -------------------------------------------------------------------------------

/// A page in the making: what has been merged, and the slugs given out.
pub struct MergeV {
    pub doc: DocumentV,
    pub seen: Seen,
}

/// The page with one more document on it. Several documents get their names as
/// headings and a rule between them, because otherwise a reader cannot tell where one
/// ends and the next begins.
pub open spec fn merged_one(m: MergeV, name: Seq<char>, doc: DocumentV, i: int, multiple: bool) -> MergeV {
    let heading = BlockV::Heading {
        level: 1,
        id: slug_given(m.seen, slug_base(name)),
        content: seq![InlineV::Code(name)],
    };
    let opened = if !multiple {
        m.doc.blocks
    } else if i > 0 {
        m.doc.blocks.push(BlockV::Rule).push(heading)
    } else {
        m.doc.blocks.push(heading)
    };
    MergeV {
        doc: DocumentV {
            blocks: opened + doc.blocks,
            footnotes: m.doc.footnotes + doc.footnotes,
            title: if m.doc.title is None {
                doc.title
            } else {
                m.doc.title
            },
            front_matter: if m.doc.front_matter is None {
                doc.front_matter
            } else {
                m.doc.front_matter
            },
        },
        seen: if multiple {
            slug_seen(m.seen, slug_base(name))
        } else {
            m.seen
        },
    }
}

/// The first `k` of some named documents as one page.
pub open spec fn merged_upto(docs: Seq<(Seq<char>, DocumentV)>, k: int) -> MergeV
    decreases k,
{
    if k <= 0 {
        MergeV {
            doc: DocumentV {
                blocks: Seq::empty(),
                footnotes: Seq::empty(),
                title: None,
                front_matter: None,
            },
            seen: Set::empty(),
        }
    } else {
        merged_one(
            merged_upto(docs, k - 1),
            docs[k - 1].0,
            docs[k - 1].1,
            k - 1,
            docs.len() > 1,
        )
    }
}

/// Several named documents as one page.
pub open spec fn merged(docs: Seq<(Seq<char>, DocumentV)>) -> DocumentV {
    merged_upto(docs, docs.len() as int).doc
}

pub open spec fn named_views(v: Seq<(String, Document)>) -> Seq<(Seq<char>, DocumentV)> {
    Seq::new(v.len(), |k: int| (v[k].0@, v[k].1@))
}

proof fn lemma_blocks_append(a: Vec<Block>, b: Vec<Block>, r: Vec<Block>)
    requires
        r@ == a@ + b@,
    ensures
        blocks_view(r) == blocks_view(a) + blocks_view(b),
{
    assert(blocks_view(r) =~= blocks_view(a) + blocks_view(b));
}

/// Merges named documents into a single one.
pub fn merge(docs: Vec<(String, Document)>) -> (r: Document)
    ensures
        r@ == merged(named_views(docs@)),
{
    let ghost all = named_views(docs@);
    let multiple = docs.len() > 1;
    let n: usize = docs.len();
    let mut rest = docs;
    // Reversed, so that taking them off the end gives them in order.
    let mut queue: Vec<(String, Document)> = Vec::new();
    while rest.len() > 0
        invariant
            n == rest.len() + queue.len(),
            n == all.len(),
            forall|k: int|
                0 <= k < rest.len() ==> ((#[trigger] rest@[k]).0@, rest@[k].1@) == all[k],
            forall|k: int|
                0 <= k < queue.len() ==> ((#[trigger] queue@[k]).0@, queue@[k].1@) == all[n - 1
                    - k],
        decreases rest.len(),
    {
        match rest.pop() {
            Some(d) => queue.push(d),
            None => {},
        }
    }
    let mut page = Document::default();
    let mut slugger = Slugger::new();
    let mut i: usize = 0;
    while queue.len() > 0
        invariant
            n == i + queue.len(),
            n == all.len(),
            multiple == (n > 1),
            forall|k: int|
                0 <= k < queue.len() ==> ((#[trigger] queue@[k]).0@, queue@[k].1@) == all[n - 1
                    - k],
            page@ == merged_upto(all, i as int).doc,
            slugger@ == merged_upto(all, i as int).seen,
        decreases queue.len(),
    {
        match queue.pop() {
            Some((name, doc)) => {
                assert(all[i as int] == (name@, doc@));
                let ghost m = merged_upto(all, i as int);
                let mut doc = doc;
                if multiple {
                    if i > 0 {
                        let ghost before = page.blocks;
                        page.blocks.push(Block::Rule);
                        assert(blocks_view(page.blocks) =~= blocks_view(before).push(
                            BlockV::Rule,
                        ));
                    }
                    let ghost before = page.blocks;
                    let id = slugger.slug(&name);
                    let content = vec![Inline::Code(name)];
                    assert(inlines_view(content) =~= seq![InlineV::Code(name@)]);
                    let heading = Block::Heading { level: 1, id, content };
                    page.blocks.push(heading);
                    assert(blocks_view(page.blocks) =~= blocks_view(before).push(
                        block_view(heading),
                    ));
                }
                if page.title.is_none() {
                    page.title = doc.title;
                }
                if page.front_matter.is_none() {
                    page.front_matter = doc.front_matter;
                }
                let ghost before = page.blocks;
                let ghost notes = page.footnotes;
                let ghost added = doc.blocks;
                let ghost added_notes = doc.footnotes;
                page.blocks.append(&mut doc.blocks);
                page.footnotes.append(&mut doc.footnotes);
                proof {
                    lemma_blocks_append(before, added, page.blocks);
                }
                assert(footnotes_view(page.footnotes) =~= footnotes_view(notes) + footnotes_view(
                    added_notes,
                ));
                assert(page@ == merged_upto(all, i + 1).doc);
                i = i + 1;
            },
            None => {},
        }
    }
    page
}

/// One source, parsed, with its relative URLs starting at `root`.
pub open spec fn read_as(s: SourceV, options: ParseOptions, root: RootV) -> DocumentV {
    document_rebased(root, document_of(cmark_events(s.text, options.bits() as u32)))
}

/// True where each root is one that its source's base can stand for.
pub open spec fn roots_fit(sources: Seq<SourceV>, roots: Seq<RootV>) -> bool {
    roots.len() == sources.len() && forall|k: int|
        0 <= k < roots.len() ==> stands_for(base_from(sources[k].origin), #[trigger] roots[k])
}

/// Every source, read on its own, under its own name.
pub open spec fn all_read(sources: Seq<SourceV>, options: ParseOptions, roots: Seq<RootV>) -> Seq<
    (Seq<char>, DocumentV),
> {
    Seq::new(sources.len(), |k: int| (sources[k].name, read_as(sources[k], options, roots[k])))
}

/// Parses every source and merges them into a single document.
///
/// Each file's relative URLs are rebased against its own directory before the merge, so
/// an image beside the second file still resolves once the two are one page.
pub fn build_document(sources: &[Source], options: ParseOptions) -> (r: Document)
    ensures
        exists|roots: Seq<RootV>| #[trigger]
            roots_fit(source_views(sources@), roots) && r@ == merged(
                all_read(source_views(sources@), options, roots),
            ),
{
    let ghost views = source_views(sources@);
    let ghost mut roots: Seq<RootV> = Seq::empty();
    let mut docs: Vec<(String, Document)> = Vec::new();
    for i in 0..sources.len()
        invariant
            views == source_views(sources@),
            docs.len() == i,
            roots.len() == i,
            forall|k: int|
                0 <= k < i ==> stands_for(base_from(views[k].origin), #[trigger] roots[k]),
            forall|k: int|
                0 <= k < i ==> ((#[trigger] docs@[k]).0@, docs@[k].1@) == (
                    views[k].name,
                    read_as(views[k], options, roots[k]),
                ),
    {
        assert(views[i as int] == sources@[i as int]@);
        let mut doc = parse(&sources[i].text, options);
        let root = root_of(&sources[i].base());
        rebase_onto(&mut doc, &root);
        docs.push((sources[i].name.clone(), doc));
        proof {
            roots = roots.push(root@);
        }
    }
    assert(named_views(docs@) =~= all_read(views, options, roots));
    assert(roots_fit(views, roots));
    merge(docs)
}

// --- laws --------------------------------------------------------------------------------

/// The order of an index is settled by the names in it: two listings of the same names
/// are the same, whatever order the file system gave them in.
pub proof fn listings_are_stable(a: Seq<Seq<char>>, b: Seq<Seq<char>>, readme_first: bool)
    requires
        in_order(a, readme_first),
        in_order(b, readme_first),
        a.to_multiset() == b.to_multiset(),
    ensures
        a == b,
{
    let leq = |x: Seq<char>, y: Seq<char>| !listed_before(y, x, readme_first);
    assert forall|x: Seq<char>| #[trigger] leq(x, x) by {
        index_order_is_total(x, x, x, readme_first);
    }
    assert forall|x: Seq<char>, y: Seq<char>| #[trigger] leq(x, y) && #[trigger] leq(
        y,
        x,
    ) implies x == y by {
        index_order_is_total(x, y, x, readme_first);
    }
    assert forall|x: Seq<char>, y: Seq<char>| #[trigger] leq(x, y) || #[trigger] leq(y, x) by {
        index_order_is_total(x, y, x, readme_first);
    }
    assert forall|x: Seq<char>, y: Seq<char>, z: Seq<char>| #[trigger]
        leq(x, y) && #[trigger] leq(y, z) implies leq(x, z) by {
        index_order_is_total(x, y, z, readme_first);
        index_order_is_total(y, z, z, readme_first);
        index_order_is_total(z, x, y, readme_first);
    }
    vstd::seq_lib::lemma_sorted_unique(a, b, leq);
}

/// A README leads the files of an index.
pub proof fn a_readme_comes_first(names: Seq<Seq<char>>, i: int, j: int)
    requires
        in_order(names, true),
        0 <= i < j < names.len(),
        is_readme(names[j]),
    ensures
        is_readme(names[i]),
{
    assert(!listed_before(names[j], names[i], true));
}

/// A single document gets no extra heading: on its own, a page is the document.
pub proof fn one_document_is_the_page(name: Seq<char>, doc: DocumentV)
    ensures
        merged(seq![(name, doc)]) == doc,
{
    let docs = seq![(name, doc)];
    let start = merged_upto(docs, 0);
    assert(merged_upto(docs, 1) == merged_one(start, docs[0].0, docs[0].1, 0, false));
    assert(start.doc.blocks + doc.blocks =~= doc.blocks);
    assert(start.doc.footnotes + doc.footnotes =~= doc.footnotes);
}

/// The blocks of each document, and its footnotes, are on the page in full and in order:
/// adding a document to a page takes nothing away from what is there.
pub proof fn merging_keeps_every_document(docs: Seq<(Seq<char>, DocumentV)>, k: int)
    requires
        0 < k <= docs.len(),
    ensures
        ({
            let before = merged_upto(docs, k - 1).doc;
            let after = merged_upto(docs, k).doc;
            let added = docs[k - 1].1;
            &&& after.footnotes == before.footnotes + added.footnotes
            &&& before.blocks.len() + added.blocks.len() <= after.blocks.len()
            &&& after.blocks.take(before.blocks.len() as int) == before.blocks
            &&& after.blocks.skip(after.blocks.len() - added.blocks.len()) == added.blocks
        }),
{
    let before = merged_upto(docs, k - 1).doc;
    let after = merged_upto(docs, k).doc;
    let added = docs[k - 1].1;
    assert(after.blocks.take(before.blocks.len() as int) =~= before.blocks);
    assert(after.blocks.skip(after.blocks.len() - added.blocks.len()) =~= added.blocks);
}

} // verus!
