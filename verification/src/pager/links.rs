//! What a link leads to.
use vstd::prelude::*;

use crate::markdown::ir::opt_text;
use crate::markdown::rebase::{find_part_end, origin_end, part_end};
use crate::source::{as_url, is_markdown, is_url, names_markdown, Origin, OriginV};
use crate::text;

verus! {

/// The path of a URL, without its origin, its query and its fragment.
pub open spec fn url_path(url: Seq<char>) -> Seq<char> {
    let from = origin_end(url);
    url.subrange(from, part_end(url, from, false))
}

/// What can be opened in place of the document on screen, given what a path on this
/// machine is.
///
/// Markdown, wherever it is: a file, a directory to list, or a URL. Everything else is
/// for the system: a URL whose path does not name Markdown could be anything, and
/// fetching it to find out would take the click away from the browser that should have
/// it.
pub open spec fn opens(target: Seq<char>, is_dir: bool, is_file: bool) -> Option<OriginV> {
    if target.len() == 0 || text::starts_with(target, "mailto:"@) {
        None
    } else if is_url(target) {
        if names_markdown(url_path(target)) {
            Some(OriginV::Url(target))
        } else {
            None
        }
    } else if text::contains(target, "://"@) {
        None
    } else if is_dir {
        Some(OriginV::Directory(target))
    } else if names_markdown(target) && is_file {
        Some(OriginV::File(target))
    } else {
        None
    }
}

/// The part of a link before its fragment.
pub open spec fn link_target_of(url: Seq<char>) -> Seq<char> {
    url.subrange(0, text::index_of(url, '#', 0))
}

/// A link's fragment, if it has one.
pub open spec fn fragment_of(url: Seq<char>) -> Option<Seq<char>> {
    let i = text::index_of(url, '#', 0);
    if i < url.len() {
        Some(url.subrange(i + 1, url.len() as int))
    } else {
        None
    }
}

/// The part of a link before its fragment.
pub fn link_target(url: &str) -> (r: String)
    ensures
        r@ == link_target_of(url@),
{
    let v = text::chars_of(url);
    text::string_of_range(&v, 0, text::find_char(&v, '#', 0))
}

pub(crate) fn fragment(url: &str) -> (r: Option<String>)
    ensures
        opt_text(r) == fragment_of(url@),
{
    let v = text::chars_of(url);
    let i = text::find_char(&v, '#', 0);
    if i < v.len() {
        Some(text::string_of_range(&v, i + 1, v.len()))
    } else {
        None
    }
}

/// What can be opened in place of the document on screen, given what a path on this
/// machine is.
pub fn openable(target: &str, is_dir: bool, is_file: bool) -> (r: Option<Origin>)
    ensures
        (match r {
            Some(origin) => Some(origin@),
            None => None,
        }) == opens(target@, is_dir, is_file),
{
    if target.is_empty() || text::has_prefix(target, "mailto:") {
        return None;
    }
    match as_url(target) {
        Some(url) => {
            if is_markdown(&path_of(target)) {
                Some(Origin::Url(url))
            } else {
                None
            }
        },
        None => {
            if text::has_sub(target, "://") {
                None
            } else if is_dir {
                Some(Origin::Directory(text::owned(target)))
            } else if is_markdown(target) && is_file {
                Some(Origin::File(text::owned(target)))
            } else {
                None
            }
        },
    }
}

fn path_of(url: &str) -> (r: String)
    ensures
        r@ == url_path(url@),
{
    let v = text::chars_of(url);
    proof {
        reveal_strlit("://");
        text::lemma_find_from(url@, "://"@, 0);
    }
    let start: usize = match text::find_chars(&v, &text::chars_of("://"), 0) {
        Some(i) => {
            assert(i + 3 <= v.len());
            i + 3
        },
        None => 0,
    };
    let from = find_part_end(&v, start, true);
    text::string_of_range(&v, from, find_part_end(&v, from, false))
}

} // verus!
