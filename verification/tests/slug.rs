//! Heading slugs.
use termmd::markdown::{slugify, Slugger};

#[test]
fn matches_github_slug_rules() {
    assert_eq!(slugify("Hello, World!"), "hello-world");
    assert_eq!(slugify("  Spaced   Out  "), "spaced-out");
    assert_eq!(
        slugify("snake_case and kebab-case"),
        "snake_case-and-kebab-case"
    );
    assert_eq!(slugify("C++ vs C#"), "c-vs-c");
    assert_eq!(slugify("Ünïcödé Ok"), "ünïcödé-ok");
}

#[test]
fn repeated_headings_get_suffixes() {
    let mut s = Slugger::new();
    assert_eq!(s.slug("Usage"), "usage");
    assert_eq!(s.slug("Usage"), "usage-1");
    assert_eq!(s.slug("Usage"), "usage-2");
}

#[test]
fn a_heading_that_looks_numbered_gets_a_slug_of_its_own() {
    let mut s = Slugger::new();
    assert_eq!(s.slug("Usage"), "usage");
    assert_eq!(s.slug("Usage"), "usage-1");
    assert_eq!(s.slug("Usage 1"), "usage-1-1");
    assert_eq!(s.slug("Usage"), "usage-2");
    let mut s = Slugger::new();
    assert_eq!(s.slug("Usage 1"), "usage-1");
    assert_eq!(s.slug("Usage"), "usage");
    assert_eq!(s.slug("Usage"), "usage-2");
}

#[test]
fn slugs_are_their_own_slugs() {
    for text in ["-- A_b  C! --", "Release 1.2.3", "___", "- - -"] {
        let once = slugify(text);
        assert_eq!(slugify(&once), once);
        assert!(!once.starts_with('-') && !once.ends_with('-'));
    }
    assert_eq!(slugify("-- A_b  C! --"), "a_b-c");
}
