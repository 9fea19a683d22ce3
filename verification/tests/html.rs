//! Raw HTML, reduced to what can be shown.
use termmd::markdown::html::{attr, decode_entities, simplify, HtmlPiece};

#[test]
fn extracts_images_from_html_blocks() {
    let pieces =
        simplify(r#"<p align="center"><img src="logo.png" alt="Logo" width="100"></p>"#);
    assert!(
        matches!(&pieces[0], HtmlPiece::Image(i) if i.url == "logo.png" && i.alt == "Logo")
    );
}

#[test]
fn does_not_confuse_similar_attributes() {
    assert_eq!(
        attr(r#"img data-src="a.png" src="b.png""#, "src"),
        Some("b.png".into())
    );
    assert_eq!(attr(r#"img data-src="a.png""#, "src"), None);
}

#[test]
fn br_becomes_a_break() {
    let pieces = simplify("one<br/>two");
    assert_eq!(pieces[0], HtmlPiece::Text("one".into()));
    assert_eq!(pieces[1], HtmlPiece::Break);
    assert_eq!(pieces[2], HtmlPiece::Text("two".into()));
}

#[test]
fn keeps_prose_and_drops_tags() {
    let pieces = simplify("<div><b>bold</b> text</div>");
    assert_eq!(pieces[0], HtmlPiece::Text("bold text".into()));
}

#[test]
fn discards_script_contents() {
    let pieces = simplify("<script>alert('x')</script>keep");
    assert_eq!(pieces, vec![HtmlPiece::Text("keep".into())]);
}

#[test]
fn summary_is_kept_separately() {
    let pieces = simplify("<details><summary>Click me</summary>body</details>");
    assert_eq!(pieces[0], HtmlPiece::Summary("Click me".into()));
    assert_eq!(pieces[1], HtmlPiece::Text("body".into()));
}

#[test]
fn decodes_entities() {
    assert_eq!(
        decode_entities("a &amp; b &lt;c&gt; &#8212; &#x2014;"),
        "a & b <c> — —"
    );
    assert_eq!(decode_entities("100% & rising"), "100% & rising");
}

#[test]
fn a_numeric_entity_may_have_a_plus_sign() {
    assert_eq!(decode_entities("&#+65; &#x+41;"), "A A");
    assert_eq!(decode_entities("&#++65; &#-65;"), "&#++65; &#-65;");
}
