//! Formulas in Unicode.
use termmd::render::math::{symbols, to_unicode};

#[test]
fn the_symbol_table_is_sorted() {
    assert!(
        symbols().windows(2).all(|w| w[0].0 < w[1].0),
        "the table must be sorted for the binary search to work"
    );
}

#[test]
fn scripts_become_scripts() {
    assert_eq!(to_unicode("E = mc^2"), "E = mc²");
    assert_eq!(to_unicode("x^{10}"), "x¹⁰");
    assert_eq!(to_unicode("a_1 + a_2"), "a₁ + a₂");
    assert_eq!(to_unicode("x^{-1}"), "x⁻¹");
    assert_eq!(to_unicode("H_2O"), "H₂O");
}

#[test]
fn a_script_can_be_a_command() {
    // The whole command belongs to the script. Taking only the backslash
    // left the name as text and dropped the braces from what came after,
    // turning a half into `\frac12`.
    assert_eq!(to_unicode(r"x^\alpha"), "x^α");
    assert_eq!(to_unicode(r"y^\frac{1}{2}"), "y^½");
    assert_eq!(to_unicode(r"z_\beta"), "z_β");
    assert_eq!(to_unicode(r"e^{\alpha x}"), "e^{α x}");
    // Two characters, so the braces stay: x^√2 would read as x to the
    // power of a root sign.
    assert_eq!(to_unicode(r"x^\sqrt{2}"), "x^{√2}");
    // The text after the script is still text.
    assert_eq!(to_unicode(r"x^\alpha + 1"), "x^α + 1");
}

#[test]
fn a_script_with_no_character_keeps_its_notation() {
    // No superscript 'q', and 'x^q' is clearer than 'xq'.
    assert_eq!(to_unicode("x^q"), "x^q");
    assert_eq!(to_unicode("x^{qq}"), "x^{qq}");
    assert_eq!(to_unicode("x_{yz}"), "x_{yz}");
}

#[test]
fn symbols_and_greek() {
    assert_eq!(to_unicode(r"\alpha + \beta \leq \gamma"), "α + β ≤ γ");
    assert_eq!(to_unicode(r"\sum_{i=1}^{n} x_i"), "∑ᵢ₌₁ⁿ xᵢ");
    assert_eq!(to_unicode(r"a \times b \neq c"), "a × b ≠ c");
    assert_eq!(to_unicode(r"\infty"), "∞");
}

#[test]
fn fractions_are_written_on_one_line() {
    assert_eq!(to_unicode(r"\frac{a}{b}"), "a/b");
    assert_eq!(to_unicode(r"\frac{a+b}{c}"), "(a+b)/c");
    assert_eq!(to_unicode(r"\frac{dx}{dt}"), "dx/dt");
    assert_eq!(to_unicode(r"\frac{1}{2}"), "½");
    assert_eq!(to_unicode(r"\frac{3}{4} \pi"), "¾ π");
}

#[test]
fn roots_keep_their_index() {
    assert_eq!(to_unicode(r"\sqrt{2}"), "√2");
    assert_eq!(to_unicode(r"\sqrt{a+b}"), "√(a+b)");
    assert_eq!(to_unicode(r"\sqrt[3]{x}"), "∛x");
    // A fifth root has no sign, so nothing is claimed about it.
    assert_eq!(to_unicode(r"\sqrt[5]{x}"), r"\sqrt[5]{x}");
}

#[test]
fn unknown_commands_pass_through() {
    assert_eq!(
        to_unicode(r"\begin{pmatrix} a \end{pmatrix}"),
        r"\begin{pmatrix} a \end{pmatrix}"
    );
    assert_eq!(to_unicode(r"\unheardof{x}"), r"\unheardof{x}");
}

#[test]
fn math_nesting_has_a_floor() {
    // Groups recurse, and a formula is a string rather than part of the
    // document tree, so it needs a floor of its own.
    let deep = format!("{}a{}", "{".repeat(50_000), "}".repeat(50_000));
    let out = to_unicode(&deep);
    assert!(out.contains('a'), "the contents are still there");
    assert!(out.contains('{'), "past the floor it is copied as written");
}

#[test]
fn plain_text_is_untouched() {
    assert_eq!(to_unicode("f(x) = 2x + 1"), "f(x) = 2x + 1");
    assert_eq!(to_unicode(""), "");
}

#[test]
fn sizing_and_spacing_disappear() {
    assert_eq!(to_unicode(r"\left( x \right)"), "( x )");
    assert_eq!(to_unicode(r"a \, b"), "a  b");
    assert_eq!(to_unicode(r"a\,b"), "a b");
}

#[test]
fn sets_and_text_come_through() {
    assert_eq!(to_unicode(r"x \in \mathbb{R}"), "x ∈ ℝ");
    assert_eq!(to_unicode(r"\text{if } x > 0"), "if  x > 0");
    // Not a blackboard letter, so the contents are kept as they are.
    assert_eq!(to_unicode(r"\mathbb{W}"), "W");
}

#[test]
fn an_unbalanced_brace_is_just_a_brace() {
    assert_eq!(to_unicode("{a"), "{a");
    assert_eq!(to_unicode("a}"), "a}");
    assert_eq!(to_unicode(r"\frac{a"), r"\frac{a");
}

#[test]
fn escaped_punctuation_survives() {
    assert_eq!(to_unicode(r"\{a\}"), "{a}");
    assert_eq!(to_unicode(r"50\%"), "50%");
}
