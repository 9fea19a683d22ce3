//! Enough TeX to read the mathematics in a README.
//!
//! Documents that carry `$x^2$` are not asking for typesetting, they are asking
//! to be read, and `x^2` printed literally is the one thing the terminal can do
//! that a person cannot easily undo in their head. Unicode has the characters
//! for the common cases -- superscripts, roots, Greek, the comparison operators
//! -- so the common cases are translated and everything else is left exactly as
//! it was written.
//!
//! That last part is the whole design. This is not a TeX engine and will not
//! become one: an unknown command, a script that has no Unicode form, a
//! construct with more structure than a line of text can hold, all pass through
//! untouched.
use vstd::prelude::*;

use crate::text;

verus! {

/// How deep a formula may nest before reading stops and copying starts.
pub const MAX_DEPTH: usize = 64;

// --- delimiters -----------------------------------------------------------

/// The index of the delimiter that closes the `depth` groups open at `i`.
pub open spec fn closing(s: Seq<char>, i: int, open: char, close: char, depth: int) -> Option<int>
    decreases s.len() - i,
{
    if i >= s.len() {
        None
    } else if s[i] == open {
        closing(s, i + 1, open, close, depth + 1)
    } else if s[i] == close {
        if depth == 1 {
            Some(i)
        } else {
            closing(s, i + 1, open, close, depth - 1)
        }
    } else {
        closing(s, i + 1, open, close, depth)
    }
}

/// Where the group that opens at `at` closes, if a balanced group opens there.
pub open spec fn group_end(s: Seq<char>, at: int, open: char, close: char) -> Option<int> {
    if 0 <= at < s.len() && s[at] == open {
        closing(s, at + 1, open, close, 1)
    } else {
        None
    }
}

/// The closing brace of the `{...}` at `at`.
pub open spec fn brace(s: Seq<char>, at: int) -> Option<int> {
    group_end(s, at, '{', '}')
}

/// The closing bracket of the `[...]` at `at`, which is how an optional argument is
/// written.
pub open spec fn bracket(s: Seq<char>, at: int) -> Option<int> {
    group_end(s, at, '[', ']')
}

fn delimited(src: &Vec<char>, at: usize, open: char, close: char) -> (r: Option<usize>)
    requires
        open != close,
    ensures
        match r {
            Some(e) => group_end(src@, at as int, open, close) == Some(e as int) && at < e
                < src.len(),
            None => group_end(src@, at as int, open, close) is None,
        },
{
    if at >= src.len() || src[at] != open {
        return None;
    }
    let mut depth: usize = 1;
    let mut i: usize = at + 1;
    while i < src.len()
        invariant
            at < i <= src.len(),
            1 <= depth <= i - at,
            open != close,
            src@[at as int] == open,
            closing(src@, i as int, open, close, depth as int) == group_end(
                src@,
                at as int,
                open,
                close,
            ),
        decreases src.len() - i,
    {
        if src[i] == open {
            depth = depth + 1;
        } else if src[i] == close {
            if depth == 1 {
                return Some(i);
            }
            depth = depth - 1;
        }
        i = i + 1;
    }
    None
}

/// The closing brace of a `{...}` at `at`.
fn group(src: &Vec<char>, at: usize) -> (r: Option<usize>)
    ensures
        match r {
            Some(e) => brace(src@, at as int) == Some(e as int) && at < e < src.len(),
            None => brace(src@, at as int) is None,
        },
{
    delimited(src, at, '{', '}')
}

/// The closing bracket of a `[...]` at `at`.
fn bracketed(src: &Vec<char>, at: usize) -> (r: Option<usize>)
    ensures
        match r {
            Some(e) => bracket(src@, at as int) == Some(e as int) && at < e < src.len(),
            None => bracket(src@, at as int) is None,
        },
{
    delimited(src, at, '[', ']')
}

/// The first position in `at..` that does not hold a space.
pub open spec fn past_spaces(s: Seq<char>, at: int) -> int
    decreases s.len() - at,
{
    if 0 <= at < s.len() && s[at] == ' ' {
        past_spaces(s, at + 1)
    } else {
        at
    }
}

fn skip_spaces(src: &Vec<char>, at: usize) -> (r: usize)
    requires
        at <= src.len(),
    ensures
        r == past_spaces(src@, at as int),
        at <= r <= src.len(),
{
    let mut i: usize = at;
    while i < src.len() && src[i] == ' '
        invariant
            at <= i <= src.len(),
            past_spaces(src@, i as int) == past_spaces(src@, at as int),
        decreases src.len() - i,
    {
        i = i + 1;
    }
    i
}

/// The first position in `at..` that does not hold an ASCII letter.
pub open spec fn past_letters(s: Seq<char>, at: int) -> int
    decreases s.len() - at,
{
    if 0 <= at < s.len() && text::is_ascii_letter(s[at]) {
        past_letters(s, at + 1)
    } else {
        at
    }
}

fn skip_letters(src: &Vec<char>, at: usize) -> (r: usize)
    requires
        at <= src.len(),
    ensures
        r == past_letters(src@, at as int),
        at <= r <= src.len(),
{
    let mut i: usize = at;
    while i < src.len() && text::char_is_ascii_letter(src[i])
        invariant
            at <= i <= src.len(),
            past_letters(src@, i as int) == past_letters(src@, at as int),
        decreases src.len() - i,
    {
        i = i + 1;
    }
    i
}

// --- tables ---------------------------------------------------------------

/// The superscript form of a character, where Unicode has one.
pub open spec fn raised(c: char) -> Option<char> {
    match c {
        '0' => Some('⁰'),
        '1' => Some('¹'),
        '2' => Some('²'),
        '3' => Some('³'),
        '4' => Some('⁴'),
        '5' => Some('⁵'),
        '6' => Some('⁶'),
        '7' => Some('⁷'),
        '8' => Some('⁸'),
        '9' => Some('⁹'),
        '+' => Some('⁺'),
        '-' | '−' => Some('⁻'),
        '=' => Some('⁼'),
        '(' => Some('⁽'),
        ')' => Some('⁾'),
        'n' => Some('ⁿ'),
        'i' => Some('ⁱ'),
        _ => None,
    }
}

/// The subscript form of a character, where Unicode has one.
pub open spec fn lowered(c: char) -> Option<char> {
    match c {
        '0' => Some('₀'),
        '1' => Some('₁'),
        '2' => Some('₂'),
        '3' => Some('₃'),
        '4' => Some('₄'),
        '5' => Some('₅'),
        '6' => Some('₆'),
        '7' => Some('₇'),
        '8' => Some('₈'),
        '9' => Some('₉'),
        '+' => Some('₊'),
        '-' | '−' => Some('₋'),
        '=' => Some('₌'),
        '(' => Some('₍'),
        ')' => Some('₎'),
        'a' => Some('ₐ'),
        'e' => Some('ₑ'),
        'h' => Some('ₕ'),
        'i' => Some('ᵢ'),
        'j' => Some('ⱼ'),
        'k' => Some('ₖ'),
        'l' => Some('ₗ'),
        'm' => Some('ₘ'),
        'n' => Some('ₙ'),
        'o' => Some('ₒ'),
        'p' => Some('ₚ'),
        'r' => Some('ᵣ'),
        's' => Some('ₛ'),
        't' => Some('ₜ'),
        'u' => Some('ᵤ'),
        'v' => Some('ᵥ'),
        'x' => Some('ₓ'),
        _ => None,
    }
}

/// The blackboard form of a letter, for the handful that have one.
pub open spec fn double_struck(c: char) -> Option<char> {
    match c {
        'C' => Some('ℂ'),
        'H' => Some('ℍ'),
        'N' => Some('ℕ'),
        'P' => Some('ℙ'),
        'Q' => Some('ℚ'),
        'R' => Some('ℝ'),
        'Z' => Some('ℤ'),
        _ => None,
    }
}

fn superscript(c: char) -> (r: Option<char>)
    ensures
        r == raised(c),
{
    match c {
        '0' => Some('⁰'),
        '1' => Some('¹'),
        '2' => Some('²'),
        '3' => Some('³'),
        '4' => Some('⁴'),
        '5' => Some('⁵'),
        '6' => Some('⁶'),
        '7' => Some('⁷'),
        '8' => Some('⁸'),
        '9' => Some('⁹'),
        '+' => Some('⁺'),
        '-' | '−' => Some('⁻'),
        '=' => Some('⁼'),
        '(' => Some('⁽'),
        ')' => Some('⁾'),
        'n' => Some('ⁿ'),
        'i' => Some('ⁱ'),
        _ => None,
    }
}

fn subscript(c: char) -> (r: Option<char>)
    ensures
        r == lowered(c),
{
    match c {
        '0' => Some('₀'),
        '1' => Some('₁'),
        '2' => Some('₂'),
        '3' => Some('₃'),
        '4' => Some('₄'),
        '5' => Some('₅'),
        '6' => Some('₆'),
        '7' => Some('₇'),
        '8' => Some('₈'),
        '9' => Some('₉'),
        '+' => Some('₊'),
        '-' | '−' => Some('₋'),
        '=' => Some('₌'),
        '(' => Some('₍'),
        ')' => Some('₎'),
        'a' => Some('ₐ'),
        'e' => Some('ₑ'),
        'h' => Some('ₕ'),
        'i' => Some('ᵢ'),
        'j' => Some('ⱼ'),
        'k' => Some('ₖ'),
        'l' => Some('ₗ'),
        'm' => Some('ₘ'),
        'n' => Some('ₙ'),
        'o' => Some('ₒ'),
        'p' => Some('ₚ'),
        'r' => Some('ᵣ'),
        's' => Some('ₛ'),
        't' => Some('ₜ'),
        'u' => Some('ᵤ'),
        'v' => Some('ᵥ'),
        'x' => Some('ₓ'),
        _ => None,
    }
}

fn blackboard_char(c: char) -> (r: Option<char>)
    ensures
        r == double_struck(c),
{
    match c {
        'C' => Some('ℂ'),
        'H' => Some('ℍ'),
        'N' => Some('ℕ'),
        'P' => Some('ℙ'),
        'Q' => Some('ℚ'),
        'R' => Some('ℝ'),
        'Z' => Some('ℤ'),
        _ => None,
    }
}

/// Fractions with a character of their own, which read better than `1/2`.
#[verifier::opaque]
pub open spec fn vulgar_table() -> [(&'static str, &'static str, &'static str); 15] {
    [
        ("1", "2", "½"),
        ("1", "3", "⅓"),
        ("2", "3", "⅔"),
        ("1", "4", "¼"),
        ("3", "4", "¾"),
        ("1", "5", "⅕"),
        ("2", "5", "⅖"),
        ("3", "5", "⅗"),
        ("4", "5", "⅘"),
        ("1", "6", "⅙"),
        ("5", "6", "⅚"),
        ("1", "8", "⅛"),
        ("3", "8", "⅜"),
        ("5", "8", "⅝"),
        ("7", "8", "⅞"),
    ]
}

fn vulgar_fractions() -> (r: [(&'static str, &'static str, &'static str); 15])
    ensures
        r == vulgar_table(),
{
    proof {
        reveal(vulgar_table);
    }
    [
        ("1", "2", "½"),
        ("1", "3", "⅓"),
        ("2", "3", "⅔"),
        ("1", "4", "¼"),
        ("3", "4", "¾"),
        ("1", "5", "⅕"),
        ("2", "5", "⅖"),
        ("3", "5", "⅗"),
        ("4", "5", "⅘"),
        ("1", "6", "⅙"),
        ("5", "6", "⅚"),
        ("1", "8", "⅛"),
        ("3", "8", "⅜"),
        ("5", "8", "⅝"),
        ("7", "8", "⅞"),
    ]
}

/// The character for a fraction, among the entries of the table from `i` on.
pub open spec fn vulgar_from(n: Seq<char>, d: Seq<char>, i: int) -> Option<Seq<char>>
    decreases 15 - i,
{
    if i >= 15 {
        None
    } else if vulgar_table()[i].0@ == n && vulgar_table()[i].1@ == d {
        Some(vulgar_table()[i].2@)
    } else {
        vulgar_from(n, d, i + 1)
    }
}

/// Commands that are simply a character, sorted by name.
#[verifier::opaque]
pub open spec fn symbol_table() -> [(&'static str, &'static str); 124] {
    [
        ("Delta", "Δ"),
        ("Gamma", "Γ"),
        ("Im", "ℑ"),
        ("Lambda", "Λ"),
        ("Leftarrow", "⇐"),
        ("Leftrightarrow", "⇔"),
        ("Omega", "Ω"),
        ("Phi", "Φ"),
        ("Pi", "Π"),
        ("Psi", "Ψ"),
        ("Re", "ℜ"),
        ("Rightarrow", "⇒"),
        ("Sigma", "Σ"),
        ("Theta", "Θ"),
        ("Upsilon", "Υ"),
        ("Xi", "Ξ"),
        ("aleph", "ℵ"),
        ("alpha", "α"),
        ("angle", "∠"),
        ("approx", "≈"),
        ("ast", "∗"),
        ("beta", "β"),
        ("bullet", "•"),
        ("cap", "∩"),
        ("cdot", "·"),
        ("cdots", "⋯"),
        ("chi", "χ"),
        ("circ", "∘"),
        ("cong", "≅"),
        ("cup", "∪"),
        ("dagger", "†"),
        ("dashv", "⊣"),
        ("ddots", "⋱"),
        ("deg", "°"),
        ("delta", "δ"),
        ("div", "÷"),
        ("dots", "…"),
        ("downarrow", "↓"),
        ("ell", "ℓ"),
        ("emptyset", "∅"),
        ("epsilon", "ε"),
        ("equiv", "≡"),
        ("eta", "η"),
        ("exists", "∃"),
        ("forall", "∀"),
        ("gamma", "γ"),
        ("ge", "≥"),
        ("geq", "≥"),
        ("gg", "≫"),
        ("hbar", "ℏ"),
        ("iff", "⇔"),
        ("in", "∈"),
        ("infty", "∞"),
        ("int", "∫"),
        ("iota", "ι"),
        ("kappa", "κ"),
        ("lambda", "λ"),
        ("land", "∧"),
        ("langle", "⟨"),
        ("lceil", "⌈"),
        ("ldots", "…"),
        ("le", "≤"),
        ("leftarrow", "←"),
        ("leftrightarrow", "↔"),
        ("leq", "≤"),
        ("lfloor", "⌊"),
        ("ll", "≪"),
        ("lor", "∨"),
        ("mapsto", "↦"),
        ("mid", "∣"),
        ("models", "⊨"),
        ("mp", "∓"),
        ("mu", "μ"),
        ("nabla", "∇"),
        ("ne", "≠"),
        ("neg", "¬"),
        ("neq", "≠"),
        ("ni", "∋"),
        ("notin", "∉"),
        ("nu", "ν"),
        ("odot", "⊙"),
        ("oint", "∮"),
        ("omega", "ω"),
        ("oplus", "⊕"),
        ("otimes", "⊗"),
        ("parallel", "∥"),
        ("partial", "∂"),
        ("perp", "⊥"),
        ("phi", "φ"),
        ("pi", "π"),
        ("pm", "±"),
        ("prime", "′"),
        ("prod", "∏"),
        ("propto", "∝"),
        ("psi", "ψ"),
        ("rangle", "⟩"),
        ("rceil", "⌉"),
        ("rfloor", "⌋"),
        ("rho", "ρ"),
        ("rightarrow", "→"),
        ("sigma", "σ"),
        ("sim", "∼"),
        ("simeq", "≃"),
        ("star", "⋆"),
        ("subset", "⊂"),
        ("subseteq", "⊆"),
        ("sum", "∑"),
        ("supset", "⊃"),
        ("supseteq", "⊇"),
        ("tau", "τ"),
        ("theta", "θ"),
        ("times", "×"),
        ("to", "→"),
        ("top", "⊤"),
        ("uparrow", "↑"),
        ("upsilon", "υ"),
        ("varepsilon", "ε"),
        ("varphi", "φ"),
        ("vdash", "⊢"),
        ("vdots", "⋮"),
        ("vee", "∨"),
        ("wedge", "∧"),
        ("xi", "ξ"),
        ("zeta", "ζ"),
    ]
}

/// Commands that are simply a character, sorted by name.
pub fn symbols() -> (r: [(&'static str, &'static str); 124])
    ensures
        r == symbol_table(),
{
    proof {
        reveal(symbol_table);
    }
    [
        ("Delta", "Δ"),
        ("Gamma", "Γ"),
        ("Im", "ℑ"),
        ("Lambda", "Λ"),
        ("Leftarrow", "⇐"),
        ("Leftrightarrow", "⇔"),
        ("Omega", "Ω"),
        ("Phi", "Φ"),
        ("Pi", "Π"),
        ("Psi", "Ψ"),
        ("Re", "ℜ"),
        ("Rightarrow", "⇒"),
        ("Sigma", "Σ"),
        ("Theta", "Θ"),
        ("Upsilon", "Υ"),
        ("Xi", "Ξ"),
        ("aleph", "ℵ"),
        ("alpha", "α"),
        ("angle", "∠"),
        ("approx", "≈"),
        ("ast", "∗"),
        ("beta", "β"),
        ("bullet", "•"),
        ("cap", "∩"),
        ("cdot", "·"),
        ("cdots", "⋯"),
        ("chi", "χ"),
        ("circ", "∘"),
        ("cong", "≅"),
        ("cup", "∪"),
        ("dagger", "†"),
        ("dashv", "⊣"),
        ("ddots", "⋱"),
        ("deg", "°"),
        ("delta", "δ"),
        ("div", "÷"),
        ("dots", "…"),
        ("downarrow", "↓"),
        ("ell", "ℓ"),
        ("emptyset", "∅"),
        ("epsilon", "ε"),
        ("equiv", "≡"),
        ("eta", "η"),
        ("exists", "∃"),
        ("forall", "∀"),
        ("gamma", "γ"),
        ("ge", "≥"),
        ("geq", "≥"),
        ("gg", "≫"),
        ("hbar", "ℏ"),
        ("iff", "⇔"),
        ("in", "∈"),
        ("infty", "∞"),
        ("int", "∫"),
        ("iota", "ι"),
        ("kappa", "κ"),
        ("lambda", "λ"),
        ("land", "∧"),
        ("langle", "⟨"),
        ("lceil", "⌈"),
        ("ldots", "…"),
        ("le", "≤"),
        ("leftarrow", "←"),
        ("leftrightarrow", "↔"),
        ("leq", "≤"),
        ("lfloor", "⌊"),
        ("ll", "≪"),
        ("lor", "∨"),
        ("mapsto", "↦"),
        ("mid", "∣"),
        ("models", "⊨"),
        ("mp", "∓"),
        ("mu", "μ"),
        ("nabla", "∇"),
        ("ne", "≠"),
        ("neg", "¬"),
        ("neq", "≠"),
        ("ni", "∋"),
        ("notin", "∉"),
        ("nu", "ν"),
        ("odot", "⊙"),
        ("oint", "∮"),
        ("omega", "ω"),
        ("oplus", "⊕"),
        ("otimes", "⊗"),
        ("parallel", "∥"),
        ("partial", "∂"),
        ("perp", "⊥"),
        ("phi", "φ"),
        ("pi", "π"),
        ("pm", "±"),
        ("prime", "′"),
        ("prod", "∏"),
        ("propto", "∝"),
        ("psi", "ψ"),
        ("rangle", "⟩"),
        ("rceil", "⌉"),
        ("rfloor", "⌋"),
        ("rho", "ρ"),
        ("rightarrow", "→"),
        ("sigma", "σ"),
        ("sim", "∼"),
        ("simeq", "≃"),
        ("star", "⋆"),
        ("subset", "⊂"),
        ("subseteq", "⊆"),
        ("sum", "∑"),
        ("supset", "⊃"),
        ("supseteq", "⊇"),
        ("tau", "τ"),
        ("theta", "θ"),
        ("times", "×"),
        ("to", "→"),
        ("top", "⊤"),
        ("uparrow", "↑"),
        ("upsilon", "υ"),
        ("varepsilon", "ε"),
        ("varphi", "φ"),
        ("vdash", "⊢"),
        ("vdots", "⋮"),
        ("vee", "∨"),
        ("wedge", "∧"),
        ("xi", "ξ"),
        ("zeta", "ζ"),
    ]
}

/// The character a command stands for, among the entries of the table from `i` on.
pub open spec fn symbol_from(name: Seq<char>, i: int) -> Option<Seq<char>>
    decreases 124 - i,
{
    if i >= 124 {
        None
    } else if symbol_table()[i].0@ == name {
        Some(symbol_table()[i].1@)
    } else {
        symbol_from(name, i + 1)
    }
}

/// The character a command stands for.
pub open spec fn symbol(name: Seq<char>) -> Option<Seq<char>> {
    symbol_from(name, 0)
}

fn find_symbol(name: &str) -> (r: Option<&'static str>)
    ensures
        match r {
            Some(c) => symbol(name@) == Some(c@),
            None => symbol(name@) is None,
        },
{
    let table = symbols();
    let mut i: usize = 0;
    while i < 124
        invariant
            i <= 124,
            table == symbol_table(),
            symbol_from(name@, i as int) == symbol(name@),
        decreases 124 - i,
    {
        if text::same(table[i].0, name) {
            return Some(table[i].1);
        }
        i = i + 1;
    }
    None
}

fn find_vulgar(n: &str, d: &str) -> (r: Option<&'static str>)
    ensures
        match r {
            Some(c) => vulgar_from(n@, d@, 0) == Some(c@),
            None => vulgar_from(n@, d@, 0) is None,
        },
{
    let table = vulgar_fractions();
    let mut i: usize = 0;
    while i < 15
        invariant
            i <= 15,
            table == vulgar_table(),
            vulgar_from(n@, d@, i as int) == vulgar_from(n@, d@, 0),
        decreases 15 - i,
    {
        if text::same(table[i].0, n) && text::same(table[i].1, d) {
            return Some(table[i].2);
        }
        i = i + 1;
    }
    None
}

/// Every character mapped, if every one of them has an image.
pub open spec fn all_mapped(s: Seq<char>, f: spec_fn(char) -> Option<char>) -> Option<Seq<char>>
    decreases s.len(),
{
    if s.len() == 0 {
        Some(Seq::empty())
    } else {
        match (all_mapped(s.drop_last(), f), f(s.last())) {
            (Some(head), Some(c)) => Some(head.push(c)),
            _ => None,
        }
    }
}

// --- fractions ------------------------------------------------------------

/// The characters that make a part of a fraction bind wrongly without brackets.
pub open spec fn is_operator(c: char) -> bool {
    c == '+' || c == '-' || c == '−' || c == '±' || c == '/' || c == '*' || c == '·' || c == '×'
        || c == ' '
}

pub open spec fn has_operator(s: Seq<char>) -> bool {
    exists|i: int| 0 <= i < s.len() && is_operator(#[trigger] s[i])
}

/// A part of a fraction, in brackets where it needs them: `(a+b)/c` is the same
/// fraction as `\\frac{a+b}{c}`, where `a+b/c` is a different one.
pub open spec fn guarded(s: Seq<char>) -> Seq<char> {
    let wrapped = s.len() > 0 && s.first() == '(' && s.last() == ')';
    if has_operator(s) && !wrapped {
        seq!['('] + s + seq![')']
    } else {
        s
    }
}

/// A fraction on one line.
pub open spec fn one_line(n: Seq<char>, d: Seq<char>) -> Seq<char> {
    match vulgar_from(n, d, 0) {
        Some(c) => c,
        None => guarded(n) + seq!['/'] + guarded(d),
    }
}

fn char_is_operator(c: char) -> (r: bool)
    ensures
        r == is_operator(c),
{
    c == '+' || c == '-' || c == '−' || c == '±' || c == '/' || c == '*' || c == '·' || c == '×'
        || c == ' '
}

/// Appends a part of a fraction, in brackets where it would otherwise bind wrongly.
fn wrap_if_compound(part: &Vec<char>, out: &mut Vec<char>)
    ensures
        final(out)@ == old(out)@ + guarded(part@),
{
    let mut compound: bool = false;
    let n: usize = part.len();
    for i in 0..n
        invariant
            n == part@.len(),
            compound == exists|k: int| 0 <= k < i && is_operator(#[trigger] part@[k]),
    {
        if char_is_operator(part[i]) {
            compound = true;
            assert(is_operator(part@[i as int]));
        }
    }
    let wrapped = n > 0 && part[0] == '(' && part[n - 1] == ')';
    if compound && !wrapped {
        out.push('(');
        text::push_all(out, part);
        out.push(')');
        assert(out@ =~= old(out)@ + (seq!['('] + part@ + seq![')']));
    } else {
        text::push_all(out, part);
    }
}

/// Appends a fraction on one line.
fn fraction(numerator: &Vec<char>, denominator: &Vec<char>, out: &mut Vec<char>)
    ensures
        final(out)@ == old(out)@ + one_line(numerator@, denominator@),
{
    let n = text::string_of(numerator);
    let d = text::string_of(denominator);
    match find_vulgar(&n, &d) {
        Some(c) => text::push_text(out, c),
        None => {
            wrap_if_compound(numerator, out);
            out.push('/');
            wrap_if_compound(denominator, out);
            assert(out@ =~= old(out)@ + (guarded(numerator@) + seq!['/'] + guarded(denominator@)));
        },
    }
}

// --- commands -------------------------------------------------------------

/// Past every `{...}` that follows `at` directly.
pub open spec fn past_groups(s: Seq<char>, at: int) -> int
    decreases s.len() - at,
{
    match brace(s, at) {
        Some(e) => if at <= e < s.len() {
            past_groups(s, e + 1)
        } else {
            at
        },
        None => at,
    }
}

/// Past every argument, optional or not, that follows `at` directly.
pub open spec fn past_arguments(s: Seq<char>, at: int) -> int
    decreases s.len() - at,
{
    match bracket(s, at) {
        Some(e) => if at <= e < s.len() {
            past_arguments(s, e + 1)
        } else {
            at
        },
        None => match brace(s, at) {
            Some(e) => if at <= e < s.len() {
                past_arguments(s, e + 1)
            } else {
                at
            },
            None => at,
        },
    }
}

/// Where the command that starts at `start` ends, arguments included.
pub open spec fn command_end(s: Seq<char>, start: int) -> int {
    let name_end = if start + 1 < s.len() && text::is_ascii_letter(s[start + 1]) {
        past_letters(s, start + 1)
    } else if start + 1 < s.len() {
        start + 2
    } else {
        start + 1
    };
    past_arguments(s, name_end)
}

/// A place to carry on reading from, and what has been written so far.
pub struct Progress {
    pub next: int,
    pub out: Seq<char>,
}

/// A command written back exactly as it stands, arguments included.
pub open spec fn kept(s: Seq<char>, start: int, end: int, out: Seq<char>) -> Progress {
    let at = past_groups(s, end);
    Progress { next: at, out: out + s.subrange(start, at) }
}

/// True of the commands that stand for their argument.
pub open spec fn is_font(name: Seq<char>) -> bool {
    name == "text"@ || name == "mathrm"@ || name == "mathbf"@ || name == "mathit"@ || name
        == "mathsf"@ || name == "operatorname"@
}

/// True of the commands that only size the delimiter after them.
pub open spec fn is_sizing(name: Seq<char>) -> bool {
    name == "left"@ || name == "right"@ || name == "big"@ || name == "Big"@ || name == "bigg"@
        || name == "Bigg"@
}

/// A backslash before something that is not a letter: an escape, or a space.
pub open spec fn after_escape(s: Seq<char>, end: int, out: Seq<char>) -> Progress {
    if end >= s.len() {
        Progress { next: end, out: out.push('\\') }
    } else if s[end] == ',' || s[end] == ';' || s[end] == ':' || s[end] == ' ' {
        Progress {
            next: end + 1,
            out: if out.len() > 0 && out.last() == ' ' {
                out
            } else {
                out.push(' ')
            },
        }
    } else if s[end] == '!' {
        Progress { next: end + 1, out }
    } else {
        Progress { next: end + 1, out: out.push(s[end]) }
    }
}

/// What the `\\command` at `start` becomes.
pub open spec fn after_command(s: Seq<char>, start: int, out: Seq<char>, depth: nat) -> Progress
    decreases depth, s.len() - start, 0int,
{
    let end = past_letters(s, start + 1);
    let name = s.subrange(start + 1, end);
    let at = past_spaces(s, end);
    if depth == 0 {
        Progress { next: end, out }
    } else if name == "frac"@ || name == "dfrac"@ || name == "tfrac"@ {
        match brace(s, at) {
            Some(e) => match brace(s, past_spaces(s, e + 1)) {
                Some(f) => Progress {
                    next: f + 1,
                    out: out + one_line(
                        converted(s.subrange(at + 1, e), (depth - 1) as nat),
                        converted(
                            s.subrange(past_spaces(s, e + 1) + 1, f),
                            (depth - 1) as nat,
                        ),
                    ),
                },
                None => kept(s, start, end, out),
            },
            None => kept(s, start, end, out),
        }
    } else if name == "sqrt"@ {
        match bracket(s, at) {
            Some(e) => {
                let index = s.subrange(at + 1, e);
                let body = past_spaces(s, e + 1);
                if index == "3"@ || index == "4"@ {
                    match brace(s, body) {
                        Some(f) => Progress {
                            next: f + 1,
                            out: out.push(
                                if index == "3"@ {
                                    '∛'
                                } else {
                                    '∜'
                                },
                            ) + guarded(converted(s.subrange(body + 1, f), (depth - 1) as nat)),
                        },
                        None => kept(s, start, end, out),
                    }
                } else {
                    kept(s, start, e + 1, out)
                }
            },
            None => match brace(s, at) {
                Some(f) => Progress {
                    next: f + 1,
                    out: out.push('√') + guarded(
                        converted(s.subrange(at + 1, f), (depth - 1) as nat),
                    ),
                },
                None => kept(s, start, end, out),
            },
        }
    } else if name == "mathbb"@ {
        match brace(s, at) {
            Some(e) => {
                let body = s.subrange(at + 1, e);
                Progress {
                    next: e + 1,
                    out: out + match all_mapped(body, |c: char| double_struck(c)) {
                        Some(letters) => letters,
                        None => converted(body, (depth - 1) as nat),
                    },
                }
            },
            None => kept(s, start, end, out),
        }
    } else if is_font(name) {
        match brace(s, at) {
            Some(e) => Progress {
                next: e + 1,
                out: out + converted(s.subrange(at + 1, e), (depth - 1) as nat),
            },
            None => kept(s, start, end, out),
        }
    } else if is_sizing(name) {
        Progress { next: end, out }
    } else if name == "quad"@ || name == "qquad"@ {
        Progress { next: end, out: out.push(' ') }
    } else if name.len() == 0 {
        after_escape(s, end, out)
    } else {
        match symbol(name) {
            Some(c) => Progress { next: end, out: out + c },
            None => kept(s, start, end, out),
        }
    }
}

/// What the script operator at `start` applies to, and where that ends.
pub open spec fn script_body(s: Seq<char>, start: int) -> (Seq<char>, int) {
    let at = start + 1;
    match brace(s, at) {
        Some(e) => (s.subrange(at + 1, e), e + 1),
        None => if at < s.len() && s[at] == '\\' {
            (s.subrange(at, command_end(s, at)), command_end(s, at))
        } else {
            (seq![s[at]], at + 1)
        },
    }
}

/// What a script becomes: the raised or lowered characters if every one exists,
/// the notation it was written in otherwise.
pub open spec fn scripted(op: char, body: Seq<char>) -> Seq<char> {
    let mapped = if op == '^' {
        all_mapped(body, |c: char| raised(c))
    } else {
        all_mapped(body, |c: char| lowered(c))
    };
    match mapped {
        Some(t) => t,
        None => if body.len() > 1 {
            seq![op, '{'] + body + seq!['}']
        } else {
            seq![op] + body
        },
    }
}

/// What the `^` or `_` at `start` becomes.
pub open spec fn after_script(s: Seq<char>, start: int, out: Seq<char>, depth: nat) -> Progress
    decreases depth, s.len() - start, 0int,
{
    if depth == 0 || start + 1 >= s.len() {
        Progress { next: start + 1, out }
    } else {
        let (body, next) = script_body(s, start);
        Progress { next, out: out + scripted(s[start], converted(body, (depth - 1) as nat)) }
    }
}

/// What the character at `i` becomes, with whatever belongs to it.
pub open spec fn after_char(s: Seq<char>, i: int, out: Seq<char>, depth: nat) -> Progress
    decreases depth, s.len() - i, 1int,
{
    if depth == 0 || i >= s.len() {
        Progress { next: i + 1, out }
    } else if s[i] == '\\' {
        after_command(s, i, out, depth)
    } else if s[i] == '^' || s[i] == '_' {
        after_script(s, i, out, depth)
    } else if s[i] == '{' {
        match brace(s, i) {
            Some(e) => Progress {
                next: e + 1,
                out: out + converted(s.subrange(i + 1, e), (depth - 1) as nat),
            },
            None => Progress { next: i + 1, out: out.push('{') },
        }
    } else {
        Progress { next: i + 1, out: out.push(s[i]) }
    }
}

/// Everything from `i` on, converted behind what has been written so far.
pub open spec fn converted_from(s: Seq<char>, i: int, out: Seq<char>, depth: nat) -> Seq<char>
    decreases depth, s.len() - i, 2int,
{
    if i >= s.len() {
        out
    } else {
        let step = after_char(s, i, out, depth);
        if i < step.next <= s.len() {
            converted_from(s, step.next, step.out, depth)
        } else {
            step.out
        }
    }
}

/// A formula in Unicode, read down to `depth` levels of nesting and copied below.
pub open spec fn converted(s: Seq<char>, depth: nat) -> Seq<char>
    decreases depth, s.len() + 1, 0int,
{
    if depth == 0 {
        s
    } else {
        converted_from(s, 0, Seq::empty(), depth)
    }
}

/// True of a formula that holds no notation: no command, script or group.
pub open spec fn is_bare(s: Seq<char>) -> bool {
    forall|i: int|
        0 <= i < s.len() ==> #[trigger] s[i] != '\\' && s[i] != '^' && s[i] != '_' && s[i] != '{'
}

/// A formula without any notation in it is left exactly as it was written.
pub proof fn plain_formulas_are_untouched(s: Seq<char>, depth: nat)
    requires
        is_bare(s),
    ensures
        converted(s, depth) == s,
{
    if depth > 0 {
        assert(s.take(0) =~= Seq::empty());
        lemma_bare_from(s, 0, depth);
    }
}

proof fn lemma_bare_from(s: Seq<char>, i: int, depth: nat)
    requires
        is_bare(s),
        0 <= i <= s.len(),
        depth > 0,
    ensures
        converted_from(s, i, s.take(i), depth) == s,
    decreases s.len() - i,
{
    if i < s.len() {
        assert(s.take(i).push(s[i]) =~= s.take(i + 1));
        assert(after_char(s, i, s.take(i), depth) == (Progress { next: i + 1, out: s.take(i + 1) }));
        lemma_bare_from(s, i + 1, depth);
    } else {
        assert(s.take(i) =~= s);
    }
}

/// Translates the parts of TeX that a line of terminal text can hold.
pub fn to_unicode(source: &str) -> (r: String)
    ensures
        r@ == converted(source@, MAX_DEPTH as nat),
{
    let v = text::chars_of(source);
    text::string_of(&convert(&v, MAX_DEPTH))
}

fn convert(src: &Vec<char>, depth: usize) -> (r: Vec<char>)
    ensures
        r@ == converted(src@, depth as nat),
    decreases depth, src.len() + 1, 0int,
{
    let mut out: Vec<char> = Vec::new();
    if depth == 0 {
        text::push_all(&mut out, src);
        assert(out@ =~= src@);
        return out;
    }
    let mut i: usize = 0;
    while i < src.len()
        invariant
            i <= src.len(),
            depth > 0,
            converted_from(src@, i as int, out@, depth as nat) == converted(src@, depth as nat),
        decreases src.len() - i,
    {
        let ghost before = out@;
        let c = src[i];
        let next: usize;
        if c == '\\' {
            next = command(src, i, &mut out, depth);
        } else if c == '^' || c == '_' {
            next = script(src, i, &mut out, depth);
        } else if c == '{' {
            match group(src, i) {
                Some(e) => {
                    let body = text::chars_range(src, i + 1, e);
                    text::push_all(&mut out, &convert(&body, depth - 1));
                    next = e + 1;
                },
                None => {
                    out.push('{');
                    next = i + 1;
                },
            }
        } else {
            out.push(c);
            next = i + 1;
        }
        assert(after_char(src@, i as int, before, depth as nat) == (Progress {
            next: next as int,
            out: out@,
        }));
        i = next;
    }
    out
}

/// Handles a `\\command`, returning where to carry on from.
fn command(src: &Vec<char>, start: usize, out: &mut Vec<char>, depth: usize) -> (next: usize)
    requires
        start < src.len(),
        depth > 0,
    ensures
        after_command(src@, start as int, old(out)@, depth as nat) == (Progress {
            next: next as int,
            out: final(out)@,
        }),
        start < next <= src.len(),
    decreases depth, src.len() - start, 0int,
{
    let end = skip_letters(src, start + 1);
    let name = text::string_of_range(src, start + 1, end);
    let at = skip_spaces(src, end);
    let ghost before = out@;

    if text::same(&name, "frac") || text::same(&name, "dfrac") || text::same(&name, "tfrac") {
        if let Some(e) = group(src, at) {
            let second = skip_spaces(src, e + 1);
            if let Some(f) = group(src, second) {
                let numerator = convert(&text::chars_range(src, at + 1, e), depth - 1);
                let denominator = convert(&text::chars_range(src, second + 1, f), depth - 1);
                fraction(&numerator, &denominator, out);
                return f + 1;
            }
        }
        return passthrough(src, start, end, out);
    }
    if text::same(&name, "sqrt") {
        let mut sign: char = '√';
        let mut body_at: usize = at;
        // The optional index: \\sqrt[3]{x} is a cube root.
        if let Some(e) = bracketed(src, at) {
            let index = text::string_of_range(src, at + 1, e);
            if text::same(&index, "3") {
                sign = '∛';
            } else if text::same(&index, "4") {
                sign = '∜';
            } else {
                // Any other index has no character of its own, and a root whose
                // index has been dropped is a lie.
                return passthrough(src, start, e + 1, out);
            }
            body_at = skip_spaces(src, e + 1);
        }
        if let Some(f) = group(src, body_at) {
            let body = convert(&text::chars_range(src, body_at + 1, f), depth - 1);
            out.push(sign);
            wrap_if_compound(&body, out);
            return f + 1;
        }
        return passthrough(src, start, end, out);
    }
    if text::same(&name, "mathbb") {
        if let Some(e) = group(src, at) {
            let body = text::chars_range(src, at + 1, e);
            match blackboard(&body) {
                Some(letters) => text::push_all(out, &letters),
                None => text::push_all(out, &convert(&body, depth - 1)),
            }
            return e + 1;
        }
        return passthrough(src, start, end, out);
    }
    if text::same(&name, "text") || text::same(&name, "mathrm") || text::same(&name, "mathbf")
        || text::same(&name, "mathit") || text::same(&name, "mathsf") || text::same(
        &name,
        "operatorname",
    ) {
        if let Some(e) = group(src, at) {
            text::push_all(out, &convert(&text::chars_range(src, at + 1, e), depth - 1));
            return e + 1;
        }
        return passthrough(src, start, end, out);
    }
    // Sizing commands wrap a delimiter that is printed anyway.
    if text::same(&name, "left") || text::same(&name, "right") || text::same(&name, "big")
        || text::same(&name, "Big") || text::same(&name, "bigg") || text::same(&name, "Bigg") {
        return end;
    }
    if text::same(&name, "quad") || text::same(&name, "qquad") {
        out.push(' ');
        return end;
    }
    // A backslash followed by something that is not a letter is an escape or a
    // piece of spacing, and the character itself is the whole command.
    if name.as_str().is_empty() {
        return escape(src, end, out);
    }
    match find_symbol(&name) {
        Some(symbol) => {
            text::push_text(out, symbol);
            end
        },
        None => passthrough(src, start, end, out),
    }
}

fn escape(src: &Vec<char>, end: usize, out: &mut Vec<char>) -> (next: usize)
    requires
        end <= src.len(),
    ensures
        after_escape(src@, end as int, old(out)@) == (Progress {
            next: next as int,
            out: final(out)@,
        }),
        end <= next <= src.len(),
{
    if end >= src.len() {
        out.push('\\');
        return end;
    }
    let c = src[end];
    if c == ',' || c == ';' || c == ':' || c == ' ' {
        // Thin, medium and thick spaces, all of them one space here -- and none at
        // all next to a space that is already written.
        if !(out.len() > 0 && out[out.len() - 1] == ' ') {
            out.push(' ');
        }
    } else if c != '!' {
        out.push(c);
    }
    end + 1
}

/// Writes a command back exactly as it was written, arguments included.
///
/// Keeping the braces matters: `\\begin{pmatrix}` says something, and
/// `\\beginpmatrix` says it worse.
fn passthrough(src: &Vec<char>, start: usize, end: usize, out: &mut Vec<char>) -> (next: usize)
    requires
        start < end <= src.len(),
    ensures
        kept(src@, start as int, end as int, old(out)@) == (Progress {
            next: next as int,
            out: final(out)@,
        }),
        end <= next <= src.len(),
{
    let mut at: usize = end;
    loop
        invariant
            end <= at <= src.len(),
            past_groups(src@, at as int) == past_groups(src@, end as int),
        ensures
            end <= at <= src.len(),
            at == past_groups(src@, end as int),
        decreases src.len() - at,
    {
        match group(src, at) {
            Some(e) => {
                at = e + 1;
            },
            None => {
                break;
            },
        }
    }
    text::push_range(out, src, start, at);
    at
}

/// Handles `^` or `_`, which take a group, a command, or the next character.
fn script(src: &Vec<char>, start: usize, out: &mut Vec<char>, depth: usize) -> (next: usize)
    requires
        start < src.len(),
        src@[start as int] == '^' || src@[start as int] == '_',
        depth > 0,
    ensures
        after_script(src@, start as int, old(out)@, depth as nat) == (Progress {
            next: next as int,
            out: final(out)@,
        }),
        start < next <= src.len(),
    decreases depth, src.len() - start, 0int,
{
    let at: usize = start + 1;
    if at >= src.len() {
        return at;
    }
    let body: Vec<char>;
    let next: usize;
    match group(src, at) {
        Some(e) => {
            body = text::chars_range(src, at + 1, e);
            next = e + 1;
        },
        None => {
            if src[at] == '\\' {
                // A command is a single thing, arguments and all.
                let end = command_extent(src, at);
                body = text::chars_range(src, at, end);
                next = end;
            } else {
                body = text::chars_range(src, at, at + 1);
                next = at + 1;
                assert(body@ =~= seq![src@[at as int]]);
            }
        },
    }
    // Convert first: `x^\\alpha` has a script that is a command.
    let inner = convert(&body, depth - 1);
    let op = src[start];
    let mapped = if op == '^' {
        map_raised(&inner)
    } else {
        map_lowered(&inner)
    };
    match mapped {
        Some(t) => text::push_all(out, &t),
        // No character for it, so keep the notation the author used rather than
        // dropping the distinction between x2 and x².
        None => {
            out.push(op);
            if inner.len() > 1 {
                out.push('{');
                text::push_all(out, &inner);
                out.push('}');
                assert(out@ =~= old(out)@ + (seq![op, '{'] + inner@ + seq!['}']));
            } else {
                text::push_all(out, &inner);
                assert(out@ =~= old(out)@ + (seq![op] + inner@));
            }
        },
    }
    next
}

fn map_raised(v: &Vec<char>) -> (r: Option<Vec<char>>)
    ensures
        match r {
            Some(t) => all_mapped(v@, |c: char| raised(c)) == Some(t@),
            None => all_mapped(v@, |c: char| raised(c)) is None,
        },
{
    let ghost f = |c: char| raised(c);
    let mut out: Vec<char> = Vec::new();
    assert(v@.take(0) =~= Seq::empty());
    for i in 0..v.len()
        invariant
            f == |c: char| raised(c),
            all_mapped(v@.take(i as int), f) == Some(out@),
    {
        assert(v@.take(i + 1).drop_last() =~= v@.take(i as int));
        match superscript(v[i]) {
            Some(c) => out.push(c),
            None => {
                proof {
                    lemma_unmapped(v@, f, i + 1);
                }
                return None;
            },
        }
    }
    assert(v@.take(v@.len() as int) =~= v@);
    Some(out)
}

fn map_lowered(v: &Vec<char>) -> (r: Option<Vec<char>>)
    ensures
        match r {
            Some(t) => all_mapped(v@, |c: char| lowered(c)) == Some(t@),
            None => all_mapped(v@, |c: char| lowered(c)) is None,
        },
{
    let ghost f = |c: char| lowered(c);
    let mut out: Vec<char> = Vec::new();
    assert(v@.take(0) =~= Seq::empty());
    for i in 0..v.len()
        invariant
            f == |c: char| lowered(c),
            all_mapped(v@.take(i as int), f) == Some(out@),
    {
        assert(v@.take(i + 1).drop_last() =~= v@.take(i as int));
        match subscript(v[i]) {
            Some(c) => out.push(c),
            None => {
                proof {
                    lemma_unmapped(v@, f, i + 1);
                }
                return None;
            },
        }
    }
    assert(v@.take(v@.len() as int) =~= v@);
    Some(out)
}

/// `\\mathbb{R}` and the handful of others that have a character.
fn blackboard(v: &Vec<char>) -> (r: Option<Vec<char>>)
    ensures
        match r {
            Some(t) => all_mapped(v@, |c: char| double_struck(c)) == Some(t@),
            None => all_mapped(v@, |c: char| double_struck(c)) is None,
        },
{
    let ghost f = |c: char| double_struck(c);
    let mut out: Vec<char> = Vec::new();
    assert(v@.take(0) =~= Seq::empty());
    for i in 0..v.len()
        invariant
            f == |c: char| double_struck(c),
            all_mapped(v@.take(i as int), f) == Some(out@),
    {
        assert(v@.take(i + 1).drop_last() =~= v@.take(i as int));
        match blackboard_char(v[i]) {
            Some(c) => out.push(c),
            None => {
                proof {
                    lemma_unmapped(v@, f, i + 1);
                }
                return None;
            },
        }
    }
    assert(v@.take(v@.len() as int) =~= v@);
    Some(out)
}

/// A prefix that cannot be mapped spoils the whole.
proof fn lemma_unmapped(s: Seq<char>, f: spec_fn(char) -> Option<char>, i: int)
    requires
        0 <= i <= s.len(),
        all_mapped(s.take(i), f) is None,
    ensures
        all_mapped(s, f) is None,
    decreases s.len(),
{
    if i == s.len() {
        assert(s.take(i) =~= s);
    } else {
        assert(s.drop_last().take(i) =~= s.take(i));
        lemma_unmapped(s.drop_last(), f, i);
    }
}

/// Where the command starting at `start` ends, arguments included.
fn command_extent(src: &Vec<char>, start: usize) -> (r: usize)
    requires
        start < src.len(),
    ensures
        r == command_end(src@, start as int),
        start < r <= src.len(),
{
    let mut end: usize = start + 1;
    if end < src.len() && text::char_is_ascii_letter(src[end]) {
        end = skip_letters(src, end);
    } else if end < src.len() {
        // A command that is one character of punctuation, like `\\,`.
        end = end + 1;
    }
    let ghost name_end = end as int;
    loop
        invariant
            start < end <= src.len(),
            past_arguments(src@, end as int) == past_arguments(src@, name_end),
        ensures
            start < end <= src.len(),
            end == past_arguments(src@, name_end),
        decreases src.len() - end,
    {
        match bracketed(src, end) {
            Some(e) => {
                end = e + 1;
            },
            None => {
                match group(src, end) {
                    Some(e) => {
                        end = e + 1;
                    },
                    None => {
                        break;
                    },
                }
            },
        }
    }
    end
}

// --- what a reader gets -----------------------------------------------------------------

/// How many groups are open after the first `k` characters.
pub open spec fn groups_open(s: Seq<char>, k: int) -> int
    decreases k,
{
    if k <= 0 {
        0
    } else {
        groups_open(s, k - 1) + (if s[k - 1] == '{' {
            1int
        } else if s[k - 1] == '}' {
            -1
        } else {
            0
        })
    }
}

/// True of an argument: every group in it closes, and none that it did not open.
pub open spec fn is_argument(s: Seq<char>) -> bool {
    &&& forall|k: int| 0 <= k <= s.len() ==> #[trigger] groups_open(s, k) >= 0
    &&& groups_open(s, s.len() as int) == 0
}

proof fn lemma_closing(s: Seq<char>, a: Seq<char>, at: int, k: int)
    requires
        is_argument(a),
        0 <= at,
        0 <= k <= a.len(),
        at + a.len() < s.len(),
        s[at + a.len()] == '}',
        s.subrange(at, at + a.len()) == a,
    ensures
        closing(s, at + k, '{', '}', 1 + groups_open(a, k)) == Some(at + a.len()),
    decreases a.len() - k,
{
    assert(groups_open(a, k) >= 0);
    if k < a.len() {
        assert(s.subrange(at, at + a.len())[k] == s[at + k]);
        assert(groups_open(a, k + 1) >= 0);
        lemma_closing(s, a, at, k + 1);
    }
}

/// A group around an argument closes behind it.
proof fn lemma_group(s: Seq<char>, a: Seq<char>, at: int)
    requires
        is_argument(a),
        0 <= at,
        at + 1 + a.len() < s.len(),
        s[at] == '{',
        s[at + 1 + a.len()] == '}',
        s.subrange(at + 1, at + 1 + a.len()) == a,
    ensures
        brace(s, at) == Some(at + 1 + a.len()),
{
    assert(groups_open(a, 0) == 0);
    lemma_closing(s, a, at + 1, 0);
}

/// Characters that are no notation are carried over one by one.
proof fn lemma_carried(s: Seq<char>, i: int, j: int, out: Seq<char>, depth: nat)
    requires
        0 <= i <= j <= s.len(),
        is_bare(s.subrange(i, j)),
        depth > 0,
    ensures
        converted_from(s, i, out, depth) == converted_from(s, j, out + s.subrange(i, j), depth),
    decreases j - i,
{
    if i < j {
        assert(s.subrange(i, j)[0] == s[i]);
        assert forall|k: int| 0 <= k < j - i - 1 implies {
            let c = #[trigger] s.subrange(i + 1, j)[k];
            c != '\\' && c != '^' && c != '_' && c != '{'
        } by {
            assert(s.subrange(i, j)[k + 1] == s.subrange(i + 1, j)[k]);
        }
        lemma_carried(s, i + 1, j, out.push(s[i]), depth);
        assert(out.push(s[i]) + s.subrange(i + 1, j) =~= out + s.subrange(i, j));
        assert(after_char(s, i, out, depth) == (Progress { next: i + 1, out: out.push(s[i]) }));
    } else {
        assert(out + s.subrange(i, j) =~= out);
    }
}

/// A piece of notation between two texts without any.
proof fn lemma_in_place(
    u: Seq<char>,
    m: Seq<char>,
    v: Seq<char>,
    x: Seq<char>,
    depth: nat,
)
    requires
        is_bare(u),
        is_bare(v),
        m.len() > 0,
        depth > 0,
        after_char(u + m + v, u.len() as int, u, depth) == (Progress {
            next: (u.len() + m.len()) as int,
            out: u + x,
        }),
    ensures
        converted(u + m + v, depth) == u + x + v,
{
    let s = u + m + v;
    let i = u.len() as int;
    let j = (u.len() + m.len()) as int;
    assert(s.subrange(0, i) =~= u);
    assert(Seq::<char>::empty() + u =~= u);
    lemma_carried(s, 0, i, Seq::empty(), depth);
    assert(s.subrange(j, s.len() as int) =~= v);
    lemma_carried(s, j, s.len() as int, u + x, depth);
}

/// The signs that bind a part of a fraction less tightly than the bar did.
pub open spec fn binds_loosely(s: Seq<char>) -> bool {
    exists|i: int|
        0 <= i < s.len() && ({
            let c = #[trigger] s[i];
            c == '+' || c == '-' || c == '\u{2212}' || c == '±' || c == '/' || c == '*' || c
                == '·' || c == '×' || c == ' '
        })
}

/// True of text that stands in brackets already.
pub open spec fn in_brackets(s: Seq<char>) -> bool {
    s.len() > 0 && s[0] == '(' && s[s.len() - 1] == ')'
}

/// True of `shown` where it is `part` in a place in which its signs must not bind with
/// what stands around it: in brackets where there are such signs and no brackets yet, and
/// as it is otherwise.
pub open spec fn keeps_together(part: Seq<char>, shown: Seq<char>) -> bool {
    if binds_loosely(part) && !in_brackets(part) {
        shown == seq!['('] + part + seq![')']
    } else {
        shown == part
    }
}

proof fn lemma_guarded(part: Seq<char>)
    ensures
        keeps_together(part, guarded(part)),
{
    if binds_loosely(part) {
        let i = choose|i: int|
            0 <= i < part.len() && ({
                let c = #[trigger] part[i];
                c == '+' || c == '-' || c == '\u{2212}' || c == '±' || c == '/' || c == '*' || c
                    == '·' || c == '×' || c == ' '
            });
        assert(is_operator(part[i]));
    }
    if has_operator(part) {
        let i = choose|i: int| 0 <= i < part.len() && is_operator(#[trigger] part[i]);
        let c = part[i];
        assert(c == '+' || c == '-' || c == '\u{2212}' || c == '±' || c == '/' || c == '*' || c
            == '·' || c == '×' || c == ' ');
        assert(binds_loosely(part));
    }
}

/// A fraction as it is written in a formula.
pub open spec fn frac(command: Seq<char>, a: Seq<char>, b: Seq<char>) -> Seq<char> {
    seq!['\\'] + command + seq!['{'] + a + seq!['}', '{'] + b + seq!['}']
}

proof fn lemma_name(s: Seq<char>, at: int, name: Seq<char>, k: int)
    requires
        0 <= at,
        0 <= k <= name.len(),
        at + name.len() < s.len(),
        s.subrange(at, at + name.len()) == name,
        forall|i: int| 0 <= i < name.len() ==> text::is_ascii_letter(#[trigger] name[i]),
        !text::is_ascii_letter(s[at + name.len()]),
    ensures
        past_letters(s, at + k) == at + name.len(),
    decreases name.len() - k,
{
    if k < name.len() {
        assert(s.subrange(at, at + name.len())[k] == s[at + k]);
        assert(text::is_ascii_letter(name[k]));
        lemma_name(s, at, name, k + 1);
    }
}

/// The two numbers that a fraction character is read as.
pub open spec fn read_vulgar(c: char) -> (char, char) {
    match c {
        '\u{bc}' => ('1', '4'),
        '\u{bd}' => ('1', '2'),
        '\u{be}' => ('3', '4'),
        '\u{2153}' => ('1', '3'),
        '\u{2154}' => ('2', '3'),
        '\u{2155}' => ('1', '5'),
        '\u{2156}' => ('2', '5'),
        '\u{2157}' => ('3', '5'),
        '\u{2158}' => ('4', '5'),
        '\u{2159}' => ('1', '6'),
        '\u{215a}' => ('5', '6'),
        '\u{215b}' => ('1', '8'),
        '\u{215c}' => ('3', '8'),
        '\u{215d}' => ('5', '8'),
        '\u{215e}' => ('7', '8'),
        _ => ('0', '0'),
    }
}

proof fn lemma_vulgar(n: Seq<char>, d: Seq<char>, i: int)
    requires
        0 <= i,
    ensures
        vulgar_from(n, d, i) matches Some(c) ==> stands_for_both(n, d, c),
    decreases 15 - i,
{
    if i < 15 {
        lemma_vulgar(n, d, i + 1);
        let t = vulgar_table()[i];
        if t.0@ == n && t.1@ == d {
            lemma_vulgar_entry(i);
        }
    }
}

/// True of a character that is read as two numbers, one over the other.
pub open spec fn stands_for_both(n: Seq<char>, d: Seq<char>, c: Seq<char>) -> bool {
    c.len() == 1 && n == seq![read_vulgar(c[0]).0] && d == seq![read_vulgar(c[0]).1]
}

proof fn lemma_vulgar_entry(i: int)
    requires
        0 <= i < 15,
    ensures
        stands_for_both(
            vulgar_table()[i].0@,
            vulgar_table()[i].1@,
            vulgar_table()[i].2@,
        ),
{
    reveal(vulgar_table);
    reveal_strlit("1");
    reveal_strlit("2");
    reveal_strlit("3");
    reveal_strlit("4");
    reveal_strlit("5");
    reveal_strlit("6");
    reveal_strlit("7");
    reveal_strlit("8");
    reveal_strlit("½");
    reveal_strlit("⅓");
    reveal_strlit("⅔");
    reveal_strlit("¼");
    reveal_strlit("¾");
    reveal_strlit("⅕");
    reveal_strlit("⅖");
    reveal_strlit("⅗");
    reveal_strlit("⅘");
    reveal_strlit("⅙");
    reveal_strlit("⅚");
    reveal_strlit("⅛");
    reveal_strlit("⅜");
    reveal_strlit("⅝");
    reveal_strlit("⅞");
    let t = vulgar_table()[i];
    assert(t.0@ =~= seq![read_vulgar(t.2@[0]).0]);
    assert(t.1@ =~= seq![read_vulgar(t.2@[0]).1]);
}

/// A fraction is the fraction it was. Written on one line it is its numerator, a slash
/// and its denominator, in this order, each in brackets where it holds a sign that would
/// bind with the slash; or it is a single character that stands for the two. What stands
/// before and behind it stays where it is.
pub proof fn fractions_keep_their_value(
    u: Seq<char>,
    command: Seq<char>,
    a: Seq<char>,
    b: Seq<char>,
    v: Seq<char>,
    depth: nat,
) -> (parts: (Seq<char>, Seq<char>))
    requires
        is_bare(u),
        is_bare(v),
        is_argument(a),
        is_argument(b),
        command == "frac"@ || command == "dfrac"@ || command == "tfrac"@,
        depth > 0,
    ensures
        ({
            let n = converted(a, (depth - 1) as nat);
            let d = converted(b, (depth - 1) as nat);
            let r = converted(u + frac(command, a, b) + v, depth);
            match vulgar_from(n, d, 0) {
                Some(c) => r == u + c + v && stands_for_both(n, d, c),
                None => {
                    &&& keeps_together(n, parts.0)
                    &&& keeps_together(d, parts.1)
                    &&& r == u + (parts.0 + seq!['/'] + parts.1) + v
                },
            }
        }),
{
    let n = converted(a, (depth - 1) as nat);
    let d = converted(b, (depth - 1) as nat);
    lemma_frac(u, command, a, b, v, depth);
    lemma_in_place(u, frac(command, a, b), v, one_line(n, d), depth);
    lemma_guarded(n);
    lemma_guarded(d);
    lemma_vulgar(n, d, 0);
    (guarded(n), guarded(d))
}

/// What is made of a fraction where it stands.
#[verifier::spinoff_prover]
#[verifier::rlimit(40)]
proof fn lemma_frac(
    u: Seq<char>,
    command: Seq<char>,
    a: Seq<char>,
    b: Seq<char>,
    v: Seq<char>,
    depth: nat,
)
    requires
        is_argument(a),
        is_argument(b),
        command == "frac"@ || command == "dfrac"@ || command == "tfrac"@,
        depth > 0,
    ensures
        after_char(u + frac(command, a, b) + v, u.len() as int, u, depth) == (Progress {
            next: (u.len() + frac(command, a, b).len()) as int,
            out: u + one_line(
                converted(a, (depth - 1) as nat),
                converted(b, (depth - 1) as nat),
            ),
        }),
{
    let m = frac(command, a, b);
    let s = u + m + v;
    let i = u.len() as int;
    lemma_frac_letters(command);
    let at = i + 1 + command.len();
    assert(s[i] == m[0]);
    assert(s.subrange(i + 1, at) =~= command);
    assert(s[at] == m[1 + command.len() as int]);
    assert(s[at] == '{');
    lemma_name(s, i + 1, command, 0);
    let e = at + 1 + a.len();
    assert(s[e] == m[e - i] && s[e] == '}');
    assert(s.subrange(at + 1, e) =~= a);
    lemma_group(s, a, at);
    assert(s[e + 1] == m[e + 1 - i] && s[e + 1] == '{');
    let f = e + 2 + b.len();
    assert(s[f] == m[f - i] && s[f] == '}');
    assert(s.subrange(e + 2, f) =~= b);
    lemma_group(s, b, e + 1);
    assert(past_spaces(s, at) == at);
    assert(past_spaces(s, e + 1) == e + 1);
    assert(after_char(s, i, u, depth) == after_command(s, i, u, depth));
}

proof fn lemma_frac_letters(command: Seq<char>)
    requires
        command == "frac"@ || command == "dfrac"@ || command == "tfrac"@,
    ensures
        command.len() > 0,
        forall|i: int| 0 <= i < command.len() ==> text::is_ascii_letter(#[trigger] command[i]),
{
    reveal_strlit("frac");
    reveal_strlit("dfrac");
    reveal_strlit("tfrac");
}

/// A root as it is written in a formula.
pub open spec fn sqrt(a: Seq<char>) -> Seq<char> {
    seq!['\\', 's', 'q', 'r', 't', '{'] + a + seq!['}']
}

/// A root is over what it was over: the sign stands before all of it, in brackets where
/// it would reach over a part only.
#[verifier::spinoff_prover]
pub proof fn roots_keep_their_reach(
    u: Seq<char>,
    a: Seq<char>,
    v: Seq<char>,
    depth: nat,
) -> (body: Seq<char>)
    requires
        is_bare(u),
        is_bare(v),
        is_argument(a),
        depth > 0,
    ensures
        keeps_together(converted(a, (depth - 1) as nat), body),
        converted(u + sqrt(a) + v, depth) == u + (seq!['√'] + body) + v,
{
    let m = sqrt(a);
    let s = u + m + v;
    let i = u.len() as int;
    let body = converted(a, (depth - 1) as nat);
    let name = seq!['s', 'q', 'r', 't'];
    reveal_strlit("frac");
    reveal_strlit("dfrac");
    reveal_strlit("tfrac");
    reveal_strlit("sqrt");
    assert(name =~= "sqrt"@);
    assert("frac"@[0] != name[0]);
    assert("dfrac"@[0] != name[0]);
    assert("tfrac"@[0] != name[0]);
    let at = i + 5;
    assert(s[i] == m[0]);
    assert(s.subrange(i + 1, at) =~= name);
    assert(s[at] == m[5]);
    lemma_name(s, i + 1, name, 0);
    let e = at + 1 + a.len();
    assert(s[e] == m[e - i] && s[e] == '}');
    assert(s.subrange(at + 1, e) =~= a);
    lemma_group(s, a, at);
    assert(past_spaces(s, at) == at);
    lemma_guarded(body);
    let x = seq!['√'] + guarded(body);
    assert(u.push('√') + guarded(body) =~= u + x);
    assert(after_char(s, i, u, depth) == after_command(s, i, u, depth));
    assert(bracket(s, at) is None);
    assert(after_command(s, i, u, depth) == (Progress { next: e + 1, out: u + x }));
    lemma_in_place(u, m, v, x, depth);
    guarded(body)
}

proof fn lemma_all_mapped(s: Seq<char>, f: spec_fn(char) -> Option<char>)
    ensures
        match all_mapped(s, f) {
            Some(t) => t.len() == s.len() && forall|k: int|
                0 <= k < s.len() ==> f(s[k]) == Some(#[trigger] t[k]),
            None => exists|k: int| 0 <= k < s.len() && f(#[trigger] s[k]) is None,
        },
    decreases s.len(),
{
    if s.len() > 0 {
        let d = s.drop_last();
        lemma_all_mapped(d, f);
        match all_mapped(d, f) {
            Some(h) => {
                match f(s.last()) {
                    Some(c) => {
                        let t = h.push(c);
                        assert forall|k: int| 0 <= k < s.len() implies f(s[k]) == Some(
                            #[trigger] t[k],
                        ) by {
                            if k < d.len() {
                                assert(d[k] == s[k]);
                                assert(h[k] == t[k]);
                            }
                        }
                    },
                    None => {
                        assert(f(s[s.len() - 1]) is None);
                    },
                }
            },
            None => {
                let k = choose|k: int| 0 <= k < d.len() && f(#[trigger] d[k]) is None;
                assert(f(s[k]) is None);
            },
        }
    }
}

/// The digit, sign or letter that a raised character is read as.
pub open spec fn read_raised(c: char) -> char {
    match c {
        '\u{2070}' => '0',
        '\u{b9}' => '1',
        '\u{b2}' => '2',
        '\u{b3}' => '3',
        '\u{207a}' => '+',
        '\u{207b}' => '-',
        '\u{207c}' => '=',
        '\u{207d}' => '(',
        '\u{207e}' => ')',
        '\u{207f}' => 'n',
        '\u{2071}' => 'i',
        _ => if '\u{2074}' <= c <= '\u{2079}' {
            (c as int - 0x2070 + '0' as int) as char
        } else {
            c
        },
    }
}

/// The digit, sign or letter that a lowered character is read as.
pub open spec fn read_lowered(c: char) -> char {
    match c {
        '\u{208a}' => '+',
        '\u{208b}' => '-',
        '\u{208c}' => '=',
        '\u{208d}' => '(',
        '\u{208e}' => ')',
        '\u{2090}' => 'a',
        '\u{2091}' => 'e',
        '\u{2092}' => 'o',
        '\u{2093}' => 'x',
        '\u{1d62}' => 'i',
        '\u{1d63}' => 'r',
        '\u{1d64}' => 'u',
        '\u{1d65}' => 'v',
        '\u{2095}' => 'h',
        '\u{2096}' => 'k',
        '\u{2097}' => 'l',
        '\u{2098}' => 'm',
        '\u{2099}' => 'n',
        '\u{209a}' => 'p',
        '\u{209b}' => 's',
        '\u{209c}' => 't',
        '\u{2c7c}' => 'j',
        _ => if '\u{2080}' <= c <= '\u{2089}' {
            (c as int - 0x2080 + '0' as int) as char
        } else {
            c
        },
    }
}

/// A minus sign is read as a hyphen.
pub open spec fn as_typed(c: char) -> char {
    if c == '\u{2212}' {
        '-'
    } else {
        c
    }
}

/// Raised and lowered characters are read as the ones they stand for, so no two of those
/// are written alike. Digits have both forms.
pub proof fn scripts_are_read_back(c: char)
    ensures
        raised(c) matches Some(r) ==> read_raised(r) == as_typed(c) && r != c,
        lowered(c) matches Some(r) ==> read_lowered(r) == as_typed(c) && r != c,
        '0' <= c <= '9' ==> raised(c) is Some && lowered(c) is Some,
{
}

/// A script as it is written in a formula.
pub open spec fn script_source(op: char, a: Seq<char>) -> Seq<char> {
    seq![op, '{'] + a + seq!['}']
}

/// The form of a character in a script.
pub open spec fn script_form(op: char, c: char) -> Option<char> {
    if op == '^' {
        raised(c)
    } else {
        lowered(c)
    }
}

/// The characters of a script, if they all have the form.
pub open spec fn script_chars(op: char, body: Seq<char>) -> Option<Seq<char>> {
    if op == '^' {
        all_mapped(body, |c: char| raised(c))
    } else {
        all_mapped(body, |c: char| lowered(c))
    }
}

proof fn lemma_script_forms(op: char, body: Seq<char>)
    requires
        op == '^' || op == '_',
    ensures
        match script_chars(op, body) {
            Some(t) => {
                &&& t.len() == body.len()
                &&& forall|k: int| 0 <= k < body.len() ==> script_form(op, body[k]) == Some(
                    #[trigger] t[k],
                )
                &&& forall|k: int| 0 <= k < body.len() ==> script_form(op, #[trigger] body[k])
                    is Some
            },
            None => !(forall|k: int|
                0 <= k < body.len() ==> script_form(op, #[trigger] body[k]) is Some),
        },
{
    let f: spec_fn(char) -> Option<char> = if op == '^' {
        |c: char| raised(c)
    } else {
        |c: char| lowered(c)
    };
    lemma_all_mapped(body, f);
    assert(forall|c: char| #[trigger] f(c) == script_form(op, c));
    assert(script_chars(op, body) == all_mapped(body, f));
    match all_mapped(body, f) {
        Some(t) => {
            assert forall|k: int| 0 <= k < body.len() implies script_form(op, body[k]) == Some(
                #[trigger] t[k],
            ) by {
                assert(f(body[k]) == Some(t[k]));
            }
            assert forall|k: int| 0 <= k < body.len() implies script_form(op, #[trigger] body[k])
                is Some by {
                assert(f(body[k]) == Some(t[k]));
            }
        },
        None => {
            let k = choose|k: int| 0 <= k < body.len() && f(#[trigger] body[k]) is None;
            assert(script_form(op, body[k]) is None);
        },
    }
}

/// A script is one character for each that it holds, all of them raised behind `^` and
/// lowered behind `_`, in their order. Where one of them has no such form the notation
/// stays as it was written.
#[verifier::spinoff_prover]
pub proof fn scripts_stay_scripts(u: Seq<char>, op: char, a: Seq<char>, v: Seq<char>, depth: nat)
    -> (shown: Seq<char>)
    requires
        is_bare(u),
        is_bare(v),
        is_argument(a),
        op == '^' || op == '_',
        depth > 0,
    ensures
        converted(u + script_source(op, a) + v, depth) == u + shown + v,
        ({
            let body = converted(a, (depth - 1) as nat);
            if forall|k: int| 0 <= k < body.len() ==> script_form(op, #[trigger] body[k]) is Some {
                shown.len() == body.len() && forall|k: int|
                    0 <= k < body.len() ==> script_form(op, body[k]) == Some(#[trigger] shown[k])
            } else if body.len() > 1 {
                shown == seq![op, '{'] + body + seq!['}']
            } else {
                shown == seq![op] + body
            }
        }),
{
    let m = script_source(op, a);
    let s = u + m + v;
    let i = u.len() as int;
    let body = converted(a, (depth - 1) as nat);
    let e = i + 2 + a.len();
    assert(s[i] == m[0] && s[i + 1] == m[1]);
    assert(s[e] == m[e - i] && s[e] == '}');
    assert(s.subrange(i + 2, e) =~= a);
    lemma_group(s, a, i + 1);
    let x = scripted(op, body);
    assert(after_char(s, i, u, depth) == after_script(s, i, u, depth));
    assert(after_script(s, i, u, depth) == (Progress { next: e + 1, out: u + x }));
    lemma_in_place(u, m, v, x, depth);
    lemma_script_forms(op, body);
    x
}

// --- commands -----------------------------------------------------------------------------------

/// The commands that are simply a character, and the number that Unicode gives it.
#[verifier::opaque]
pub open spec fn character_table() -> [(&'static str, u32); 124] {
    [
        ("Delta", 0x394),
        ("Gamma", 0x393),
        ("Im", 0x2111),
        ("Lambda", 0x39b),
        ("Leftarrow", 0x21d0),
        ("Leftrightarrow", 0x21d4),
        ("Omega", 0x3a9),
        ("Phi", 0x3a6),
        ("Pi", 0x3a0),
        ("Psi", 0x3a8),
        ("Re", 0x211c),
        ("Rightarrow", 0x21d2),
        ("Sigma", 0x3a3),
        ("Theta", 0x398),
        ("Upsilon", 0x3a5),
        ("Xi", 0x39e),
        ("aleph", 0x2135),
        ("alpha", 0x3b1),
        ("angle", 0x2220),
        ("approx", 0x2248),
        ("ast", 0x2217),
        ("beta", 0x3b2),
        ("bullet", 0x2022),
        ("cap", 0x2229),
        ("cdot", 0xb7),
        ("cdots", 0x22ef),
        ("chi", 0x3c7),
        ("circ", 0x2218),
        ("cong", 0x2245),
        ("cup", 0x222a),
        ("dagger", 0x2020),
        ("dashv", 0x22a3),
        ("ddots", 0x22f1),
        ("deg", 0xb0),
        ("delta", 0x3b4),
        ("div", 0xf7),
        ("dots", 0x2026),
        ("downarrow", 0x2193),
        ("ell", 0x2113),
        ("emptyset", 0x2205),
        ("epsilon", 0x3b5),
        ("equiv", 0x2261),
        ("eta", 0x3b7),
        ("exists", 0x2203),
        ("forall", 0x2200),
        ("gamma", 0x3b3),
        ("ge", 0x2265),
        ("geq", 0x2265),
        ("gg", 0x226b),
        ("hbar", 0x210f),
        ("iff", 0x21d4),
        ("in", 0x2208),
        ("infty", 0x221e),
        ("int", 0x222b),
        ("iota", 0x3b9),
        ("kappa", 0x3ba),
        ("lambda", 0x3bb),
        ("land", 0x2227),
        ("langle", 0x27e8),
        ("lceil", 0x2308),
        ("ldots", 0x2026),
        ("le", 0x2264),
        ("leftarrow", 0x2190),
        ("leftrightarrow", 0x2194),
        ("leq", 0x2264),
        ("lfloor", 0x230a),
        ("ll", 0x226a),
        ("lor", 0x2228),
        ("mapsto", 0x21a6),
        ("mid", 0x2223),
        ("models", 0x22a8),
        ("mp", 0x2213),
        ("mu", 0x3bc),
        ("nabla", 0x2207),
        ("ne", 0x2260),
        ("neg", 0xac),
        ("neq", 0x2260),
        ("ni", 0x220b),
        ("notin", 0x2209),
        ("nu", 0x3bd),
        ("odot", 0x2299),
        ("oint", 0x222e),
        ("omega", 0x3c9),
        ("oplus", 0x2295),
        ("otimes", 0x2297),
        ("parallel", 0x2225),
        ("partial", 0x2202),
        ("perp", 0x22a5),
        ("phi", 0x3c6),
        ("pi", 0x3c0),
        ("pm", 0xb1),
        ("prime", 0x2032),
        ("prod", 0x220f),
        ("propto", 0x221d),
        ("psi", 0x3c8),
        ("rangle", 0x27e9),
        ("rceil", 0x2309),
        ("rfloor", 0x230b),
        ("rho", 0x3c1),
        ("rightarrow", 0x2192),
        ("sigma", 0x3c3),
        ("sim", 0x223c),
        ("simeq", 0x2243),
        ("star", 0x22c6),
        ("subset", 0x2282),
        ("subseteq", 0x2286),
        ("sum", 0x2211),
        ("supset", 0x2283),
        ("supseteq", 0x2287),
        ("tau", 0x3c4),
        ("theta", 0x3b8),
        ("times", 0xd7),
        ("to", 0x2192),
        ("top", 0x22a4),
        ("uparrow", 0x2191),
        ("upsilon", 0x3c5),
        ("varepsilon", 0x3b5),
        ("varphi", 0x3c6),
        ("vdash", 0x22a2),
        ("vdots", 0x22ee),
        ("vee", 0x2228),
        ("wedge", 0x2227),
        ("xi", 0x3be),
        ("zeta", 0x3b6),
    ]
}

proof fn lemma_characters_0(i: int)
    requires
        0 <= i < 31,
    ensures
        symbol_table()[i].0 == character_table()[i].0,
        symbol_table()[i].1@ == seq![character_table()[i].1 as char],
{
    reveal(symbol_table);
    reveal(character_table);
    reveal_strlit("·");
    reveal_strlit("Γ");
    reveal_strlit("Δ");
    reveal_strlit("Θ");
    reveal_strlit("Λ");
    reveal_strlit("Ξ");
    reveal_strlit("Π");
    reveal_strlit("Σ");
    reveal_strlit("Υ");
    reveal_strlit("Φ");
    reveal_strlit("Ψ");
    reveal_strlit("Ω");
    reveal_strlit("α");
    reveal_strlit("β");
    reveal_strlit("χ");
    reveal_strlit("†");
    reveal_strlit("•");
    reveal_strlit("ℑ");
    reveal_strlit("ℜ");
    reveal_strlit("ℵ");
    reveal_strlit("⇐");
    reveal_strlit("⇒");
    reveal_strlit("⇔");
    reveal_strlit("∗");
    reveal_strlit("∘");
    reveal_strlit("∠");
    reveal_strlit("∩");
    reveal_strlit("∪");
    reveal_strlit("≅");
    reveal_strlit("≈");
    reveal_strlit("⋯");
    assert(symbol_table()[i].1@ =~= seq![character_table()[i].1 as char]);
}

proof fn lemma_characters_1(i: int)
    requires
        31 <= i < 62,
    ensures
        symbol_table()[i].0 == character_table()[i].0,
        symbol_table()[i].1@ == seq![character_table()[i].1 as char],
{
    reveal(symbol_table);
    reveal(character_table);
    reveal_strlit("°");
    reveal_strlit("÷");
    reveal_strlit("γ");
    reveal_strlit("δ");
    reveal_strlit("ε");
    reveal_strlit("η");
    reveal_strlit("ι");
    reveal_strlit("κ");
    reveal_strlit("λ");
    reveal_strlit("…");
    reveal_strlit("ℏ");
    reveal_strlit("ℓ");
    reveal_strlit("↓");
    reveal_strlit("⇔");
    reveal_strlit("∀");
    reveal_strlit("∃");
    reveal_strlit("∅");
    reveal_strlit("∈");
    reveal_strlit("∞");
    reveal_strlit("∧");
    reveal_strlit("∫");
    reveal_strlit("≡");
    reveal_strlit("≤");
    reveal_strlit("≥");
    reveal_strlit("≫");
    reveal_strlit("⊣");
    reveal_strlit("⋱");
    reveal_strlit("⌈");
    reveal_strlit("⟨");
    assert(symbol_table()[i].1@ =~= seq![character_table()[i].1 as char]);
}

proof fn lemma_characters_2(i: int)
    requires
        62 <= i < 93,
    ensures
        symbol_table()[i].0 == character_table()[i].0,
        symbol_table()[i].1@ == seq![character_table()[i].1 as char],
{
    reveal(symbol_table);
    reveal(character_table);
    reveal_strlit("¬");
    reveal_strlit("±");
    reveal_strlit("μ");
    reveal_strlit("ν");
    reveal_strlit("π");
    reveal_strlit("φ");
    reveal_strlit("ω");
    reveal_strlit("′");
    reveal_strlit("←");
    reveal_strlit("↔");
    reveal_strlit("↦");
    reveal_strlit("∂");
    reveal_strlit("∇");
    reveal_strlit("∉");
    reveal_strlit("∋");
    reveal_strlit("∏");
    reveal_strlit("∓");
    reveal_strlit("∣");
    reveal_strlit("∥");
    reveal_strlit("∨");
    reveal_strlit("∮");
    reveal_strlit("≠");
    reveal_strlit("≤");
    reveal_strlit("≪");
    reveal_strlit("⊕");
    reveal_strlit("⊗");
    reveal_strlit("⊙");
    reveal_strlit("⊥");
    reveal_strlit("⊨");
    reveal_strlit("⌊");
    assert(symbol_table()[i].1@ =~= seq![character_table()[i].1 as char]);
}

proof fn lemma_characters_3(i: int)
    requires
        93 <= i < 124,
    ensures
        symbol_table()[i].0 == character_table()[i].0,
        symbol_table()[i].1@ == seq![character_table()[i].1 as char],
{
    reveal(symbol_table);
    reveal(character_table);
    reveal_strlit("×");
    reveal_strlit("ε");
    reveal_strlit("ζ");
    reveal_strlit("θ");
    reveal_strlit("ξ");
    reveal_strlit("ρ");
    reveal_strlit("σ");
    reveal_strlit("τ");
    reveal_strlit("υ");
    reveal_strlit("φ");
    reveal_strlit("ψ");
    reveal_strlit("↑");
    reveal_strlit("→");
    reveal_strlit("∑");
    reveal_strlit("∝");
    reveal_strlit("∧");
    reveal_strlit("∨");
    reveal_strlit("∼");
    reveal_strlit("≃");
    reveal_strlit("⊂");
    reveal_strlit("⊃");
    reveal_strlit("⊆");
    reveal_strlit("⊇");
    reveal_strlit("⊢");
    reveal_strlit("⊤");
    reveal_strlit("⋆");
    reveal_strlit("⋮");
    reveal_strlit("⌉");
    reveal_strlit("⌋");
    reveal_strlit("⟩");
    assert(symbol_table()[i].1@ =~= seq![character_table()[i].1 as char]);
}

/// A command is the character that Unicode has under its number.
pub proof fn commands_are_their_characters(i: int)
    requires
        0 <= i < 124,
    ensures
        symbol_table()[i].0 == character_table()[i].0,
        symbol_table()[i].1@ == seq![character_table()[i].1 as char],
{
    if i < 31 {
        lemma_characters_0(i);
    } else if i < 62 {
        lemma_characters_1(i);
    } else if i < 93 {
        lemma_characters_2(i);
    } else {
        lemma_characters_3(i);
    }
}

/// True of a name made of letters that is none of the commands with arguments or effects
/// of their own.
pub open spec fn is_ordinary(name: Seq<char>) -> bool {
    &&& name.len() > 0
    &&& forall|i: int| 0 <= i < name.len() ==> text::is_ascii_letter(#[trigger] name[i])
    &&& name != "frac"@ && name != "dfrac"@ && name != "tfrac"@ && name != "sqrt"@ && name
        != "mathbb"@
    &&& !is_font(name) && !is_sizing(name) && name != "quad"@ && name != "qquad"@
}

/// A command that is simply a character becomes that character, and one that is not known
/// stays exactly as it was written. What stands before and behind it stays where it is.
#[verifier::spinoff_prover]
pub proof fn ordinary_commands(u: Seq<char>, name: Seq<char>, v: Seq<char>, depth: nat)
    requires
        is_bare(u),
        is_bare(v),
        is_ordinary(name),
        v.len() > 0 ==> !text::is_ascii_letter(v[0]),
        depth > 0,
    ensures
        ({
            let r = converted(u + (seq!['\\'] + name) + v, depth);
            match symbol(name) {
                Some(c) => r == u + c + v,
                None => r == u + (seq!['\\'] + name) + v,
            }
        }),
{
    let m = seq!['\\'] + name;
    let s = u + m + v;
    let i = u.len() as int;
    let end = i + 1 + name.len();
    assert(s[i] == m[0]);
    assert(s.subrange(i + 1, end) =~= name);
    lemma_letters(s, i + 1, name, 0);
    assert(after_char(s, i, u, depth) == after_command(s, i, u, depth));
    match symbol(name) {
        Some(c) => {
            lemma_in_place(u, m, v, c, depth);
        },
        None => {
            assert(brace(s, end) is None) by {
                if end < s.len() {
                    assert(s[end] == v[0]);
                }
            }
            assert(past_groups(s, end) == end);
            assert(s.subrange(i, end) =~= m);
            lemma_in_place(u, m, v, m, depth);
        },
    }
}

/// Letters up to a place that holds none.
proof fn lemma_letters(s: Seq<char>, at: int, name: Seq<char>, k: int)
    requires
        0 <= at,
        0 <= k <= name.len(),
        at + name.len() <= s.len(),
        s.subrange(at, at + name.len()) == name,
        forall|i: int| 0 <= i < name.len() ==> text::is_ascii_letter(#[trigger] name[i]),
        at + name.len() < s.len() ==> !text::is_ascii_letter(s[at + name.len()]),
    ensures
        past_letters(s, at + k) == at + name.len(),
    decreases name.len() - k,
{
    if k < name.len() {
        assert(s.subrange(at, at + name.len())[k] == s[at + k]);
        assert(text::is_ascii_letter(name[k]));
        lemma_letters(s, at, name, k + 1);
    }
}

/// A group of its own is what it holds: its braces are not shown.
pub proof fn groups_are_what_they_hold(u: Seq<char>, a: Seq<char>, v: Seq<char>, depth: nat)
    requires
        is_bare(u),
        is_bare(v),
        is_argument(a),
        depth > 0,
    ensures
        converted(u + (seq!['{'] + a + seq!['}']) + v, depth) == u + converted(
            a,
            (depth - 1) as nat,
        ) + v,
{
    let m = seq!['{'] + a + seq!['}'];
    let s = u + m + v;
    let i = u.len() as int;
    let e = i + 1 + a.len();
    assert(s[i] == m[0]);
    assert(s[e] == m[e - i] && s[e] == '}');
    assert(s.subrange(i + 1, e) =~= a);
    lemma_group(s, a, i);
    let x = converted(a, (depth - 1) as nat);
    assert(after_char(s, i, u, depth) == (Progress { next: e + 1, out: u + x }));
    lemma_in_place(u, m, v, x, depth);
}

/// Text in another font is what it holds, in the only font there is.
#[verifier::spinoff_prover]
pub proof fn fonts_are_what_they_hold(
    u: Seq<char>,
    name: Seq<char>,
    a: Seq<char>,
    v: Seq<char>,
    depth: nat,
)
    requires
        is_bare(u),
        is_bare(v),
        is_argument(a),
        depth > 0,
        name == "text"@ || name == "mathrm"@ || name == "mathbf"@ || name == "mathit"@ || name
            == "mathsf"@ || name == "operatorname"@,
    ensures
        converted(u + (seq!['\\'] + name + seq!['{'] + a + seq!['}']) + v, depth) == u
            + converted(a, (depth - 1) as nat) + v,
{
    reveal_strlit("text");
    reveal_strlit("mathrm");
    reveal_strlit("mathbf");
    reveal_strlit("mathit");
    reveal_strlit("mathsf");
    reveal_strlit("operatorname");
    reveal_strlit("frac");
    reveal_strlit("dfrac");
    reveal_strlit("tfrac");
    reveal_strlit("sqrt");
    reveal_strlit("mathbb");
    let m = seq!['\\'] + name + seq!['{'] + a + seq!['}'];
    let s = u + m + v;
    let i = u.len() as int;
    let at = i + 1 + name.len();
    assert(s[i] == m[0]);
    assert(s.subrange(i + 1, at) =~= name);
    assert(s[at] == m[1 + name.len() as int] && s[at] == '{');
    lemma_name(s, i + 1, name, 0);
    let e = at + 1 + a.len();
    assert(s[e] == m[e - i] && s[e] == '}');
    assert(s.subrange(at + 1, e) =~= a);
    lemma_group(s, a, at);
    assert(past_spaces(s, at) == at);
    assert(name != "frac"@ && name != "dfrac"@ && name != "tfrac"@ && name != "sqrt"@) by {
        assert("frac"@[1] != name[1] || "frac"@.len() != name.len() || "frac"@[0] != name[0]);
        assert("dfrac"@[0] != name[0]);
        assert("sqrt"@[0] != name[0]);
        assert("tfrac"@.len() != name.len() || "tfrac"@[0] != name[0]);
    }
    assert(name != "mathbb"@) by {
        if name == "mathbb"@ {
            assert(name[4] == 'b' && name[5] == 'b');
            assert("mathrm"@[5] == 'm' && "mathbf"@[5] == 'f' && "mathit"@[5] == 't' && "mathsf"@[5]
                == 'f');
        }
    }
    let x = converted(a, (depth - 1) as nat);
    assert(after_char(s, i, u, depth) == after_command(s, i, u, depth));
    assert(after_command(s, i, u, depth) == (Progress { next: e + 1, out: u + x }));
    lemma_in_place(u, m, v, x, depth);
}

/// A script of one character needs no braces.
#[verifier::spinoff_prover]
pub proof fn short_scripts_stay_scripts(u: Seq<char>, op: char, c: char, v: Seq<char>, depth: nat)
    requires
        is_bare(u),
        is_bare(v),
        op == '^' || op == '_',
        is_bare(seq![c]),
        depth > 0,
    ensures
        converted(u + seq![op, c] + v, depth) == u + (match script_form(op, c) {
            Some(f) => seq![f],
            None => seq![op, c],
        }) + v,
{
    let m = seq![op, c];
    let s = u + m + v;
    let i = u.len() as int;
    let one = seq![c];
    assert(s[i] == m[0] && s[i + 1] == m[1]);
    assert(one[0] == c);
    assert(brace(s, i + 1) is None);
    plain_formulas_are_untouched(one, (depth - 1) as nat);
    let x = scripted(op, one);
    assert(after_char(s, i, u, depth) == after_script(s, i, u, depth));
    assert(after_script(s, i, u, depth) == (Progress { next: i + 2, out: u + x }));
    lemma_in_place(u, m, v, x, depth);
    lemma_script_forms(op, one);
    match script_form(op, c) {
        Some(f) => {
            assert(forall|k: int| 0 <= k < one.len() ==> script_form(op, #[trigger] one[k]) is Some);
            assert(script_chars(op, one) is Some);
            assert(x =~= seq![f]);
        },
        None => {
            assert(script_form(op, one[0]) is None);
            assert(script_chars(op, one) is None) by {
                if script_chars(op, one) is Some {
                    assert(script_form(op, one[0]) is Some);
                }
            }
            assert(x =~= seq![op, c]);
        },
    }
}

} // verus!
