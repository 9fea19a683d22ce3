//! Bytes and text: UTF-8, base64 and percent-encoding.
use base64::Engine as _;
use vstd::prelude::*;
use vstd::utf8::{decode_utf8, encode_utf8, valid_utf8};

verus! {

// --- UTF-8 ------------------------------------------------------------------------

/// What `String::from_utf8_lossy` makes of some bytes.
pub uninterp spec fn utf8_lossy(bytes: Seq<u8>) -> Seq<char>;

/// `String::from_utf8_lossy`: the text that the bytes hold. Bytes that are valid UTF-8
/// are decoded; elsewhere replacement characters stand in for what is not, and what
/// they replace is left to the name.
#[verifier::external_body]
pub(crate) fn from_utf8_lossy(bytes: &[u8]) -> (r: String)
    ensures
        r@ == utf8_lossy(bytes@),
        valid_utf8(bytes@) ==> r@ == decode_utf8(bytes@),
{
    String::from_utf8_lossy(bytes).into_owned()
}

/// `String::from_utf8`: the text that the bytes encode, if they are valid UTF-8.
#[verifier::external_body]
pub(crate) fn from_utf8(bytes: Vec<u8>) -> (r: Option<String>)
    ensures
        r.is_some() == valid_utf8(bytes@),
        valid_utf8(bytes@) ==> r.unwrap()@ == decode_utf8(bytes@),
{
    String::from_utf8(bytes).ok()
}

// --- base64 -----------------------------------------------------------------------

/// The base64 form of some bytes, with padding.
pub uninterp spec fn base64_text(bytes: Seq<u8>) -> Seq<char>;

/// The bytes that padded base64 stands for, if that is what the text is.
pub uninterp spec fn base64_bytes(text: Seq<char>) -> Option<Seq<u8>>;

/// The bytes that base64 without padding stands for, if that is what the text is.
pub uninterp spec fn unpadded_base64_bytes(text: Seq<char>) -> Option<Seq<u8>>;

/// True of the characters of padded base64.
pub open spec fn is_base64_char(c: char) -> bool {
    'A' <= c <= 'Z' || 'a' <= c <= 'z' || '0' <= c <= '9' || c == '+' || c == '/' || c == '='
}

/// The bytes of a vector that may not be there.
pub open spec fn opt_bytes(o: Option<Vec<u8>>) -> Option<Seq<u8>> {
    match o {
        Some(v) => Some(v@),
        None => None,
    }
}

/// `Engine::encode` of base64's `STANDARD` engine. Four characters of the alphabet
/// stand for each three bytes, the last of them padded, and `Engine::decode` of the
/// same engine gives the bytes back. The text has to fit in memory.
#[verifier::external_body]
pub(crate) fn base64_encode(bytes: &[u8]) -> (r: String)
    requires
        bytes@.len() <= usize::MAX / 4,
    ensures
        r@ == base64_text(bytes@),
        r@.len() == (bytes@.len() + 2) / 3 * 4,
        forall|k: int| 0 <= k < r@.len() ==> is_base64_char(#[trigger] r@[k]),
        base64_bytes(r@) == Some(bytes@),
{
    base64::engine::general_purpose::STANDARD.encode(bytes)
}

/// `Engine::decode` of base64's `STANDARD` engine, which wants its padding.
#[verifier::external_body]
pub(crate) fn base64_decode(text: &str) -> (r: Option<Vec<u8>>)
    ensures
        opt_bytes(r) == base64_bytes(text@),
{
    base64::engine::general_purpose::STANDARD.decode(text).ok()
}

/// `Engine::decode` of base64's `STANDARD_NO_PAD` engine, which wants no padding.
#[verifier::external_body]
pub(crate) fn unpadded_base64_decode(text: &str) -> (r: Option<Vec<u8>>)
    ensures
        opt_bytes(r) == unpadded_base64_bytes(text@),
{
    base64::engine::general_purpose::STANDARD_NO_PAD.decode(text).ok()
}

// --- percent-encoding ---------------------------------------------------------------

/// The value of a hexadecimal digit, or 16.
pub open spec fn hex_value(b: u8) -> int {
    if 48 <= b <= 57 {
        b - 48
    } else if 97 <= b <= 102 {
        b - 97 + 10
    } else if 65 <= b <= 70 {
        b - 65 + 10
    } else {
        16
    }
}

/// The byte that the two hexadecimal digits after a percent sign stand for. A plus sign
/// may stand in place of the first.
pub open spec fn escaped_byte(a: u8, b: u8) -> Option<u8> {
    if hex_value(a) < 16 && hex_value(b) < 16 {
        Some((hex_value(a) * 16 + hex_value(b)) as u8)
    } else if a == 43 && hex_value(b) < 16 {
        Some(hex_value(b) as u8)
    } else {
        None
    }
}

/// The bytes from `i` on, with their escapes decoded.
pub open spec fn unescaped(s: Seq<u8>, i: int) -> Seq<u8>
    decreases s.len() - i,
{
    if i < 0 || i >= s.len() {
        Seq::empty()
    } else if s[i] == 37 && i + 2 < s.len() && escaped_byte(s[i + 1], s[i + 2]) is Some {
        seq![escaped_byte(s[i + 1], s[i + 2])->0] + unescaped(s, i + 3)
    } else {
        seq![s[i]] + unescaped(s, i + 1)
    }
}

/// A text's bytes with their escapes decoded. Whatever is no escape stays as it is.
pub open spec fn percent_decoded(s: Seq<char>) -> Seq<u8> {
    unescaped(encode_utf8(s), 0)
}

fn hex_of(b: u8) -> (r: u8)
    ensures
        r == hex_value(b),
        r <= 16,
{
    if 48 <= b && b <= 57 {
        b - 48
    } else if 97 <= b && b <= 102 {
        b - 97 + 10
    } else if 65 <= b && b <= 70 {
        b - 65 + 10
    } else {
        16
    }
}

fn escape_of(a: u8, b: u8) -> (r: Option<u8>)
    ensures
        r == escaped_byte(a, b),
{
    let lo = hex_of(b);
    let hi = hex_of(a);
    if hi < 16 && lo < 16 {
        Some(hi * 16 + lo)
    } else if a == 43 && lo < 16 {
        Some(lo)
    } else {
        None
    }
}

/// Decodes the percent-encoding of a URL.
pub fn percent_decode(s: &str) -> (r: Vec<u8>)
    ensures
        r@ == percent_decoded(s@),
{
    let bytes = s.as_bytes();
    let n: usize = bytes.len();
    let mut out: Vec<u8> = Vec::new();
    let mut i: usize = 0;
    assert(out@ + unescaped(bytes@, 0) =~= percent_decoded(s@));
    while i < n
        invariant
            i <= n,
            n == bytes@.len(),
            out@ + unescaped(bytes@, i as int) == percent_decoded(s@),
        decreases n - i,
    {
        let ghost before = out@;
        let escape = if bytes[i] == 37 && n - i > 2 {
            escape_of(bytes[i + 1], bytes[i + 2])
        } else {
            None
        };
        match escape {
            Some(v) => {
                out.push(v);
                assert(before + (seq![v] + unescaped(bytes@, i + 3)) =~= out@ + unescaped(
                    bytes@,
                    i + 3,
                ));
                i = i + 3;
            },
            None => {
                out.push(bytes[i]);
                assert(before + (seq![bytes@[i as int]] + unescaped(bytes@, i + 1)) =~= out@
                    + unescaped(bytes@, i + 1));
                i = i + 1;
            },
        }
    }
    assert(out@ + unescaped(bytes@, i as int) =~= out@);
    out
}

/// Text without a percent sign is its own decoding.
pub proof fn plain_text_needs_no_decoding(s: Seq<u8>, i: int)
    requires
        0 <= i <= s.len(),
        forall|k: int| 0 <= k < s.len() ==> #[trigger] s[k] != 37,
    ensures
        unescaped(s, i) == s.subrange(i, s.len() as int),
    decreases s.len() - i,
{
    if i < s.len() {
        plain_text_needs_no_decoding(s, i + 1);
        assert(seq![s[i]] + s.subrange(i + 1, s.len() as int) =~= s.subrange(i, s.len() as int));
    } else {
        assert(s.subrange(i, s.len() as int) =~= Seq::empty());
    }
}

} // verus!
