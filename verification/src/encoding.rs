//! Binary data as text: URL-safe base64 without padding, and hexadecimal.
use base64::engine::general_purpose::URL_SAFE_NO_PAD;
use base64::Engine;
use vstd::prelude::*;

verus! {

// ---------------------------------------------------------------------------
// Base64
// ---------------------------------------------------------------------------
/// The URL-safe base64 symbol for a value below 64.
pub open spec fn base64_symbol(v: int) -> char {
    if v < 26 {
        (65 + v) as char
    } else if v < 52 {
        (97 + v - 26) as char
    } else if v < 62 {
        (48 + v - 52) as char
    } else if v == 62 {
        '-'
    } else {
        '_'
    }
}

/// The byte at `i`, or zero behind the end.
pub open spec fn byte_at(bytes: Seq<u8>, i: int) -> int {
    if 0 <= i < bytes.len() {
        bytes[i] as int
    } else {
        0
    }
}

/// The `i`-th group of six bits, counted from the most significant bit of the
/// first byte.
pub open spec fn sextet(bytes: Seq<u8>, i: int) -> int {
    let k = i / 4 * 3;
    if i % 4 == 0 {
        byte_at(bytes, k) / 4
    } else if i % 4 == 1 {
        byte_at(bytes, k) % 4 * 16 + byte_at(bytes, k + 1) / 16
    } else if i % 4 == 2 {
        byte_at(bytes, k + 1) % 16 * 4 + byte_at(bytes, k + 2) / 64
    } else {
        byte_at(bytes, k + 2) % 64
    }
}

/// URL-safe base64 without padding: one symbol for each group of six bits that
/// holds a bit of the data.
pub open spec fn base64url(bytes: Seq<u8>) -> Seq<char> {
    Seq::new(((4 * bytes.len() + 2) / 3) as nat, |i: int| base64_symbol(sextet(bytes, i)))
}

/// Why a text is not base64.
#[verifier::external_type_specification]
#[verifier::external_body]
pub struct ExDecodeError(base64::DecodeError);

/// Encodes bytes.
///
/// Trusted: `base64::engine::general_purpose::URL_SAFE_NO_PAD.encode` writes the
/// URL-safe alphabet without padding.
#[verifier::external_body]
pub(crate) fn base64url_encode(bytes: &[u8]) -> (text: String)
    ensures
        text@ == base64url(bytes@),
{
    URL_SAFE_NO_PAD.encode(bytes)
}

/// Decodes a text.
///
/// Trusted: `base64::engine::general_purpose::URL_SAFE_NO_PAD.decode` accepts
/// exactly the texts that encoding can write: it refuses padding, symbols outside
/// the alphabet, impossible lengths and stray bits in the last symbol.
#[verifier::external_body]
pub(crate) fn base64url_decode(text: &str) -> (r: Result<Vec<u8>, base64::DecodeError>)
    ensures
        match r {
            Ok(bytes) => text@ == base64url(bytes@),
            Err(_) => forall|bytes: Seq<u8>| text@ != #[trigger] base64url(bytes),
        },
{
    URL_SAFE_NO_PAD.decode(text.as_bytes())
}

proof fn lemma_symbol_injective(a: int, b: int)
    requires
        0 <= a < 64,
        0 <= b < 64,
        base64_symbol(a) == base64_symbol(b),
    ensures
        a == b,
{
}

proof fn lemma_sextet_range(bytes: Seq<u8>, i: int)
    requires
        0 <= i,
    ensures
        0 <= sextet(bytes, i) < 64,
{
}

/// Encoding loses nothing: different data have different base64 texts.
pub proof fn base64url_injective(a: Seq<u8>, b: Seq<u8>)
    requires
        base64url(a) == base64url(b),
    ensures
        a == b,
{
    let n = a.len() as int;
    let m = b.len() as int;
    assert(base64url(a).len() == (4 * n + 2) / 3);
    assert(base64url(b).len() == (4 * m + 2) / 3);
    assert(n == m) by (nonlinear_arith)
        requires
            (4 * n + 2) / 3 == (4 * m + 2) / 3,
    ;
    assert forall|k: int| 0 <= k < a.len() implies a[k] == b[k] by {
        let q = k / 3;
        let first: int = if k % 3 == 0 {
            4 * q
        } else if k % 3 == 1 {
            4 * q + 1
        } else {
            4 * q + 2
        };
        assert(first + 1 < base64url(a).len());
        assert(base64url(a)[first] == base64_symbol(sextet(a, first)));
        assert(base64url(b)[first] == base64_symbol(sextet(b, first)));
        assert(base64url(a)[first + 1] == base64_symbol(sextet(a, first + 1)));
        assert(base64url(b)[first + 1] == base64_symbol(sextet(b, first + 1)));
        lemma_sextet_range(a, first);
        lemma_sextet_range(b, first);
        lemma_sextet_range(a, first + 1);
        lemma_sextet_range(b, first + 1);
        lemma_symbol_injective(sextet(a, first), sextet(b, first));
        lemma_symbol_injective(sextet(a, first + 1), sextet(b, first + 1));
        assert(byte_at(a, k) == byte_at(b, k));
    }
    assert(a =~= b);
}

// ---------------------------------------------------------------------------
// Hexadecimal
// ---------------------------------------------------------------------------
/// The lower-case hexadecimal digit for a value below 16.
pub open spec fn hex_digit(v: int) -> char {
    if v < 10 {
        (48 + v) as char
    } else {
        (97 + v - 10) as char
    }
}

/// The value of a hexadecimal digit in either case.
pub open spec fn hex_value(c: char) -> Option<int> {
    if '0' <= c <= '9' {
        Some(c as int - 48)
    } else if 'a' <= c <= 'f' {
        Some(c as int - 97 + 10)
    } else if 'A' <= c <= 'F' {
        Some(c as int - 65 + 10)
    } else {
        None
    }
}

/// Lower-case hexadecimal: two digits for each byte, the high one first.
pub open spec fn hex_text(bytes: Seq<u8>) -> Seq<char> {
    Seq::new(
        2 * bytes.len(),
        |i: int|
            if i % 2 == 0 {
                hex_digit(bytes[i / 2] as int / 16)
            } else {
                hex_digit(bytes[i / 2] as int % 16)
            },
    )
}

/// The text spells the bytes in hexadecimal digits of either case.
pub open spec fn hex_spells(text: Seq<char>, bytes: Seq<u8>) -> bool {
    &&& text.len() == 2 * bytes.len()
    &&& forall|k: int|
        0 <= k < bytes.len() ==> {
            &&& hex_value(text[2 * k]) == Some((#[trigger] bytes[k]) as int / 16)
            &&& hex_value(text[2 * k + 1]) == Some(bytes[k] as int % 16)
        }
}

/// Why a text is not hexadecimal.
#[verifier::external_type_specification]
#[verifier::external_body]
pub struct ExFromHexError(hex::FromHexError);

/// Encodes bytes.
///
/// Trusted: `hex::encode` writes two lower-case digits for each byte.
#[verifier::external_body]
pub(crate) fn hex_encode(bytes: &[u8]) -> (text: String)
    ensures
        text@ == hex_text(bytes@),
{
    hex::encode(bytes)
}

/// Decodes a text.
///
/// Trusted: `hex::decode` accepts exactly the texts made of pairs of hexadecimal
/// digits in either case.
#[verifier::external_body]
pub(crate) fn hex_decode(text: &str) -> (r: Result<Vec<u8>, hex::FromHexError>)
    ensures
        match r {
            Ok(bytes) => hex_spells(text@, bytes@),
            Err(_) => forall|bytes: Seq<u8>| !#[trigger] hex_spells(text@, bytes),
        },
{
    hex::decode(text)
}

/// A text spells at most one sequence of bytes, and the lower-case text of some
/// bytes spells them.
pub proof fn hex_reads_back(text: Seq<char>, a: Seq<u8>, b: Seq<u8>)
    ensures
        hex_spells(text, a) && hex_spells(text, b) ==> a == b,
        hex_spells(hex_text(a), a),
{
    if hex_spells(text, a) && hex_spells(text, b) {
        assert forall|k: int| 0 <= k < a.len() implies a[k] == b[k] by {
            assert(a[k] as int / 16 == b[k] as int / 16);
            assert(a[k] as int % 16 == b[k] as int % 16);
        }
        assert(a =~= b);
    }
    assert forall|k: int| 0 <= k < a.len() implies {
        &&& hex_value(hex_text(a)[2 * k]) == Some((#[trigger] a[k]) as int / 16)
        &&& hex_value(hex_text(a)[2 * k + 1]) == Some(a[k] as int % 16)
    } by {
        assert(2 * k / 2 == k);
        assert((2 * k + 1) / 2 == k);
    }
}

} // verus!
