//! Percent-encoding of request paths and link targets, and the Unicode case
//! mapping that orders listings.

use vstd::prelude::*;
use vstd::utf8::{decode_utf8, encode_utf8, is_ascii_chars, valid_utf8};

verus! {

/// The value of an ASCII hexadecimal digit, either case.
pub open spec fn hex_value(b: u8) -> Option<u8> {
    if 48 <= b <= 57 {
        Some((b - 48) as u8)
    } else if 97 <= b <= 102 {
        Some((b - 87) as u8)
    } else if 65 <= b <= 70 {
        Some((b - 55) as u8)
    } else {
        None
    }
}

/// Percent-decoding of bytes: `%` followed by two hexadecimal digits stands
/// for the byte they spell; every other byte, a lone `%` included, stands for
/// itself.
pub open spec fn percent_decoded(b: Seq<u8>) -> Seq<u8>
    decreases b.len(),
{
    if b.len() == 0 {
        seq![]
    } else if b[0] == 37 && b.len() >= 3 && hex_value(b[1]) is Some && hex_value(b[2]) is Some {
        seq![(hex_value(b[1])->0 * 16 + hex_value(b[2])->0) as u8] + percent_decoded(b.skip(3))
    } else {
        seq![b[0]] + percent_decoded(b.skip(1))
    }
}

/// Percent-decodes a request path and reads the result as UTF-8.
pub open spec fn decoded_text(s: Seq<char>) -> Option<Seq<char>> {
    let bytes = percent_decoded(encode_utf8(s));
    if valid_utf8(bytes) {
        Some(decode_utf8(bytes))
    } else {
        None
    }
}

/// Percent-decodes `s` and decodes the bytes as UTF-8, `None` where they are
/// not well-formed UTF-8.
///
/// Trusted: calls `percent_encoding::percent_decode_str(s).decode_utf8()`.
/// Its source replaces `%` and two hex digits by their byte and keeps every
/// other byte, then validates the bytes as UTF-8 with std's `str::from_utf8`.
#[verifier::external_body]
pub(crate) fn percent_decode_utf8(s: &str) -> (res: Option<String>)
    ensures
        res matches Some(d) ==> decoded_text(s@) == Some(d@),
        res is None ==> decoded_text(s@) is None,
{
    match percent_encoding::percent_decode_str(s).decode_utf8() {
        Ok(decoded) => Some(decoded.into_owned()),
        Err(_) => None,
    }
}

/// The character of an upper-case hexadecimal digit.
pub open spec fn hex_digit_upper(d: int) -> char {
    if d == 0 { '0' }
    else if d == 1 { '1' }
    else if d == 2 { '2' }
    else if d == 3 { '3' }
    else if d == 4 { '4' }
    else if d == 5 { '5' }
    else if d == 6 { '6' }
    else if d == 7 { '7' }
    else if d == 8 { '8' }
    else if d == 9 { '9' }
    else if d == 10 { 'A' }
    else if d == 11 { 'B' }
    else if d == 12 { 'C' }
    else if d == 13 { 'D' }
    else if d == 14 { 'E' }
    else { 'F' }
}

pub open spec fn is_ascii_alphanumeric(b: u8) -> bool {
    (48 <= b <= 57) || (65 <= b <= 90) || (97 <= b <= 122)
}

/// How one byte is written: ASCII letters and digits as themselves, every
/// other byte as `%` and two upper-case hex digits.
pub open spec fn encoded_byte(b: u8) -> Seq<char> {
    if is_ascii_alphanumeric(b) {
        seq![b as char]
    } else {
        seq!['%', hex_digit_upper(b as int / 16), hex_digit_upper(b as int % 16)]
    }
}

/// Percent-encoding of bytes that keeps only ASCII letters and digits.
pub open spec fn percent_encoded(b: Seq<u8>) -> Seq<char>
    decreases b.len(),
{
    if b.len() == 0 {
        seq![]
    } else {
        encoded_byte(b[0]) + percent_encoded(b.skip(1))
    }
}

/// Percent-encodes the UTF-8 bytes of `s`, keeping only ASCII letters and
/// digits as they are.
///
/// Trusted: calls `percent_encoding::utf8_percent_encode(s, NON_ALPHANUMERIC)`
/// and collects it with `to_string`. In the crate's source, `NON_ALPHANUMERIC`
/// holds every ASCII byte but the letters and digits, non-ASCII bytes are
/// always encoded, and an encoded byte is written `%XX` with upper-case hex.
#[verifier::external_body]
pub(crate) fn percent_encode_text(s: &str) -> (res: String)
    ensures
        res@ == percent_encoded(encode_utf8(s@)),
{
    percent_encoding::utf8_percent_encode(s, percent_encoding::NON_ALPHANUMERIC).to_string()
}

/// The Unicode lower-case mapping of a string.
pub uninterp spec fn lowercase(s: Seq<char>) -> Seq<char>;

/// Lower-cases a string.
///
/// Trusted: calls `str::to_lowercase`, which std documents as applying the
/// full Unicode lower-case mappings (one character may become several) and
/// the context rule for a final capital sigma; the result is named by
/// `lowercase` and depends on `s` alone.
#[verifier::external_body]
pub(crate) fn to_lowercase(s: &str) -> (res: String)
    ensures
        res@ == lowercase(s@),
{
    s.to_lowercase()
}

} // verus!

verus! {

/// The bytes of ASCII text.
spec fn ascii_bytes(e: Seq<char>) -> Seq<u8> {
    e.map_values(|c: char| c as u8)
}

proof fn lemma_encoded_is_ascii(b: Seq<u8>)
    ensures
        is_ascii_chars(percent_encoded(b)),
        encode_utf8(percent_encoded(b)) == ascii_bytes(percent_encoded(b)),
    decreases b.len(),
{
    if b.len() > 0 {
        lemma_encoded_is_ascii(b.skip(1));
        let t = encoded_byte(b[0]);
        let r = percent_encoded(b.skip(1));
        assert(is_ascii_chars(t)) by {
            vstd::utf8::char_u32_cast(b[0] as char, b[0] as u32);
        }
    }
    let e = percent_encoded(b);
    vstd::utf8::is_ascii_chars_encode_utf8(e);
}

proof fn lemma_decode_encoded(b: Seq<u8>)
    ensures
        percent_decoded(ascii_bytes(percent_encoded(b))) == b,
    decreases b.len(),
{
    if b.len() == 0 {
        assert(ascii_bytes(percent_encoded(b)) =~= Seq::<u8>::empty());
    } else {
        lemma_decode_encoded(b.skip(1));
        let t = encoded_byte(b[0]);
        let r = percent_encoded(b.skip(1));
        let rb = ascii_bytes(r);
        assert(ascii_bytes(t + r) =~= ascii_bytes(t) + rb);
        let all = ascii_bytes(t) + rb;
        if is_ascii_alphanumeric(b[0]) {
            vstd::utf8::char_u32_cast(b[0] as char, b[0] as u32);
            assert(all.skip(1) =~= rb);
        } else {
            assert(all.skip(3) =~= rb);
        }
    }
}

/// A name that is percent-encoded, as the links of a listing are, decodes
/// back to the same name.
pub proof fn lemma_encoded_name_decodes(name: Seq<char>)
    ensures
        decoded_text(percent_encoded(encode_utf8(name))) == Some(name),
{
    let b = encode_utf8(name);
    lemma_encoded_is_ascii(b);
    lemma_decode_encoded(b);
    vstd::utf8::encode_utf8_valid_utf8(name);
    vstd::utf8::encode_utf8_decode_utf8(name);
}

} // verus!
