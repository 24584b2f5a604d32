//! Bytes as text.
use vstd::prelude::*;
use vstd::utf8::{decode_utf8, encode_utf8, valid_utf8};

verus! {

/// The text that `String::from_utf8_lossy` makes of bytes.
pub uninterp spec fn lossy_text(bytes: Seq<u8>) -> Seq<char>;

/// `String::from_utf8_lossy` decodes UTF-8. What it puts in place of bytes that are no UTF-8 is
/// not said here, only that the text depends on the bytes alone.
#[verifier::external_body]
pub(crate) fn from_utf8_lossy(bytes: &[u8]) -> (text: String)
    ensures
        text@ == lossy_text(bytes@),
        valid_utf8(bytes@) ==> text@ == decode_utf8(bytes@),
{
    String::from_utf8_lossy(bytes).into_owned()
}

/// `str::from_utf8` gives the text that bytes encode, exactly where they are valid UTF-8.
#[verifier::external_body]
pub(crate) fn text_from_utf8(bytes: &[u8]) -> (text: Option<String>)
    ensures
        match text {
            Some(text) => valid_utf8(bytes@) && encode_utf8(text@) == bytes@,
            None => !valid_utf8(bytes@),
        },
{
    std::str::from_utf8(bytes).ok().map(|text| text.to_owned())
}

/// The sign of six bits in base64.
pub open spec fn base64_char(value: int) -> char {
    if value < 26 {
        (65 + value) as char
    } else if value < 52 {
        (71 + value) as char
    } else if value < 62 {
        (value - 4) as char
    } else if value == 62 {
        '+'
    } else {
        '/'
    }
}

/// Bytes in base64 with the standard alphabet and padding.
pub open spec fn base64_text(bytes: Seq<u8>) -> Seq<char>
    decreases bytes.len(),
{
    let at = |i: int|
        if i < bytes.len() {
            bytes[i] as int
        } else {
            0
        };
    if bytes.len() == 0 {
        Seq::empty()
    } else {
        let first = base64_char(at(0) / 4);
        let second = base64_char(at(0) % 4 * 16 + at(1) / 16);
        let third = base64_char(at(1) % 16 * 4 + at(2) / 64);
        let fourth = base64_char(at(2) % 64);
        if bytes.len() == 1 {
            seq![first, second, '=', '=']
        } else if bytes.len() == 2 {
            seq![first, second, third, '=']
        } else {
            seq![first, second, third, fourth] + base64_text(bytes.skip(3))
        }
    }
}

/// The six bits that a sign of base64 stands for.
pub open spec fn base64_value(sign: char) -> int {
    if 'A' <= sign <= 'Z' {
        sign as int - 65
    } else if 'a' <= sign <= 'z' {
        sign as int - 71
    } else if '0' <= sign <= '9' {
        sign as int + 4
    } else if sign == '+' {
        62
    } else {
        63
    }
}

/// The bytes that a text in base64 stands for.
pub open spec fn base64_bytes(text: Seq<char>) -> Seq<u8>
    decreases text.len(),
{
    if text.len() < 4 {
        Seq::empty()
    } else {
        let first = (base64_value(text[0]) * 4 + base64_value(text[1]) / 16) as u8;
        let second = (base64_value(text[1]) % 16 * 16 + base64_value(text[2]) / 4) as u8;
        let third = (base64_value(text[2]) % 4 * 64 + base64_value(text[3])) as u8;
        if text[2] == '=' {
            seq![first]
        } else if text[3] == '=' {
            seq![first, second]
        } else {
            seq![first, second, third] + base64_bytes(text.skip(4))
        }
    }
}

proof fn lemma_base64_sign(value: int)
    requires
        0 <= value < 64,
    ensures
        base64_value(base64_char(value)) == value,
        base64_char(value) != '=',
{
}

/// What is written in base64 can be read again.
pub proof fn law_base64_is_read_back(bytes: Seq<u8>)
    ensures
        base64_bytes(base64_text(bytes)) == bytes,
    decreases bytes.len(),
{
    let text = base64_text(bytes);
    if bytes.len() > 0 {
        let at = |i: int|
            if i < bytes.len() {
                bytes[i] as int
            } else {
                0
            };
        let (a, b, c) = (at(0), at(1), at(2));
        lemma_base64_sign(a / 4);
        lemma_base64_sign(a % 4 * 16 + b / 16);
        lemma_base64_sign(b % 16 * 4 + c / 64);
        lemma_base64_sign(c % 64);
        assert(text[0] == base64_char(a / 4));
        assert(text[1] == base64_char(a % 4 * 16 + b / 16));
        if bytes.len() >= 3 {
            let rest = base64_text(bytes.skip(3));
            assert(text.skip(4) =~= rest);
            law_base64_is_read_back(bytes.skip(3));
            assert(bytes =~= seq![bytes[0], bytes[1], bytes[2]] + bytes.skip(3));
        }
        assert(base64_bytes(text) =~= bytes);
    }
}

/// `Engine::encode` of the `STANDARD` engine writes bytes in base64, with padding. It panics where
/// the length of the text is more than a `usize` holds.
#[verifier::external_body]
pub(crate) fn base64_encode(bytes: &[u8]) -> (text: String)
    requires
        bytes@.len() <= usize::MAX / 2,
    ensures
        text@ == base64_text(bytes@),
{
    base64::Engine::encode(&base64::engine::general_purpose::STANDARD, bytes)
}

} // verus!
