//! The identifiers of sessions.
use vstd::prelude::*;

use crate::text::{byte_len, byte_length, same_text};

verus! {

/// Whether a character is an ASCII letter or digit.
pub open spec fn is_alphanumeric(c: char) -> bool {
    'a' <= c <= 'z' || 'A' <= c <= 'Z' || '0' <= c <= '9'
}

/// Whether a character may stand in a name.
pub open spec fn is_name_char(c: char) -> bool {
    is_alphanumeric(c) || c == '-' || c == '_' || c == '.'
}

/// Whether a text has only characters that may stand in a name.
pub open spec fn has_name_chars(text: Seq<char>) -> bool {
    forall|i: int| 0 <= i < text.len() ==> is_name_char(#[trigger] text[i])
}

/// Whether a text is the identifier of a session: 1 to 64 letters, digits, hyphens, underscores
/// and dots, and neither one dot nor two.
pub open spec fn is_session_id(text: Seq<char>) -> bool {
    &&& 1 <= text.len() <= 64
    &&& has_name_chars(text)
    &&& text != "."@
    &&& text != ".."@
}

/// Whether a character is an ASCII letter or digit.
pub fn alphanumeric(character: char) -> (holds: bool)
    ensures
        holds == is_alphanumeric(character),
{
    ('a' <= character && character <= 'z') || ('A' <= character && character <= 'Z') || ('0'
        <= character && character <= '9')
}

/// Whether a text has only characters that may stand in a name.
pub fn only_name_chars(text: &str) -> (holds: bool)
    ensures
        holds == has_name_chars(text@),
{
    for character in iter: text.chars()
        invariant
            iter.seq() == text@,
            forall|i: int| 0 <= i < iter.index() ==> is_name_char(#[trigger] text@[i]),
    {
        let ghost at: int = iter.index();
        if !(alphanumeric(character) || character == '-' || character == '_' || character == '.') {
            assert(!is_name_char(text@[at]));
            return false;
        }
    }
    true
}

/// A name takes one byte for each character.
pub proof fn lemma_name_bytes(text: Seq<char>)
    requires
        has_name_chars(text),
    ensures
        byte_len(text) == text.len(),
{
    assert forall|i: int| 0 <= i < text.len() implies '\0' <= #[trigger] text[i] <= '\u{7f}' by {
        assert(is_name_char(text[i]));
    }
    vstd::utf8::is_ascii_chars_encode_utf8(text);
}

/// Checks the identifier of a session.
pub fn validate_session_id(session_id: &str) -> (result: Result<(), String>)
    ensures
        result is Ok <==> is_session_id(session_id@),
        result matches Err(message) ==> message@
            == "session ID must be 1-64 letters, digits, '-', '_' or '.', and not '.' or '..'"@,
{
    let valid: bool = only_name_chars(session_id) && byte_length(session_id) >= 1 && byte_length(
        session_id,
    ) <= 64 && !same_text(session_id, ".") && !same_text(session_id, "..");
    proof {
        if has_name_chars(session_id@) {
            lemma_name_bytes(session_id@);
        }
    }
    if valid {
        Ok(())
    } else {
        Err("session ID must be 1-64 letters, digits, '-', '_' or '.', and not '.' or '..'".to_owned())
    }
}

/// The identifier of a session is a plain name: 1 to 64 letters, digits, hyphens, underscores and dots, so
/// that it names one directory, neither the one that it stands in nor the one above.
pub proof fn law_session_ids_are_plain_names(text: Seq<char>)
    ensures
        is_session_id(text) <==> {
            &&& 1 <= text.len() <= 64
            &&& forall|i: int|
                0 <= i < text.len() ==> {
                    let c = #[trigger] text[i];
                    'a' <= c <= 'z' || 'A' <= c <= 'Z' || '0' <= c <= '9' || c == '.' || c == '_' || c
                        == '-'
                }
            &&& text != "."@ && text != ".."@
        },
        is_session_id(text) ==> !text.contains('/'),
{
    if is_session_id(text) {
        assert forall|i: int| 0 <= i < text.len() implies {
            let c = #[trigger] text[i];
            'a' <= c <= 'z' || 'A' <= c <= 'Z' || '0' <= c <= '9' || c == '.' || c == '_' || c == '-'
        } by {
            assert(is_name_char(text[i]));
        }
        if text.contains('/') {
            let i = choose|i: int| 0 <= i < text.len() && text[i] == '/';
            assert(is_name_char(text[i]));
        }
    }
    if forall|i: int|
        0 <= i < text.len() ==> {
            let c = #[trigger] text[i];
            'a' <= c <= 'z' || 'A' <= c <= 'Z' || '0' <= c <= '9' || c == '.' || c == '_' || c == '-'
        } {
        assert(has_name_chars(text));
    }
}

} // verus!
