//! Character classes of the version grammar, and access to the characters of
//! ASCII text through its bytes.

use vstd::prelude::*;
use vstd::string::*;

verus! {

/// An ASCII decimal digit.
pub open spec fn is_digit(c: char) -> bool {
    '0' <= c <= '9'
}

/// An ASCII letter.
pub open spec fn is_letter(c: char) -> bool {
    ('a' <= c <= 'z') || ('A' <= c <= 'Z')
}

/// A character that may occur in an identifier: a digit, a letter or a hyphen.
pub open spec fn is_ident_char(c: char) -> bool {
    is_digit(c) || is_letter(c) || c == '-'
}

/// Every character of the text is a decimal digit.
pub open spec fn all_digits(text: Seq<char>) -> bool {
    forall|i: int| 0 <= i < text.len() ==> is_digit(#[trigger] text[i])
}

/// Every character of the text may occur in an identifier.
pub open spec fn all_ident_chars(text: Seq<char>) -> bool {
    forall|i: int| 0 <= i < text.len() ==> is_ident_char(#[trigger] text[i])
}

/// The bytes stand one for one for the characters of the text.
pub open spec fn bytes_of(bytes: Seq<u8>, text: Seq<char>) -> bool {
    &&& bytes.len() == text.len()
    &&& forall|i: int| 0 <= i < text.len() ==> (#[trigger] bytes[i]) as char == text[i]
}

/// The bytes of an ASCII text, one for each of its characters.
pub(crate) fn ascii_bytes(text: &str) -> (bytes: &[u8])
    requires
        text.is_ascii(),
    ensures
        bytes_of(bytes@, text@),
{
    broadcast use is_ascii_spec_bytes;

    let bytes = text.as_bytes();
    assert forall|i: int| 0 <= i < text@.len() implies (#[trigger] bytes@[i]) as char
        == text@[i] by {
        assert(bytes@[i] == text@[i] as u8);
    }
    bytes
}

/// Whether a byte is an ASCII decimal digit.
pub fn byte_is_digit(b: u8) -> (r: bool)
    ensures
        r == is_digit(b as char),
{
    48 <= b && b <= 57
}

/// Whether a byte may occur in an identifier.
pub fn byte_is_ident_char(b: u8) -> (r: bool)
    ensures
        r == is_ident_char(b as char),
{
    (48 <= b && b <= 57) || (97 <= b && b <= 122) || (65 <= b && b <= 90) || b == 45
}

} // verus!
