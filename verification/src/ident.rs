//! The three kinds of identifier of the version grammar: the numeric
//! identifier of the core triple, the pre-release identifier and the build
//! identifier.

use vstd::prelude::*;
use vstd::string::*;
use crate::chars::{
    all_digits, all_ident_chars, ascii_bytes, byte_is_digit, byte_is_ident_char, bytes_of,
    is_digit, is_ident_char,
};

verus! {

/// A numeric identifier: `0`, or a digit other than `0` followed by digits.
pub open spec fn is_numeric_identifier(text: Seq<char>) -> bool {
    &&& text.len() > 0
    &&& all_digits(text)
    &&& (text.len() == 1 || text[0] != '0')
}

/// A build identifier: one or more digits, letters and hyphens.
pub open spec fn is_build_identifier(text: Seq<char>) -> bool {
    &&& text.len() > 0
    &&& all_ident_chars(text)
}

/// A pre-release identifier: a numeric identifier, or digits, letters and
/// hyphens of which at least one is no digit.
pub open spec fn is_pre_release_identifier(text: Seq<char>) -> bool {
    &&& is_build_identifier(text)
    &&& (all_digits(text) ==> is_numeric_identifier(text))
}

/// Which grammar the identifiers of a dotted list follow.
#[derive(Clone, Copy, Debug, PartialEq, Eq, Structural)]
pub enum IdentifierKind {
    /// Identifiers of a pre-release segment.
    PreRelease,
    /// Identifiers of a build segment.
    Build,
}

/// An identifier of the given kind.
pub open spec fn is_identifier(text: Seq<char>, kind: IdentifierKind) -> bool {
    match kind {
        IdentifierKind::PreRelease => is_pre_release_identifier(text),
        IdentifierKind::Build => is_build_identifier(text),
    }
}

/// No character of an identifier is outside the ASCII range.
pub proof fn lemma_ident_chars_are_ascii(text: Seq<char>)
    requires
        all_ident_chars(text),
    ensures
        vstd::utf8::is_ascii_chars(text),
{
    assert forall|i: int| 0 <= i < text.len() implies '\0' <= #[trigger] text[i] <= '\u{7f}' by {
        assert(is_ident_char(text[i]));
    }
}

/// Whether all the bytes are decimal digits.
fn bytes_all_digits(bytes: &[u8], Ghost(text): Ghost<Seq<char>>) -> (r: bool)
    requires
        bytes_of(bytes@, text),
    ensures
        r == all_digits(text),
{
    let mut i: usize = 0;
    while i < bytes.len()
        invariant
            i <= bytes.len(),
            bytes_of(bytes@, text),
            forall|k: int| 0 <= k < i ==> is_digit(#[trigger] text[k]),
        decreases bytes.len() - i,
    {
        if !byte_is_digit(bytes[i]) {
            assert(!is_digit(text[i as int]));
            return false;
        }
        i += 1;
    }
    true
}

/// Whether all the bytes may occur in an identifier.
fn bytes_all_ident_chars(bytes: &[u8], Ghost(text): Ghost<Seq<char>>) -> (r: bool)
    requires
        bytes_of(bytes@, text),
    ensures
        r == all_ident_chars(text),
{
    let mut i: usize = 0;
    while i < bytes.len()
        invariant
            i <= bytes.len(),
            bytes_of(bytes@, text),
            forall|k: int| 0 <= k < i ==> is_ident_char(#[trigger] text[k]),
        decreases bytes.len() - i,
    {
        if !byte_is_ident_char(bytes[i]) {
            assert(!is_ident_char(text[i as int]));
            return false;
        }
        i += 1;
    }
    true
}

/// Tells whether the text is a numeric identifier.
pub fn check_numeric_identifier(text: &str) -> (r: bool)
    ensures
        r == is_numeric_identifier(text@),
{
    if !text.is_ascii() {
        proof {
            if all_digits(text@) {
                assert(all_ident_chars(text@));
                lemma_ident_chars_are_ascii(text@);
            }
        }
        return false;
    }
    let bytes = ascii_bytes(text);
    if bytes.len() == 0 {
        return false;
    }
    if !bytes_all_digits(bytes, Ghost(text@)) {
        return false;
    }
    bytes.len() == 1 || bytes[0] != 48
}

/// Tells whether the text is a build identifier.
pub fn check_build_identifier(text: &str) -> (r: bool)
    ensures
        r == is_build_identifier(text@),
{
    if !text.is_ascii() {
        proof {
            if all_ident_chars(text@) {
                lemma_ident_chars_are_ascii(text@);
            }
        }
        return false;
    }
    let bytes = ascii_bytes(text);
    bytes.len() > 0 && bytes_all_ident_chars(bytes, Ghost(text@))
}

/// Tells whether the text is a pre-release identifier.
pub fn check_pre_release_identifier(text: &str) -> (r: bool)
    ensures
        r == is_pre_release_identifier(text@),
{
    if !check_build_identifier(text) {
        return false;
    }
    proof {
        lemma_ident_chars_are_ascii(text@);
    }
    let bytes = ascii_bytes(text);
    if bytes_all_digits(bytes, Ghost(text@)) {
        bytes.len() == 1 || bytes[0] != 48
    } else {
        true
    }
}

/// Tells whether the text is an identifier of the given kind.
pub fn check_identifier(text: &str, kind: IdentifierKind) -> (r: bool)
    ensures
        r == is_identifier(text@, kind),
{
    match kind {
        IdentifierKind::PreRelease => check_pre_release_identifier(text),
        IdentifierKind::Build => check_build_identifier(text),
    }
}

} // verus!
