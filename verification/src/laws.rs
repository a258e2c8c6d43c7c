//! What holds of validation and bumping together.

use vstd::prelude::*;
use crate::bump::{
    bump_outcome, bumped, command_of, generated, incremented, lemma_bumped_valid, BumpCommand,
    BumpError,
};
use crate::decimal::{
    decimal_value, lemma_decimal_text_numeric, lemma_decimal_text_of_value,
    lemma_decimal_value_of_text,
};
use crate::ident::is_numeric_identifier;
use crate::validate::{components, is_semantic_version, is_text_of, lemma_components};
use crate::version::Version;

verus! {

/// Round trip from text: the components of a semantic version, written
/// back as text, are the text again, but for the leading `v` or `V` that
/// the text may have. The identifiers come back in their order.
pub proof fn lemma_round_trip(text: Seq<char>)
    requires
        is_semantic_version(text),
    ensures
        components(text).is_valid(),
        text == components(text).text() || text == seq!['v'] + components(text).text() || text
            == seq!['V'] + components(text).text(),
{
    lemma_components(text);
    let version = choose|version: Version| is_text_of(text, version);
    assert(is_text_of(text, version));
}

/// Round trip from components: the text of a valid version is a semantic
/// version, with or without a leading `v` or `V`, and has the components of
/// that version.
pub proof fn lemma_text_validates(version: Version)
    requires
        version.is_valid(),
    ensures
        is_semantic_version(version.text()),
        components(version.text()) == version,
        components(seq!['v'] + version.text()) == version,
        components(seq!['V'] + version.text()) == version,
{
    assert(is_text_of(version.text(), version));
    assert(is_text_of(seq!['v'] + version.text(), version));
    assert(is_text_of(seq!['V'] + version.text(), version));
    lemma_components(version.text());
    lemma_components(seq!['v'] + version.text());
    lemma_components(seq!['V'] + version.text());
}

/// A text writes at most one version: two versions that one text writes
/// are the same version.
pub proof fn lemma_text_determines_version(text: Seq<char>, first: Version, second: Version)
    requires
        is_text_of(text, first),
        is_text_of(text, second),
    ensures
        first == second,
{
    lemma_components(text);
}

/// Raising a number: the text that takes the place of a numeric identifier
/// is the one numeric identifier that writes one more.
pub proof fn lemma_incremented(text: Seq<char>, other: Seq<char>)
    requires
        is_numeric_identifier(text),
        incremented(text) is Some,
    ensures
        is_numeric_identifier(incremented(text).unwrap()),
        decimal_value(incremented(text).unwrap()) == decimal_value(text) + 1,
        is_numeric_identifier(other) && decimal_value(other) == decimal_value(text) + 1 ==> other
            == incremented(text).unwrap(),
{
    lemma_decimal_text_numeric(decimal_value(text) + 1);
    lemma_decimal_value_of_text(decimal_value(text) + 1);
    if is_numeric_identifier(other) {
        lemma_decimal_text_of_value(other);
    }
}

/// Closure: the text that a bump of a valid version hands out is a semantic
/// version, and its components are those that the command makes.
pub proof fn lemma_bump_validates(version: Version, command: BumpCommand, label: Option<Seq<char>>)
    requires
        version.is_valid(),
    ensures
        bump_outcome(version, command, label) matches Ok(text) ==> is_semantic_version(text)
            && Some(components(text)) == bumped(version, command, label),
{
    lemma_bumped_valid(version, command, label);
    if let Some(next) = bumped(version, command, label) {
        lemma_text_validates(next);
    }
}

/// A release is never refused, and releasing a release changes nothing: the
/// text of the release of a valid version, validated and released once
/// more, is the same text. The labels play no part.
pub proof fn lemma_release_idempotent(
    version: Version,
    first_label: Option<Seq<char>>,
    second_label: Option<Seq<char>>,
)
    requires
        version.is_valid(),
    ensures
        bump_outcome(version, BumpCommand::Release, first_label) matches Ok(once)
            && is_semantic_version(once) && bump_outcome(
            components(once),
            BumpCommand::Release,
            second_label,
        ) == Ok::<Seq<char>, BumpError>(once),
{
    lemma_bump_validates(version, BumpCommand::Release, first_label);
}

/// Releasing a release, in words: for a semantic version, the request
/// `release` succeeds, and made again of its own result gives that result.
pub proof fn lemma_release_twice(
    text: Seq<char>,
    first_label: Option<Seq<char>>,
    second_label: Option<Seq<char>>,
)
    requires
        is_semantic_version(text),
    ensures
        generated("release"@, first_label, text) matches Ok(once) && generated(
            "release"@,
            second_label,
            once,
        ) == Ok::<Seq<char>, BumpError>(once),
{
    reveal_strlit("major");
    reveal_strlit("minor");
    reveal_strlit("patch");
    reveal_strlit("release");
    assert("release"@.len() == 7 && "major"@.len() == 5 && "minor"@.len() == 5 && "patch"@.len()
        == 5);
    assert(command_of("release"@) == Some(BumpCommand::Release));
    lemma_round_trip(text);
    lemma_release_idempotent(components(text), first_label, second_label);
}

} // verus!
