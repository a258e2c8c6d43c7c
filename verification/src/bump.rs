//! The bumper: the next version for a version and a bump command.

use vstd::prelude::*;
use vstd::string::*;
use crate::chars::{ascii_bytes, bytes_of};
use crate::decimal::{
    decimal_string, decimal_text, decimal_value, lemma_decimal_text_numeric, parse_decimal,
};
use crate::dotted::{is_dotted_identifiers, lemma_join_split, parse_identifiers, split_dots};
use crate::ident::{is_numeric_identifier, IdentifierKind};
use crate::validate::{components, is_semantic_version, is_text_of, lemma_components, validate};
use crate::version::{SemanticVersion, Version};

verus! {

/// How a version advances.
#[derive(Clone, Copy, Debug, PartialEq, Eq, Structural)]
pub enum BumpCommand {
    /// The next major version: `{major+1}.0.0`.
    Major,
    /// The next minor version: `{major}.{minor+1}.0`.
    Minor,
    /// The next patch version: `{major}.{minor}.{patch+1}`.
    Patch,
    /// The release of a pre-release: the core alone.
    Release,
    /// The core with a new pre-release label, which the caller gives.
    Prerelease,
    /// The version with a new build label, which the caller gives.
    Build,
}

/// Why a request was turned down.
#[derive(Clone, Copy, Debug, PartialEq, Eq, Structural)]
pub enum BumpError {
    /// The text is no semantic version.
    MalformedVersion,
    /// The command is unknown, its label is missing or invalid, or the
    /// number to raise is already the largest of 64 bits.
    InvalidBumpRequest,
}

impl BumpCommand {
    /// Whether the command asks for a label.
    pub open spec fn needs_label(self) -> bool {
        self == BumpCommand::Prerelease || self == BumpCommand::Build
    }

    /// Tells whether the command asks for a label.
    pub fn requires_label(&self) -> (r: bool)
        ensures
            r == self.needs_label(),
    {
        match self {
            BumpCommand::Prerelease | BumpCommand::Build => true,
            _ => false,
        }
    }
}

/// The numeric identifier `0`.
pub open spec fn zero_text() -> Seq<char> {
    seq!['0']
}

/// The numeric identifier that writes one more than `text` does, where that
/// number has 64 bits.
pub open spec fn incremented(text: Seq<char>) -> Option<Seq<char>> {
    if decimal_value(text) + 1 <= u64::MAX {
        Some(decimal_text(decimal_value(text) + 1))
    } else {
        None
    }
}

/// The version that the command makes of a version, or nothing where the
/// request is turned down.
pub open spec fn bumped(version: Version, command: BumpCommand, label: Option<Seq<char>>) -> Option<
    Version,
> {
    match command {
        BumpCommand::Major => match incremented(version.major) {
            Some(major) => Some(
                Version {
                    major,
                    minor: zero_text(),
                    patch: zero_text(),
                    pre_release: None,
                    build: None,
                },
            ),
            None => None,
        },
        BumpCommand::Minor => match incremented(version.minor) {
            Some(minor) => Some(
                Version {
                    major: version.major,
                    minor,
                    patch: zero_text(),
                    pre_release: None,
                    build: None,
                },
            ),
            None => None,
        },
        BumpCommand::Patch => match incremented(version.patch) {
            Some(patch) => Some(
                Version {
                    major: version.major,
                    minor: version.minor,
                    patch,
                    pre_release: None,
                    build: None,
                },
            ),
            None => None,
        },
        BumpCommand::Release => Some(
            Version {
                major: version.major,
                minor: version.minor,
                patch: version.patch,
                pre_release: None,
                build: None,
            },
        ),
        BumpCommand::Prerelease => match label {
            Some(text) if is_dotted_identifiers(text, IdentifierKind::PreRelease) => Some(
                Version {
                    major: version.major,
                    minor: version.minor,
                    patch: version.patch,
                    pre_release: Some(split_dots(text)),
                    build: None,
                },
            ),
            _ => None,
        },
        BumpCommand::Build => match label {
            Some(text) if is_dotted_identifiers(text, IdentifierKind::Build) => Some(
                Version {
                    major: version.major,
                    minor: version.minor,
                    patch: version.patch,
                    pre_release: version.pre_release,
                    build: Some(split_dots(text)),
                },
            ),
            _ => None,
        },
    }
}

/// What an optional text holds.
pub open spec fn optional_text(text: Option<&str>) -> Option<Seq<char>> {
    match text {
        Some(text) => Some(text@),
        None => None,
    }
}

/// What a result holds: the text of the new version, or the error.
pub open spec fn outcome(result: Result<String, BumpError>) -> Result<Seq<char>, BumpError> {
    match result {
        Ok(text) => Ok(text@),
        Err(error) => Err(error),
    }
}

/// The outcome of a bump: the text of the version that the command makes,
/// or the refusal.
pub open spec fn bump_outcome(
    version: Version,
    command: BumpCommand,
    label: Option<Seq<char>>,
) -> Result<Seq<char>, BumpError> {
    match bumped(version, command, label) {
        Some(next) => Ok(next.text()),
        None => Err(BumpError::InvalidBumpRequest),
    }
}

/// The command that makes a valid version is a valid version.
pub proof fn lemma_bumped_valid(version: Version, command: BumpCommand, label: Option<Seq<char>>)
    requires
        version.is_valid(),
    ensures
        bumped(version, command, label) matches Some(next) ==> next.is_valid(),
{
    assert(zero_text().len() == 1 && zero_text()[0] == '0');
    lemma_decimal_text_numeric(decimal_value(version.major) + 1);
    lemma_decimal_text_numeric(decimal_value(version.minor) + 1);
    lemma_decimal_text_numeric(decimal_value(version.patch) + 1);
}

/// The numeric identifier that writes one more than `text` does.
fn increment(text: &str) -> (r: Option<String>)
    requires
        is_numeric_identifier(text@),
    ensures
        match r {
            Some(next) => incremented(text@) == Some(next@),
            None => incremented(text@) is None,
        },
{
    match parse_decimal(text) {
        Some(n) => {
            if n == u64::MAX {
                None
            } else {
                Some(decimal_string(n + 1))
            }
        },
        None => None,
    }
}

/// The text of the next version.
///
/// `Major`, `Minor` and `Patch` raise one number of the core, set those after
/// it to zero and drop both segments; they are refused where the number to
/// raise is the largest of 64 bits or more. `Release` keeps the core alone.
/// `Prerelease` keeps the core and puts `label` behind it as the pre-release
/// segment. `Build` keeps the core and the pre-release segment and puts
/// `label` behind them as the build segment. The last two are refused where
/// `label` is missing or is no list of identifiers of its kind. Every refusal
/// is `InvalidBumpRequest`, and every text handed out is a semantic version.
pub fn bump(version: &SemanticVersion, command: BumpCommand, label: Option<&str>) -> (r: Result<
    String,
    BumpError,
>)
    ensures
        outcome(r) == bump_outcome(version@, command, optional_text(label)),
        r matches Ok(text) ==> is_semantic_version(text@),
{
    proof {
        use_type_invariant(version);
        lemma_bumped_valid(version@, command, optional_text(label));
        reveal_strlit(".");
        reveal_strlit("0");
        reveal_strlit("-");
        reveal_strlit("+");
        assert("."@ =~= seq!['.']);
        assert("0"@ =~= seq!['0']);
        assert("-"@ =~= seq!['-']);
        assert("+"@ =~= seq!['+']);
    }
    let ghost next = bumped(version@, command, optional_text(label));
    let r = match command {
        BumpCommand::Major => match increment(version.major()) {
            Some(major) => {
                let mut text = major;
                text.append(".");
                text.append("0");
                text.append(".");
                text.append("0");
                assert(text@ =~= next.unwrap().text());
                Ok(text)
            },
            None => Err(BumpError::InvalidBumpRequest),
        },
        BumpCommand::Minor => match increment(version.minor()) {
            Some(minor) => {
                let mut text = String::from_str(version.major());
                text.append(".");
                text.append(minor.as_str());
                text.append(".");
                text.append("0");
                assert(text@ =~= next.unwrap().text());
                Ok(text)
            },
            None => Err(BumpError::InvalidBumpRequest),
        },
        BumpCommand::Patch => match increment(version.patch()) {
            Some(patch) => {
                let mut text = String::from_str(version.major());
                text.append(".");
                text.append(version.minor());
                text.append(".");
                text.append(patch.as_str());
                assert(text@ =~= next.unwrap().text());
                Ok(text)
            },
            None => Err(BumpError::InvalidBumpRequest),
        },
        BumpCommand::Release => {
            let text = version.render_core();
            assert(text@ =~= next.unwrap().text());
            Ok(text)
        },
        BumpCommand::Prerelease => match label {
            Some(label) => match parse_identifiers(label, IdentifierKind::PreRelease) {
                Some(_) => {
                    let mut text = version.render_core();
                    text.append("-");
                    text.append(label);
                    proof {
                        lemma_join_split(label@);
                        assert(text@ =~= next.unwrap().text());
                    }
                    Ok(text)
                },
                None => Err(BumpError::InvalidBumpRequest),
            },
            None => Err(BumpError::InvalidBumpRequest),
        },
        BumpCommand::Build => match label {
            Some(label) => match parse_identifiers(label, IdentifierKind::Build) {
                Some(_) => {
                    let mut text = version.render_without_build();
                    text.append("+");
                    text.append(label);
                    proof {
                        lemma_join_split(label@);
                        assert(text@ =~= next.unwrap().text());
                    }
                    Ok(text)
                },
                None => Err(BumpError::InvalidBumpRequest),
            },
            None => Err(BumpError::InvalidBumpRequest),
        },
    };
    proof {
        if next is Some {
            lemma_components(next.unwrap().text());
            assert(is_text_of(next.unwrap().text(), next.unwrap()));
        }
    }
    r
}

/// The command that a word names.
pub open spec fn command_of(word: Seq<char>) -> Option<BumpCommand> {
    if word == "major"@ {
        Some(BumpCommand::Major)
    } else if word == "minor"@ {
        Some(BumpCommand::Minor)
    } else if word == "patch"@ {
        Some(BumpCommand::Patch)
    } else if word == "release"@ {
        Some(BumpCommand::Release)
    } else if word == "prerel"@ {
        Some(BumpCommand::Prerelease)
    } else if word == "build"@ {
        Some(BumpCommand::Build)
    } else {
        None
    }
}

/// Whether the text is the word, which is ASCII.
fn is_word(text: &str, word: &str) -> (r: bool)
    requires
        word.is_ascii(),
    ensures
        r == (text@ == word@),
{
    if !text.is_ascii() {
        return false;
    }
    let a = ascii_bytes(text);
    let b = ascii_bytes(word);
    if a.len() != b.len() {
        return false;
    }
    let mut i: usize = 0;
    while i < a.len()
        invariant
            bytes_of(a@, text@),
            bytes_of(b@, word@),
            a@.len() == b@.len(),
            i <= a@.len(),
            forall|k: int| 0 <= k < i ==> text@[k] == word@[k],
        decreases a@.len() - i,
    {
        if a[i] != b[i] {
            assert(a@[i as int] as char == text@[i as int]);
            assert(b@[i as int] as char == word@[i as int]);
            return false;
        }
        assert(a@[i as int] as char == text@[i as int]);
        assert(b@[i as int] as char == word@[i as int]);
        i += 1;
    }
    assert(text@ =~= word@);
    true
}

/// The command that a word names: `major`, `minor`, `patch`, `release`,
/// `prerel` or `build`. Any other word is refused as `InvalidBumpRequest`.
pub fn parse_command(word: &str) -> (r: Result<BumpCommand, BumpError>)
    ensures
        r == match command_of(word@) {
            Some(command) => Ok::<BumpCommand, BumpError>(command),
            None => Err::<BumpCommand, BumpError>(BumpError::InvalidBumpRequest),
        },
{
    proof {
        reveal_strlit("major");
        reveal_strlit("minor");
        reveal_strlit("patch");
        reveal_strlit("release");
        reveal_strlit("prerel");
        reveal_strlit("build");
    }
    if is_word(word, "major") {
        Ok(BumpCommand::Major)
    } else if is_word(word, "minor") {
        Ok(BumpCommand::Minor)
    } else if is_word(word, "patch") {
        Ok(BumpCommand::Patch)
    } else if is_word(word, "release") {
        Ok(BumpCommand::Release)
    } else if is_word(word, "prerel") {
        Ok(BumpCommand::Prerelease)
    } else if is_word(word, "build") {
        Ok(BumpCommand::Build)
    } else {
        Err(BumpError::InvalidBumpRequest)
    }
}

/// The outcome of a request made in words: `MalformedVersion` where the
/// text is no semantic version; else `InvalidBumpRequest` where the word
/// names no command; else the outcome of the bump of the version that the
/// text writes.
pub open spec fn generated(
    command: Seq<char>,
    label: Option<Seq<char>>,
    version: Seq<char>,
) -> Result<Seq<char>, BumpError> {
    if !is_semantic_version(version) {
        Err(BumpError::MalformedVersion)
    } else {
        match command_of(command) {
            Some(command) => bump_outcome(components(version), command, label),
            None => Err(BumpError::InvalidBumpRequest),
        }
    }
}

/// The text of the next version, for a version and a command given as text.
///
/// Validates `version`, reads `command` and bumps the version, with
/// `sub_version` as the label of the new pre-release or build segment.
pub fn generate_version(command: &str, sub_version: Option<&str>, version: &str) -> (r: Result<
    String,
    BumpError,
>)
    ensures
        outcome(r) == generated(command@, optional_text(sub_version), version@),
        r matches Ok(text) ==> is_semantic_version(text@),
{
    proof {
        lemma_components(version@);
    }
    match validate(version) {
        Some(current) => match parse_command(command) {
            Ok(command) => bump(&current, command, sub_version),
            Err(error) => Err(error),
        },
        None => Err(BumpError::MalformedVersion),
    }
}

} // verus!
