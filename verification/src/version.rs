//! A semantic version: its five components and its text.

use vstd::prelude::*;
use vstd::string::*;
use crate::dotted::{is_identifier_list, join_dots, join_identifiers, texts};
use crate::ident::{is_numeric_identifier, IdentifierKind};

verus! {

/// The components of a semantic version, as mathematical values: the three
/// numeric identifiers of the core, and the identifiers of the pre-release
/// and build segments where the version has them.
#[verifier::ext_equal]
pub struct Version {
    pub major: Seq<char>,
    pub minor: Seq<char>,
    pub patch: Seq<char>,
    pub pre_release: Option<Seq<Seq<char>>>,
    pub build: Option<Seq<Seq<char>>>,
}

impl Version {
    /// Each component follows the grammar of its place.
    pub open spec fn is_valid(self) -> bool {
        &&& is_numeric_identifier(self.major)
        &&& is_numeric_identifier(self.minor)
        &&& is_numeric_identifier(self.patch)
        &&& (self.pre_release matches Some(ids) ==> is_identifier_list(
            ids,
            IdentifierKind::PreRelease,
        ))
        &&& (self.build matches Some(ids) ==> is_identifier_list(ids, IdentifierKind::Build))
    }

    /// The core: `major.minor.patch`.
    pub open spec fn core_text(self) -> Seq<char> {
        self.major + seq!['.'] + self.minor + seq!['.'] + self.patch
    }

    /// The pre-release segment with its hyphen; empty where there is none.
    pub open spec fn pre_release_text(self) -> Seq<char> {
        match self.pre_release {
            Some(ids) => seq!['-'] + join_dots(ids),
            None => Seq::empty(),
        }
    }

    /// The build segment with its plus sign; empty where there is none.
    pub open spec fn build_text(self) -> Seq<char> {
        match self.build {
            Some(ids) => seq!['+'] + join_dots(ids),
            None => Seq::empty(),
        }
    }

    /// The text of the version: `major.minor.patch[-pre_release][+build]`.
    pub open spec fn text(self) -> Seq<char> {
        self.core_text() + self.pre_release_text() + self.build_text()
    }
}

/// What an optional list of strings holds.
pub open spec fn optional_texts(strings: Option<Vec<String>>) -> Option<Seq<Seq<char>>> {
    match strings {
        Some(list) => Some(texts(list@)),
        None => None,
    }
}

/// A semantic version. A value of this type always holds valid components:
/// it comes out of a successful validation, and nothing changes it.
#[derive(Debug, PartialEq, Eq)]
pub struct SemanticVersion {
    major: String,
    minor: String,
    patch: String,
    pre_release: Option<Vec<String>>,
    build: Option<Vec<String>>,
}

impl View for SemanticVersion {
    type V = Version;

    closed spec fn view(&self) -> Version {
        Version {
            major: self.major@,
            minor: self.minor@,
            patch: self.patch@,
            pre_release: optional_texts(self.pre_release),
            build: optional_texts(self.build),
        }
    }
}

/// A copy of a list of strings.
fn clone_strings(strings: &Vec<String>) -> (r: Vec<String>)
    ensures
        r@ == strings@,
{
    let mut r: Vec<String> = Vec::new();
    let mut i: usize = 0;
    while i < strings.len()
        invariant
            i <= strings.len(),
            r@ == strings@.take(i as int),
        decreases strings.len() - i,
    {
        r.push(strings[i].clone());
        assert(r@ =~= strings@.take(i + 1));
        i += 1;
    }
    assert(strings@.take(strings@.len() as int) =~= strings@);
    r
}

/// A copy of an optional list of strings.
fn clone_optional_strings(strings: &Option<Vec<String>>) -> (r: Option<Vec<String>>)
    ensures
        optional_texts(r) == optional_texts(*strings),
{
    match strings {
        Some(list) => Some(clone_strings(list)),
        None => None,
    }
}

impl Clone for SemanticVersion {
    fn clone(&self) -> (r: Self)
        ensures
            r@ == self@,
    {
        proof {
            use_type_invariant(self);
        }
        SemanticVersion {
            major: self.major.clone(),
            minor: self.minor.clone(),
            patch: self.patch.clone(),
            pre_release: clone_optional_strings(&self.pre_release),
            build: clone_optional_strings(&self.build),
        }
    }
}

impl SemanticVersion {
    /// The components of every value are valid.
    #[verifier::type_invariant]
    pub open spec fn well_formed(&self) -> bool {
        self@.is_valid()
    }

    /// A version of the given components.
    pub(crate) fn from_parts(
        major: String,
        minor: String,
        patch: String,
        pre_release: Option<Vec<String>>,
        build: Option<Vec<String>>,
    ) -> (version: SemanticVersion)
        requires
            (Version {
                major: major@,
                minor: minor@,
                patch: patch@,
                pre_release: optional_texts(pre_release),
                build: optional_texts(build),
            }).is_valid(),
        ensures
            version@ == (Version {
                major: major@,
                minor: minor@,
                patch: patch@,
                pre_release: optional_texts(pre_release),
                build: optional_texts(build),
            }),
    {
        SemanticVersion { major, minor, patch, pre_release, build }
    }

    /// The major number, as it is written.
    pub fn major(&self) -> (r: &str)
        ensures
            r@ == self@.major,
            is_numeric_identifier(r@),
    {
        proof {
            use_type_invariant(self);
        }
        self.major.as_str()
    }

    /// The minor number, as it is written.
    pub fn minor(&self) -> (r: &str)
        ensures
            r@ == self@.minor,
            is_numeric_identifier(r@),
    {
        proof {
            use_type_invariant(self);
        }
        self.minor.as_str()
    }

    /// The patch number, as it is written.
    pub fn patch(&self) -> (r: &str)
        ensures
            r@ == self@.patch,
            is_numeric_identifier(r@),
    {
        proof {
            use_type_invariant(self);
        }
        self.patch.as_str()
    }

    /// The identifiers of the pre-release segment, in order, where the
    /// version has one.
    pub fn pre_release(&self) -> (r: &Option<Vec<String>>)
        ensures
            optional_texts(*r) == self@.pre_release,
    {
        &self.pre_release
    }

    /// The identifiers of the build segment, in order, where the version has
    /// one.
    pub fn build(&self) -> (r: &Option<Vec<String>>)
        ensures
            optional_texts(*r) == self@.build,
    {
        &self.build
    }

    /// The text of the version: `major.minor.patch[-pre_release][+build]`.
    pub fn render(&self) -> (r: String)
        ensures
            r@ == self@.text(),
    {
        let mut r = self.render_without_build();
        match &self.build {
            Some(ids) => {
                r.append("+");
                r.append(join_identifiers(ids).as_str());
            },
            None => {},
        }
        proof {
            reveal_strlit("+");
            assert("+"@ =~= seq!['+']);
            assert(r@ =~= self@.text());
        }
        r
    }

    /// The text of the version without its build segment:
    /// `major.minor.patch[-pre_release]`.
    pub fn render_without_build(&self) -> (r: String)
        ensures
            r@ == self@.core_text() + self@.pre_release_text(),
    {
        let mut r = self.render_core();
        match &self.pre_release {
            Some(ids) => {
                r.append("-");
                r.append(join_identifiers(ids).as_str());
            },
            None => {},
        }
        proof {
            reveal_strlit("-");
            assert("-"@ =~= seq!['-']);
            assert(r@ =~= self@.core_text() + self@.pre_release_text());
        }
        r
    }

    /// The text of the core: `major.minor.patch`.
    pub fn render_core(&self) -> (r: String)
        ensures
            r@ == self@.core_text(),
    {
        let mut r = String::from_str(self.major.as_str());
        r.append(".");
        r.append(self.minor.as_str());
        r.append(".");
        r.append(self.patch.as_str());
        proof {
            reveal_strlit(".");
            assert("."@ =~= seq!['.']);
            assert(r@ =~= self@.core_text());
        }
        r
    }
}

} // verus!
