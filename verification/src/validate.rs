//! The validator: decides whether a text is a semantic version and, where
//! it is, hands out its components.

use vstd::prelude::*;
use vstd::string::*;
use crate::chars::{all_digits, ascii_bytes, bytes_of, is_digit, is_ident_char};
use crate::dotted::{
    dot_free, is_identifier_list, join_dots, lemma_dotted_chars, lemma_identifier_dot_free,
    lemma_join_split, lemma_split_join, parse_identifiers, split_dots,
};
use crate::ident::{check_numeric_identifier, IdentifierKind};
use crate::version::{SemanticVersion, Version};

verus! {

/// The text writes the version: it is the text of the version, which is
/// valid, with or without a leading `v` or `V`.
pub open spec fn is_text_of(text: Seq<char>, version: Version) -> bool {
    &&& version.is_valid()
    &&& (text == version.text() || text == seq!['v'] + version.text() || text == seq!['V']
        + version.text())
}

/// The text is a semantic version.
pub open spec fn is_semantic_version(text: Seq<char>) -> bool {
    exists|version: Version| is_text_of(text, version)
}

/// The first place at or after `from` that holds `a` or `b`, or the length
/// of the text where none does.
pub open spec fn first_of(text: Seq<char>, from: int, a: char, b: char) -> int
    decreases text.len() - from,
{
    if from < 0 || from >= text.len() {
        text.len() as int
    } else if text[from] == a || text[from] == b {
        from
    } else {
        first_of(text, from + 1, a, b)
    }
}

/// The length of the optional leading `v` or `V`.
pub open spec fn prefix_len(text: Seq<char>) -> int {
    if text.len() > 0 && (text[0] == 'v' || text[0] == 'V') {
        1
    } else {
        0
    }
}

/// The place after `at`, but no place after the end of the text.
pub open spec fn after(text: Seq<char>, at: int) -> int {
    if at < text.len() {
        at + 1
    } else {
        at
    }
}

/// Where the major number ends: at the first dot.
pub open spec fn major_end(text: Seq<char>) -> int {
    first_of(text, prefix_len(text), '.', '.')
}

/// Where the minor number ends: at the second dot.
pub open spec fn minor_end(text: Seq<char>) -> int {
    first_of(text, after(text, major_end(text)), '.', '.')
}

/// Where the patch number ends: at the first hyphen or plus sign after the
/// second dot.
pub open spec fn patch_end(text: Seq<char>) -> int {
    first_of(text, after(text, minor_end(text)), '-', '+')
}

/// A hyphen follows the patch number.
pub open spec fn has_pre_release(text: Seq<char>) -> bool {
    patch_end(text) < text.len() && text[patch_end(text)] == '-'
}

/// Where the pre-release segment ends: at the first plus sign after its
/// hyphen. Without such a segment, where the patch number ends.
pub open spec fn pre_release_end(text: Seq<char>) -> int {
    if has_pre_release(text) {
        first_of(text, patch_end(text) + 1, '+', '+')
    } else {
        patch_end(text)
    }
}

/// The components that the text has if it is a semantic version: what
/// stands between the first dots, hyphen and plus sign.
pub open spec fn components(text: Seq<char>) -> Version {
    Version {
        major: text.subrange(prefix_len(text), major_end(text)),
        minor: text.subrange(after(text, major_end(text)), minor_end(text)),
        patch: text.subrange(after(text, minor_end(text)), patch_end(text)),
        pre_release: if has_pre_release(text) {
            Some(split_dots(text.subrange(patch_end(text) + 1, pre_release_end(text))))
        } else {
            None
        },
        build: if pre_release_end(text) < text.len() {
            Some(split_dots(text.subrange(pre_release_end(text) + 1, text.len() as int)))
        } else {
            None
        },
    }
}

/// `first_of` is at or after `from`, holds `a` or `b` unless it is the end,
/// and nothing between `from` and it does.
proof fn lemma_first_of(text: Seq<char>, from: int, a: char, b: char)
    requires
        0 <= from <= text.len(),
    ensures
        from <= first_of(text, from, a, b) <= text.len(),
        first_of(text, from, a, b) < text.len() ==> text[first_of(text, from, a, b)] == a
            || text[first_of(text, from, a, b)] == b,
        forall|k: int|
            from <= k < first_of(text, from, a, b) ==> #[trigger] text[k] != a && text[k] != b,
    decreases text.len() - from,
{
    if from < text.len() && text[from] != a && text[from] != b {
        lemma_first_of(text, from + 1, a, b);
    }
}

/// A place that holds `a` or `b`, or the end, before which nothing from
/// `from` on holds `a` or `b`, is `first_of`.
proof fn lemma_first_of_at(text: Seq<char>, from: int, at: int, a: char, b: char)
    requires
        0 <= from <= at <= text.len(),
        at < text.len() ==> text[at] == a || text[at] == b,
        forall|k: int| from <= k < at ==> #[trigger] text[k] != a && text[k] != b,
    ensures
        first_of(text, from, a, b) == at,
    decreases at - from,
{
    if from < at {
        assert(text[from] != a && text[from] != b);
        lemma_first_of_at(text, from + 1, at, a, b);
    }
}

/// The places that cut a text into components are in order.
proof fn lemma_places(text: Seq<char>)
    ensures
        0 <= prefix_len(text) <= major_end(text) <= after(text, major_end(text)) <= minor_end(text)
            <= after(text, minor_end(text)) <= patch_end(text) <= pre_release_end(text)
            <= text.len(),
        major_end(text) < text.len() ==> text[major_end(text)] == '.',
        minor_end(text) < text.len() ==> text[minor_end(text)] == '.',
        pre_release_end(text) < text.len() ==> text[pre_release_end(text)] == '+',
{
    lemma_first_of(text, prefix_len(text), '.', '.');
    lemma_first_of(text, after(text, major_end(text)), '.', '.');
    lemma_first_of(text, after(text, minor_end(text)), '-', '+');
    if has_pre_release(text) {
        lemma_first_of(text, patch_end(text) + 1, '+', '+');
    }
}

/// Where the components of a text are valid, the text writes them.
proof fn lemma_components_sound(text: Seq<char>)
    requires
        components(text).is_valid(),
    ensures
        is_text_of(text, components(text)),
{
    let n = text.len() as int;
    let p = prefix_len(text);
    let e1 = major_end(text);
    let e2 = minor_end(text);
    let e3 = patch_end(text);
    let q = pre_release_end(text);
    let version = components(text);
    lemma_places(text);
    if e1 == n {
        assert(version.minor.len() == 0);
    }
    if e2 == n {
        assert(version.patch.len() == 0);
    }
    assert(version.core_text() =~= text.subrange(p, e3));
    if has_pre_release(text) {
        lemma_join_split(text.subrange(e3 + 1, q));
        assert(version.pre_release_text() =~= text.subrange(e3, q));
    } else {
        assert(version.pre_release_text() =~= text.subrange(e3, q));
    }
    if q < n {
        lemma_join_split(text.subrange(q + 1, n));
        assert(version.build_text() =~= text.subrange(q, n));
    } else {
        assert(version.build_text() =~= text.subrange(q, n));
    }
    assert(version.text() =~= text.subrange(p, n));
    if p == 0 {
        assert(text =~= version.text());
    } else if text[0] == 'v' {
        assert(text =~= seq!['v'] + version.text());
    } else {
        assert(text =~= seq!['V'] + version.text());
    }
}

/// Joined identifiers hold identifier characters and dots only.
proof fn lemma_joined_chars(ids: Seq<Seq<char>>, kind: IdentifierKind)
    requires
        is_identifier_list(ids, kind),
    ensures
        split_dots(join_dots(ids)) == ids,
        forall|i: int|
            0 <= i < join_dots(ids).len() ==> is_ident_char(#[trigger] join_dots(ids)[i])
                || join_dots(ids)[i] == '.',
{
    assert forall|i: int| 0 <= i < ids.len() implies dot_free(
        #[trigger] ids[i],
    ) by {
        lemma_identifier_dot_free(ids[i], kind);
    }
    lemma_split_join(ids);
    lemma_dotted_chars(join_dots(ids), kind);
}

/// Where the components of a version stand in a text that holds the text of
/// the version from `p` on.
proof fn lemma_segments(text: Seq<char>, version: Version, p: int)
    requires
        version.is_valid(),
        0 <= p <= text.len(),
        text.subrange(p, text.len() as int) == version.text(),
    ensures
        ({
            let n = text.len() as int;
            let a = p + version.major.len();
            let b = a + 1 + version.minor.len();
            let c = b + 1 + version.patch.len();
            let d = c + version.pre_release_text().len();
            &&& d + version.build_text().len() == n
            &&& text.subrange(p, a) == version.major
            &&& text[a] == '.'
            &&& text.subrange(a + 1, b) == version.minor
            &&& text[b] == '.'
            &&& text.subrange(b + 1, c) == version.patch
            &&& text.subrange(c, d) == version.pre_release_text()
            &&& text.subrange(d, n) == version.build_text()
        }),
{
    let n = text.len() as int;
    let body = version.text();
    let a = p + version.major.len();
    let b = a + 1 + version.minor.len();
    let c = b + 1 + version.patch.len();
    let d = c + version.pre_release_text().len();
    let dot = seq!['.'];
    let head1 = version.major + dot;
    let head2 = head1 + version.minor;
    let head3 = head2 + dot;
    let core = head3 + version.patch;
    let head4 = core + version.pre_release_text();
    assert(core == version.core_text());
    assert(body == head4 + version.build_text());
    assert(body.len() == n - p);
    assert(text.subrange(d, n) =~= version.build_text()) by {
        assert(text.subrange(p, n).subrange(d - p, n - p) =~= text.subrange(d, n));
        assert((head4 + version.build_text()).subrange(d - p, n - p) =~= version.build_text());
    }
    assert(text.subrange(p, d) =~= head4) by {
        assert(text.subrange(p, n).subrange(0, d - p) =~= text.subrange(p, d));
        assert((head4 + version.build_text()).subrange(0, d - p) =~= head4);
    }
    assert(text.subrange(c, d) =~= version.pre_release_text()) by {
        assert(text.subrange(p, d).subrange(c - p, d - p) =~= text.subrange(c, d));
        assert((core + version.pre_release_text()).subrange(c - p, d - p)
            =~= version.pre_release_text());
    }
    assert(text.subrange(p, c) =~= core) by {
        assert(text.subrange(p, d).subrange(0, c - p) =~= text.subrange(p, c));
        assert((core + version.pre_release_text()).subrange(0, c - p) =~= core);
    }
    assert(text.subrange(b + 1, c) =~= version.patch) by {
        assert(text.subrange(p, c).subrange(b + 1 - p, c - p) =~= text.subrange(b + 1, c));
        assert((head3 + version.patch).subrange(b + 1 - p, c - p) =~= version.patch);
    }
    assert(text.subrange(p, b + 1) =~= head3) by {
        assert(text.subrange(p, c).subrange(0, b + 1 - p) =~= text.subrange(p, b + 1));
        assert((head3 + version.patch).subrange(0, b + 1 - p) =~= head3);
    }
    assert(text[b] == '.') by {
        assert(text.subrange(p, b + 1)[b - p] == text[b]);
        assert((head2 + dot)[b - p] == '.');
    }
    assert(text.subrange(p, b) =~= head2) by {
        assert(text.subrange(p, b + 1).subrange(0, b - p) =~= text.subrange(p, b));
        assert((head2 + dot).subrange(0, b - p) =~= head2);
    }
    assert(text.subrange(a + 1, b) =~= version.minor) by {
        assert(text.subrange(p, b).subrange(a + 1 - p, b - p) =~= text.subrange(a + 1, b));
        assert((head1 + version.minor).subrange(a + 1 - p, b - p) =~= version.minor);
    }
    assert(text.subrange(p, a + 1) =~= head1) by {
        assert(text.subrange(p, b).subrange(0, a + 1 - p) =~= text.subrange(p, a + 1));
        assert((head1 + version.minor).subrange(0, a + 1 - p) =~= head1);
    }
    assert(text[a] == '.') by {
        assert(text.subrange(p, a + 1)[a - p] == text[a]);
        assert((version.major + dot)[a - p] == '.');
    }
    assert(text.subrange(p, a) =~= version.major) by {
        assert(text.subrange(p, a + 1).subrange(0, a - p) =~= text.subrange(p, a));
        assert((version.major + dot).subrange(0, a - p) =~= version.major);
    }
}

/// In a text, a piece of digits that ends at `to` with a character that is
/// `a` or `b`, or with the end of the text, ends at `first_of`.
proof fn lemma_digits_end(text: Seq<char>, from: int, to: int, a: char, b: char)
    requires
        0 <= from <= to <= text.len(),
        all_digits(text.subrange(from, to)),
        !is_digit(a),
        !is_digit(b),
        to < text.len() ==> text[to] == a || text[to] == b,
    ensures
        first_of(text, from, a, b) == to,
{
    assert forall|k: int| from <= k < to implies #[trigger] text[k] != a && text[k] != b by {
        assert(is_digit(text.subrange(from, to)[k - from]));
    }
    lemma_first_of_at(text, from, to, a, b);
}

/// In a text, a piece of joined identifiers that ends at `to` with a plus
/// sign, or with the end of the text, ends at `first_of`, and its pieces are
/// the identifiers.
proof fn lemma_identifiers_end(
    text: Seq<char>,
    from: int,
    to: int,
    ids: Seq<Seq<char>>,
    kind: IdentifierKind,
)
    requires
        0 <= from <= to <= text.len(),
        is_identifier_list(ids, kind),
        text.subrange(from, to) == join_dots(ids),
        to < text.len() ==> text[to] == '+',
    ensures
        first_of(text, from, '+', '+') == to,
        split_dots(text.subrange(from, to)) == ids,
{
    lemma_joined_chars(ids, kind);
    let joined = join_dots(ids);
    assert forall|k: int| from <= k < to implies #[trigger] text[k] != '+' by {
        assert(text.subrange(from, to)[k - from] == text[k]);
        assert(is_ident_char(joined[k - from]) || joined[k - from] == '.');
    }
    lemma_first_of_at(text, from, to, '+', '+');
}

/// The length of the prefix of a text that writes a version.
proof fn lemma_prefix(text: Seq<char>, version: Version) -> (p: int)
    requires
        is_text_of(text, version),
    ensures
        p == prefix_len(text),
        0 <= p <= text.len(),
        text.subrange(p, text.len() as int) == version.text(),
{
    let body = version.text();
    assert(is_digit(version.major[0]));
    assert(body[0] == version.major[0]);
    if text == body {
        assert(text.subrange(0, text.len() as int) =~= body);
        0
    } else {
        assert(text[0] == 'v' || text[0] == 'V');
        assert(text.subrange(1, text.len() as int) =~= body);
        1
    }
}

/// Where the numbers of the core end in a text that holds the text of a
/// version from `p` on.
proof fn lemma_core_places(text: Seq<char>, version: Version, p: int)
    requires
        version.is_valid(),
        0 <= p <= text.len(),
        text.subrange(p, text.len() as int) == version.text(),
    ensures
        ({
            let a = p + version.major.len();
            let b = a + 1 + version.minor.len();
            let c = b + 1 + version.patch.len();
            &&& c <= text.len()
            &&& first_of(text, p, '.', '.') == a
            &&& first_of(text, a + 1, '.', '.') == b
            &&& first_of(text, b + 1, '-', '+') == c
            &&& (c < text.len() && text[c] == '-') == (version.pre_release is Some)
        }),
{
    let n = text.len() as int;
    let a = p + version.major.len();
    let b = a + 1 + version.minor.len();
    let c = b + 1 + version.patch.len();
    let d = c + version.pre_release_text().len();
    lemma_segments(text, version, p);
    lemma_digits_end(text, p, a, '.', '.');
    lemma_digits_end(text, a + 1, b, '.', '.');
    if version.pre_release is Some {
        assert(text.subrange(c, d)[0] == '-');
        assert(text[c] == '-');
    } else if version.build is Some {
        assert(text.subrange(d, n)[0] == '+');
        assert(text[c] == '+');
    } else {
        assert(c == n);
    }
    lemma_digits_end(text, b + 1, c, '-', '+');
}

/// Where the pre-release segment ends, and what the two segments hold, in a
/// text that holds the text of a version from `p` on.
proof fn lemma_tail_places(text: Seq<char>, version: Version, p: int)
    requires
        version.is_valid(),
        0 <= p <= text.len(),
        text.subrange(p, text.len() as int) == version.text(),
    ensures
        ({
            let n = text.len() as int;
            let c = p + version.major.len() + 1 + version.minor.len() + 1 + version.patch.len();
            let d = c + version.pre_release_text().len();
            &&& c <= d <= n
            &&& (d < n) == (version.build is Some)
            &&& version.pre_release matches Some(ids) ==> first_of(text, c + 1, '+', '+') == d
                && split_dots(text.subrange(c + 1, d)) == ids
            &&& version.pre_release is None ==> d == c
            &&& version.build matches Some(ids) ==> split_dots(text.subrange(d + 1, n)) == ids
        }),
{
    let n = text.len() as int;
    let c = p + version.major.len() + 1 + version.minor.len() + 1 + version.patch.len();
    let d = c + version.pre_release_text().len();
    lemma_segments(text, version, p);
    assert(d == n || text[d] == '+') by {
        if version.build is Some {
            assert(text.subrange(d, n)[0] == '+');
        }
    }
    match version.pre_release {
        Some(ids) => {
            assert(text.subrange(c + 1, d) =~= join_dots(ids)) by {
                assert(text.subrange(c, d).subrange(1, d - c) =~= text.subrange(c + 1, d));
                assert((seq!['-'] + join_dots(ids)).subrange(1, d - c) =~= join_dots(ids));
            }
            lemma_identifiers_end(text, c + 1, d, ids, IdentifierKind::PreRelease);
        },
        None => {},
    }
    match version.build {
        Some(ids) => {
            assert(text.subrange(d + 1, n) =~= join_dots(ids)) by {
                assert(text.subrange(d, n).subrange(1, n - d) =~= text.subrange(d + 1, n));
                assert((seq!['+'] + join_dots(ids)).subrange(1, n - d) =~= join_dots(ids));
            }
            lemma_identifiers_end(text, d + 1, n, ids, IdentifierKind::Build);
        },
        None => {},
    }
}

/// A text that writes a version has the components of that version.
proof fn lemma_components_complete(text: Seq<char>, version: Version)
    requires
        is_text_of(text, version),
    ensures
        components(text) == version,
{
    let n = text.len() as int;
    let p = lemma_prefix(text, version);
    let a = p + version.major.len();
    let b = a + 1 + version.minor.len();
    let c = b + 1 + version.patch.len();
    let d = c + version.pre_release_text().len();
    lemma_segments(text, version, p);
    lemma_core_places(text, version, p);
    lemma_tail_places(text, version, p);
    assert(major_end(text) == a);
    assert(after(text, a) == a + 1);
    assert(minor_end(text) == b);
    assert(after(text, b) == b + 1);
    assert(patch_end(text) == c);
    assert(has_pre_release(text) == (version.pre_release is Some));
    assert(pre_release_end(text) == d);
    let found = components(text);
    assert(found.major == version.major);
    assert(found.minor == version.minor);
    assert(found.patch == version.patch);
    assert(found.pre_release == version.pre_release);
    assert(found.build == version.build);
}

/// A text is a semantic version exactly where its components are valid, and
/// it then writes these components and no others.
pub proof fn lemma_components(text: Seq<char>)
    ensures
        is_semantic_version(text) <==> components(text).is_valid(),
        forall|version: Version| is_text_of(text, version) ==> version == components(text),
{
    if components(text).is_valid() {
        lemma_components_sound(text);
    }
    assert forall|version: Version| is_text_of(text, version) implies version == components(
        text,
    ) by {
        lemma_components_complete(text, version);
    }
}

/// A text of a valid version holds ASCII characters only.
proof fn lemma_version_is_ascii(text: Seq<char>)
    requires
        components(text).is_valid(),
    ensures
        vstd::utf8::is_ascii_chars(text),
{
    let n = text.len() as int;
    let p = prefix_len(text);
    let e1 = major_end(text);
    let e2 = minor_end(text);
    let e3 = patch_end(text);
    let q = pre_release_end(text);
    let version = components(text);
    lemma_places(text);
    if has_pre_release(text) {
        lemma_dotted_chars(text.subrange(e3 + 1, q), IdentifierKind::PreRelease);
    }
    if q < n {
        lemma_dotted_chars(text.subrange(q + 1, n), IdentifierKind::Build);
    }
    assert forall|i: int| 0 <= i < n implies '\0' <= #[trigger] text[i] <= '\u{7f}' by {
        if i < p {
        } else if i < e1 {
            assert(is_digit(version.major[i - p]));
        } else if i == e1 {
        } else if i < e2 {
            assert(is_digit(version.minor[i - e1 - 1]));
        } else if i == e2 {
        } else if i < e3 {
            assert(is_digit(version.patch[i - e2 - 1]));
        } else if i == e3 {
        } else if i < q {
            let piece = text.subrange(e3 + 1, q);
            assert(is_ident_char(piece[i - e3 - 1]) || piece[i - e3 - 1] == '.');
        } else if i == q {
        } else {
            let piece = text.subrange(q + 1, n);
            assert(is_ident_char(piece[i - q - 1]) || piece[i - q - 1] == '.');
        }
    }
}

/// The first place at or after `from` that holds the byte `a` or the byte
/// `b`, or the length where none does.
fn find_first(bytes: &[u8], from: usize, a: u8, b: u8, Ghost(text): Ghost<Seq<char>>) -> (at:
    usize)
    requires
        bytes_of(bytes@, text),
        from <= bytes@.len(),
        a < 128,
        b < 128,
    ensures
        at == first_of(text, from as int, a as char, b as char),
        from <= at <= bytes@.len(),
{
    let mut i = from;
    while i < bytes.len()
        invariant
            bytes_of(bytes@, text),
            from <= i <= bytes@.len(),
            a < 128,
            b < 128,
            first_of(text, from as int, a as char, b as char) == first_of(
                text,
                i as int,
                a as char,
                b as char,
            ),
        decreases bytes@.len() - i,
    {
        assert(bytes@[i as int] as char == text[i as int]);
        if bytes[i] == a || bytes[i] == b {
            return i;
        }
        i += 1;
    }
    i
}

/// The components of a semantic version.
///
/// Returns the version that `input` writes where `input` is a semantic
/// version, with or without a leading `v` or `V`, and nothing otherwise.
pub fn validate(input: &str) -> (r: Option<SemanticVersion>)
    ensures
        r is Some <==> is_semantic_version(input@),
        r matches Some(version) ==> is_text_of(input@, version@) && version@ == components(input@),
{
    let ghost text = input@;
    proof {
        lemma_components(text);
        lemma_places(text);
    }
    if !input.is_ascii() {
        proof {
            if components(text).is_valid() {
                lemma_version_is_ascii(text);
            }
        }
        return None;
    }
    let bytes = ascii_bytes(input);
    let n = bytes.len();
    let start: usize = if n > 0 && (bytes[0] == 118 || bytes[0] == 86) {
        1
    } else {
        0
    };
    assert(start == prefix_len(text)) by {
        if n > 0 {
            assert(bytes@[0] as char == text[0]);
        }
    }
    let e1 = find_first(bytes, start, 46, 46, Ghost(text));
    let s2: usize = if e1 < n {
        e1 + 1
    } else {
        e1
    };
    let e2 = find_first(bytes, s2, 46, 46, Ghost(text));
    let s3: usize = if e2 < n {
        e2 + 1
    } else {
        e2
    };
    let e3 = find_first(bytes, s3, 45, 43, Ghost(text));
    let major = input.substring_ascii(start, e1);
    let minor = input.substring_ascii(s2, e2);
    let patch = input.substring_ascii(s3, e3);
    if !check_numeric_identifier(major) || !check_numeric_identifier(minor)
        || !check_numeric_identifier(patch) {
        return None;
    }
    let with_pre_release = e3 < n && bytes[e3] == 45;
    assert(with_pre_release == has_pre_release(text)) by {
        if e3 < n {
            assert(bytes@[e3 as int] as char == text[e3 as int]);
        }
    }
    let mut q = e3;
    let mut pre_release: Option<Vec<String>> = None;
    if with_pre_release {
        q = find_first(bytes, e3 + 1, 43, 43, Ghost(text));
        match parse_identifiers(input.substring_ascii(e3 + 1, q), IdentifierKind::PreRelease) {
            Some(ids) => {
                pre_release = Some(ids);
            },
            None => {
                return None;
            },
        }
    }
    assert(q == pre_release_end(text));
    let mut build: Option<Vec<String>> = None;
    if q < n {
        match parse_identifiers(input.substring_ascii(q + 1, n), IdentifierKind::Build) {
            Some(ids) => {
                build = Some(ids);
            },
            None => {
                return None;
            },
        }
    }
    let version = SemanticVersion::from_parts(
        String::from_str(major),
        String::from_str(minor),
        String::from_str(patch),
        pre_release,
        build,
    );
    assert(version@ =~= components(text));
    Some(version)
}

} // verus!
