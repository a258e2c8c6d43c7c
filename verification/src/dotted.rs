//! Lists of identifiers written as one text, with a dot between neighbours.

use vstd::prelude::*;
use vstd::string::*;
use crate::chars::{all_ident_chars, ascii_bytes, bytes_of, is_ident_char};
use crate::ident::{check_identifier, is_identifier, IdentifierKind};

verus! {

/// The text holds no dot.
pub open spec fn dot_free(text: Seq<char>) -> bool {
    forall|i: int| 0 <= i < text.len() ==> #[trigger] text[i] != '.'
}

/// The identifiers written one after the other, with a dot between neighbours.
pub open spec fn join_dots(ids: Seq<Seq<char>>) -> Seq<char>
    decreases ids.len(),
{
    if ids.len() == 0 {
        Seq::empty()
    } else if ids.len() == 1 {
        ids[0]
    } else {
        join_dots(ids.drop_last()) + seq!['.'] + ids.last()
    }
}

/// The place of the last dot of the text, or -1 where it holds none.
pub open spec fn last_dot(text: Seq<char>) -> int
    decreases text.len(),
{
    if text.len() == 0 {
        -1
    } else if text.last() == '.' {
        text.len() - 1
    } else {
        last_dot(text.drop_last())
    }
}

/// The pieces between the dots of the text, in order. A text without a dot
/// is its own single piece, the empty text too.
pub open spec fn split_dots(text: Seq<char>) -> Seq<Seq<char>>
    decreases text.len(),
{
    let d = last_dot(text);
    if 0 <= d < text.len() {
        split_dots(text.subrange(0, d)).push(text.subrange(d + 1, text.len() as int))
    } else {
        seq![text]
    }
}

/// A list of one or more identifiers of the given kind.
pub open spec fn is_identifier_list(ids: Seq<Seq<char>>, kind: IdentifierKind) -> bool {
    &&& ids.len() > 0
    &&& forall|i: int| 0 <= i < ids.len() ==> is_identifier(#[trigger] ids[i], kind)
}

/// A text made of one or more identifiers of the given kind, with a dot
/// between neighbours.
pub open spec fn is_dotted_identifiers(text: Seq<char>, kind: IdentifierKind) -> bool {
    is_identifier_list(split_dots(text), kind)
}

/// What the strings of a vector hold.
pub open spec fn texts(strings: Seq<String>) -> Seq<Seq<char>> {
    Seq::new(strings.len(), |i: int| strings[i]@)
}

/// An identifier holds no dot.
pub proof fn lemma_identifier_dot_free(text: Seq<char>, kind: IdentifierKind)
    requires
        is_identifier(text, kind),
    ensures
        dot_free(text),
        all_ident_chars(text),
{
    assert forall|i: int| 0 <= i < text.len() implies #[trigger] text[i] != '.' by {
        assert(is_ident_char(text[i]));
    }
}

/// `last_dot` is the place of a dot after which no dot follows.
proof fn lemma_last_dot(text: Seq<char>)
    ensures
        -1 <= last_dot(text) < text.len(),
        last_dot(text) >= 0 ==> text[last_dot(text)] == '.',
        forall|k: int| last_dot(text) < k < text.len() ==> #[trigger] text[k] != '.',
    decreases text.len(),
{
    if text.len() > 0 && text.last() != '.' {
        let front = text.drop_last();
        lemma_last_dot(front);
        assert forall|k: int| last_dot(text) < k < text.len() implies #[trigger] text[k]
            != '.' by {
            if k < front.len() {
                assert(front[k] == text[k]);
            }
        }
    }
}

/// A dot after which no dot follows is the last dot.
proof fn lemma_last_dot_at(text: Seq<char>, d: int)
    requires
        0 <= d < text.len(),
        text[d] == '.',
        forall|k: int| d < k < text.len() ==> #[trigger] text[k] != '.',
    ensures
        last_dot(text) == d,
{
    lemma_last_dot(text);
    let found = last_dot(text);
    if found < d {
        assert(text[d] != '.');
    }
}

/// A text without a dot has no last dot.
proof fn lemma_last_dot_none(text: Seq<char>)
    requires
        dot_free(text),
    ensures
        last_dot(text) == -1,
{
    lemma_last_dot(text);
    if last_dot(text) >= 0 {
        assert(text[last_dot(text)] != '.');
    }
}

/// A text has at least one piece.
proof fn lemma_split_nonempty(text: Seq<char>)
    ensures
        split_dots(text).len() >= 1,
    decreases text.len(),
{
    let d = last_dot(text);
    if 0 <= d < text.len() {
        lemma_split_nonempty(text.subrange(0, d));
    }
}

/// The pieces of a text that a dot at `d` ends, after which no dot follows.
proof fn lemma_split_at(text: Seq<char>, d: int)
    requires
        0 <= d < text.len(),
        text[d] == '.',
        forall|k: int| d < k < text.len() ==> #[trigger] text[k] != '.',
    ensures
        split_dots(text) == split_dots(text.subrange(0, d)).push(
            text.subrange(d + 1, text.len() as int),
        ),
{
    lemma_last_dot_at(text, d);
}

/// Joining the pieces of a text gives the text back.
pub proof fn lemma_join_split(text: Seq<char>)
    ensures
        join_dots(split_dots(text)) == text,
    decreases text.len(),
{
    let d = last_dot(text);
    lemma_last_dot(text);
    if 0 <= d < text.len() {
        let front = text.subrange(0, d);
        let back = text.subrange(d + 1, text.len() as int);
        lemma_join_split(front);
        lemma_split_nonempty(front);
        let pieces = split_dots(front).push(back);
        assert(pieces.drop_last() =~= split_dots(front));
        assert(pieces.last() == back);
        assert(front + seq!['.'] + back =~= text);
    } else {
        assert(seq![text].len() == 1);
        assert(seq![text][0] == text);
    }
}

/// The pieces of joined identifiers are the identifiers, where none holds a dot.
pub proof fn lemma_split_join(ids: Seq<Seq<char>>)
    requires
        ids.len() > 0,
        forall|i: int| 0 <= i < ids.len() ==> dot_free(#[trigger] ids[i]),
    ensures
        split_dots(join_dots(ids)) == ids,
    decreases ids.len(),
{
    if ids.len() == 1 {
        assert(dot_free(ids[0]));
        lemma_last_dot_none(ids[0]);
        assert(seq![ids[0]] =~= ids);
    } else {
        let front = ids.drop_last();
        let back = ids.last();
        assert forall|i: int| 0 <= i < front.len() implies dot_free(#[trigger] front[i]) by {
            assert(front[i] == ids[i]);
        }
        lemma_split_join(front);
        let head = join_dots(front);
        let text = head + seq!['.'] + back;
        let d = head.len() as int;
        assert(dot_free(back));
        assert forall|k: int| d < k < text.len() implies #[trigger] text[k] != '.' by {
            assert(text[k] == back[k - d - 1]);
        }
        lemma_split_at(text, d);
        assert(text.subrange(0, d) =~= head);
        assert(text.subrange(d + 1, text.len() as int) =~= back);
        assert(front.push(back) =~= ids);
    }
}

/// A text of identifiers holds identifier characters and dots only.
pub proof fn lemma_dotted_chars(text: Seq<char>, kind: IdentifierKind)
    requires
        is_dotted_identifiers(text, kind),
    ensures
        forall|i: int| 0 <= i < text.len() ==> is_ident_char(#[trigger] text[i]) || text[i] == '.',
    decreases text.len(),
{
    let d = last_dot(text);
    lemma_last_dot(text);
    if 0 <= d < text.len() {
        let front = text.subrange(0, d);
        let back = text.subrange(d + 1, text.len() as int);
        lemma_split_nonempty(front);
        let pieces = split_dots(text);
        assert(pieces[pieces.len() - 1] == back);
        assert(is_identifier(pieces[pieces.len() - 1], kind));
        lemma_identifier_dot_free(back, kind);
        assert forall|i: int| 0 <= i < split_dots(front).len() implies is_identifier(
            #[trigger] split_dots(front)[i],
            kind,
        ) by {
            assert(pieces[i] == split_dots(front)[i]);
        }
        lemma_dotted_chars(front, kind);
        assert forall|i: int| 0 <= i < text.len() implies is_ident_char(#[trigger] text[i])
            || text[i] == '.' by {
            if i < d {
                assert(front[i] == text[i]);
            } else if i > d {
                assert(back[i - d - 1] == text[i]);
                assert(is_ident_char(back[i - d - 1]));
            }
        }
    } else {
        assert(split_dots(text)[0] == text);
        lemma_identifier_dot_free(text, kind);
    }
}

/// A text of identifiers holds ASCII characters only.
proof fn lemma_dotted_is_ascii(text: Seq<char>, kind: IdentifierKind)
    requires
        is_dotted_identifiers(text, kind),
    ensures
        vstd::utf8::is_ascii_chars(text),
{
    lemma_dotted_chars(text, kind);
    assert forall|i: int| 0 <= i < text.len() implies '\0' <= #[trigger] text[i] <= '\u{7f}' by {
        assert(is_ident_char(text[i]) || text[i] == '.');
    }
}

/// The identifiers of a dotted text.
///
/// Returns the pieces between the dots of `text` where each of them is an
/// identifier of the given kind, and nothing where one of them is not.
pub fn parse_identifiers(text: &str, kind: IdentifierKind) -> (r: Option<Vec<String>>)
    ensures
        r is Some <==> is_dotted_identifiers(text@, kind),
        r matches Some(ids) ==> texts(ids@) == split_dots(text@),
{
    if !text.is_ascii() {
        proof {
            if is_dotted_identifiers(text@, kind) {
                lemma_dotted_is_ascii(text@, kind);
            }
        }
        return None;
    }
    let bytes = ascii_bytes(text);
    let n = bytes.len();
    let mut found: Vec<String> = Vec::new();
    let mut all_valid = true;
    let mut start: usize = 0;
    let mut i: usize = 0;
    assert(texts(found@) =~= Seq::<Seq<char>>::empty());
    while i < n
        invariant
            text.is_ascii(),
            bytes_of(bytes@, text@),
            n == bytes@.len(),
            start <= i <= n,
            forall|k: int| start <= k < i ==> #[trigger] text@[k] != '.',
            start == 0 ==> found@.len() == 0,
            start > 0 ==> text@[start - 1] == '.' && texts(found@) == split_dots(
                text@.subrange(0, start - 1),
            ),
            all_valid == (forall|k: int|
                0 <= k < found@.len() ==> is_identifier(#[trigger] texts(found@)[k], kind)),
        decreases n - i,
    {
        if bytes[i] == 46 {
            assert(text@[i as int] == '.');
            let piece = text.substring_ascii(start, i);
            let valid = check_identifier(piece, kind);
            let ghost before = texts(found@);
            found.push(String::from_str(piece));
            proof {
                assert(texts(found@) =~= before.push(piece@));
                lemma_pieces_before(text@, start as int, i as int);
                lemma_valid_after_push(before, piece@, kind);
            }
            all_valid = all_valid && valid;
            start = i + 1;
        }
        i += 1;
    }
    let piece = text.substring_ascii(start, n);
    let valid = check_identifier(piece, kind);
    let ghost before = texts(found@);
    found.push(String::from_str(piece));
    proof {
        assert(texts(found@) =~= before.push(piece@));
        lemma_pieces_whole(text@, start as int);
        lemma_valid_after_push(before, piece@, kind);
        if start == 0 {
            assert(piece@ =~= text@);
            assert(before.push(piece@) =~= seq![text@]);
        }
        assert(texts(found@) == split_dots(text@));
    }
    if all_valid && valid {
        Some(found)
    } else {
        None
    }
}

/// The identifiers written one after the other, with a dot between neighbours.
pub fn join_identifiers(ids: &Vec<String>) -> (r: String)
    ensures
        r@ == join_dots(texts(ids@)),
{
    let mut r = String::new();
    let mut i: usize = 0;
    assert(texts(ids@).take(0) =~= Seq::<Seq<char>>::empty());
    while i < ids.len()
        invariant
            i <= ids.len(),
            r@ == join_dots(texts(ids@).take(i as int)),
        decreases ids.len() - i,
    {
        let ghost done = texts(ids@).take(i as int);
        let ghost next = texts(ids@).take(i + 1);
        if i > 0 {
            r.append(".");
        }
        r.append(ids[i].as_str());
        proof {
            reveal_strlit(".");
            assert("."@ =~= seq!['.']);
            assert(next.drop_last() =~= done);
            assert(next.last() == ids@[i as int]@);
            if i == 0 {
                assert(r@ =~= next[0]);
            }
        }
        i += 1;
    }
    assert(texts(ids@).take(ids@.len() as int) =~= texts(ids@));
    r
}

/// The pieces of the text before the dot at `end`, where the last dot before
/// it stands just before `start`.
proof fn lemma_pieces_before(text: Seq<char>, start: int, end: int)
    requires
        0 <= start <= end < text.len(),
        start > 0 ==> text[start - 1] == '.',
        forall|k: int| start <= k < end ==> #[trigger] text[k] != '.',
    ensures
        split_dots(text.subrange(0, end)) == if start == 0 {
            seq![text.subrange(0, end)]
        } else {
            split_dots(text.subrange(0, start - 1)).push(text.subrange(start, end))
        },
{
    lemma_pieces_whole(text.subrange(0, end), start);
    if start > 0 {
        assert(text.subrange(0, end).subrange(0, start - 1) =~= text.subrange(0, start - 1));
        assert(text.subrange(0, end).subrange(start, end) =~= text.subrange(start, end));
    }
}

/// The pieces of a text whose last dot stands just before `start`.
proof fn lemma_pieces_whole(text: Seq<char>, start: int)
    requires
        0 <= start <= text.len(),
        start > 0 ==> text[start - 1] == '.',
        forall|k: int| start <= k < text.len() ==> #[trigger] text[k] != '.',
    ensures
        split_dots(text) == if start == 0 {
            seq![text]
        } else {
            split_dots(text.subrange(0, start - 1)).push(
                text.subrange(start, text.len() as int),
            )
        },
{
    if start == 0 {
        lemma_last_dot_none(text);
    } else {
        lemma_split_at(text, start - 1);
    }
}

/// A list with one more piece holds identifiers only where the list did and
/// the piece is one.
proof fn lemma_valid_after_push(before: Seq<Seq<char>>, piece: Seq<char>, kind: IdentifierKind)
    ensures
        (forall|k: int|
            0 <= k < before.push(piece).len() ==> is_identifier(
                #[trigger] before.push(piece)[k],
                kind,
            )) <==> ((forall|k: int|
            0 <= k < before.len() ==> is_identifier(#[trigger] before[k], kind)) && is_identifier(
            piece,
            kind,
        )),
{
    let after = before.push(piece);
    if forall|k: int| 0 <= k < after.len() ==> is_identifier(#[trigger] after[k], kind) {
        assert(after[before.len() as int] == piece);
        assert forall|k: int| 0 <= k < before.len() implies is_identifier(
            #[trigger] before[k],
            kind,
        ) by {
            assert(after[k] == before[k]);
        }
    }
    if (forall|k: int| 0 <= k < before.len() ==> is_identifier(#[trigger] before[k], kind))
        && is_identifier(piece, kind) {
        assert forall|k: int| 0 <= k < after.len() implies is_identifier(
            #[trigger] after[k],
            kind,
        ) by {
            if k < before.len() {
                assert(after[k] == before[k]);
            }
        }
    }
}

} // verus!
