//! Decimal notation: the number that a numeric identifier writes, and the
//! numeric identifier that writes a number.

use vstd::prelude::*;
use vstd::string::*;
use crate::chars::{all_digits, ascii_bytes, bytes_of, is_digit};
use crate::ident::{check_numeric_identifier, is_numeric_identifier, lemma_ident_chars_are_ascii};

verus! {

/// The digit that writes a number below ten.
pub open spec fn digit_char(d: nat) -> char {
    ((48 + d) as u8) as char
}

/// The number that a digit writes; zero for any other character.
pub open spec fn digit_value(c: char) -> nat {
    if is_digit(c) {
        (c as u8 - 48) as nat
    } else {
        0
    }
}

/// The number that a text of digits writes in base ten.
pub open spec fn decimal_value(text: Seq<char>) -> nat
    decreases text.len(),
{
    if text.len() == 0 {
        0
    } else {
        decimal_value(text.drop_last()) * 10 + digit_value(text.last())
    }
}

/// The numeric identifier that writes a number: its digits in base ten,
/// without a leading zero.
pub open spec fn decimal_text(n: nat) -> Seq<char>
    decreases n,
{
    if n < 10 {
        seq![digit_char(n)]
    } else {
        decimal_text(n / 10).push(digit_char(n % 10))
    }
}

/// A digit and its number determine each other.
proof fn lemma_digits(d: nat, c: char)
    ensures
        d < 10 ==> is_digit(digit_char(d)) && digit_value(digit_char(d)) == d,
        is_digit(c) ==> digit_value(c) < 10 && digit_char(digit_value(c)) == c,
        d < 10 ==> (digit_char(d) == '0' <==> d == 0),
{
}

/// The text of a number is a numeric identifier, and starts with `0` for
/// zero only.
pub proof fn lemma_decimal_text_numeric(n: nat)
    ensures
        is_numeric_identifier(decimal_text(n)),
        decimal_text(n)[0] == '0' <==> n == 0,
    decreases n,
{
    lemma_digits(n % 10, '0');
    if n >= 10 {
        lemma_decimal_text_numeric(n / 10);
        let front = decimal_text(n / 10);
        let text = decimal_text(n);
        assert forall|i: int| 0 <= i < text.len() implies is_digit(#[trigger] text[i]) by {
            if i < front.len() {
                assert(text[i] == front[i]);
            }
        }
        assert(text[0] == front[0]);
    } else {
        lemma_digits(n, '0');
    }
}

/// The text of a number writes that number.
pub proof fn lemma_decimal_value_of_text(n: nat)
    ensures
        decimal_value(decimal_text(n)) == n,
    decreases n,
{
    if n >= 10 {
        lemma_decimal_value_of_text(n / 10);
        lemma_digits(n % 10, '0');
        let text = decimal_text(n);
        assert(text.drop_last() =~= decimal_text(n / 10));
        assert(text.last() == digit_char(n % 10));
    } else {
        lemma_digits(n, '0');
        let text = decimal_text(n);
        assert(text.drop_last() =~= Seq::<char>::empty());
        assert(decimal_value(text.drop_last()) == 0);
    }
}

/// A text of digits that starts with a digit other than `0` writes a number
/// other than zero.
proof fn lemma_value_positive(text: Seq<char>)
    requires
        text.len() > 0,
        all_digits(text),
        text[0] != '0',
    ensures
        decimal_value(text) > 0,
    decreases text.len(),
{
    if text.len() == 1 {
        assert(is_digit(text[0]));
        assert(text.last() == text[0]);
    } else {
        let front = text.drop_last();
        assert forall|i: int| 0 <= i < front.len() implies is_digit(#[trigger] front[i]) by {
            assert(front[i] == text[i]);
        }
        assert(front[0] == text[0]);
        lemma_value_positive(front);
    }
}

/// A numeric identifier is the text of the number that it writes.
pub proof fn lemma_decimal_text_of_value(text: Seq<char>)
    requires
        is_numeric_identifier(text),
    ensures
        decimal_text(decimal_value(text)) == text,
    decreases text.len(),
{
    let last = text.last();
    assert(is_digit(text[text.len() - 1]));
    lemma_digits(0, last);
    let front = text.drop_last();
    if text.len() == 1 {
        assert(decimal_value(front) == 0);
        assert(seq![last] =~= text);
    } else {
        assert forall|i: int| 0 <= i < front.len() implies is_digit(#[trigger] front[i]) by {
            assert(front[i] == text[i]);
        }
        assert(front[0] == text[0]);
        lemma_decimal_text_of_value(front);
        lemma_value_positive(front);
        let n = decimal_value(text);
        assert(n == decimal_value(front) * 10 + digit_value(last));
        assert(n / 10 == decimal_value(front));
        assert(n % 10 == digit_value(last));
        assert(front.push(last) =~= text);
    }
}

/// The first characters of a text write no more than the whole text.
proof fn lemma_value_of_prefix(text: Seq<char>, k: int)
    requires
        0 <= k <= text.len(),
    ensures
        decimal_value(text.take(k)) <= decimal_value(text),
    decreases text.len(),
{
    if k == text.len() {
        assert(text.take(k) =~= text);
    } else {
        let front = text.drop_last();
        lemma_value_of_prefix(front, k);
        assert(front.take(k) =~= text.take(k));
        assert(decimal_value(front) * 10 >= decimal_value(front)) by (nonlinear_arith);
    }
}

/// The number that a numeric identifier writes.
///
/// Returns the number where `text` is a numeric identifier that writes a
/// number of 64 bits, and nothing otherwise.
pub fn parse_decimal(text: &str) -> (r: Option<u64>)
    ensures
        r is Some <==> is_numeric_identifier(text@) && decimal_value(text@) <= u64::MAX,
        r matches Some(n) ==> n == decimal_value(text@),
{
    if !check_numeric_identifier(text) {
        return None;
    }
    proof {
        lemma_ident_chars_are_ascii(text@);
    }
    let bytes = ascii_bytes(text);
    let n = bytes.len();
    let mut value: u64 = 0;
    let mut i: usize = 0;
    assert(text@.take(0) =~= Seq::<char>::empty());
    while i < n
        invariant
            bytes_of(bytes@, text@),
            n == bytes@.len(),
            all_digits(text@),
            i <= n,
            value == decimal_value(text@.take(i as int)),
        decreases n - i,
    {
        let ghost next = text@.take(i + 1);
        proof {
            assert(next.drop_last() =~= text@.take(i as int));
            assert(next.last() == text@[i as int]);
            assert(is_digit(text@[i as int]));
            assert(bytes@[i as int] as char == text@[i as int]);
            lemma_value_of_prefix(text@, i + 1);
        }
        let digit: u64 = (bytes[i] - 48) as u64;
        assert(digit == digit_value(text@[i as int]));
        let shifted = match value.checked_mul(10) {
            Some(shifted) => shifted,
            None => {
                return None;
            },
        };
        value = match shifted.checked_add(digit) {
            Some(sum) => sum,
            None => {
                return None;
            },
        };
        i += 1;
    }
    assert(text@.take(n as int) =~= text@);
    Some(value)
}

/// The text of one digit.
fn digit_str(d: u64) -> (r: &'static str)
    requires
        d < 10,
    ensures
        r@ == seq![digit_char(d as nat)],
{
    let digits = "0123456789";
    proof {
        reveal_strlit("0123456789");
        assert forall|i: int| 0 <= i < digits@.len() implies '\0' <= #[trigger] digits@[i]
            <= '\u{7f}' by {}
    }
    let r = digits.substring_ascii(d as usize, d as usize + 1);
    assert(r@ =~= seq![digit_char(d as nat)]);
    r
}

/// The numeric identifier that writes a number.
pub fn decimal_string(n: u64) -> (r: String)
    ensures
        r@ == decimal_text(n as nat),
    decreases n,
{
    if n < 10 {
        String::from_str(digit_str(n))
    } else {
        let mut r = decimal_string(n / 10);
        r.append(digit_str(n % 10));
        assert(r@ =~= decimal_text(n as nat));
        r
    }
}

} // verus!
