use chanjelog::chars::{byte_is_digit, byte_is_ident_char};
use chanjelog::decimal::{decimal_string, parse_decimal};
use chanjelog::dotted::{join_identifiers, parse_identifiers};
use chanjelog::ident::{
    check_build_identifier, check_identifier, check_numeric_identifier,
    check_pre_release_identifier, IdentifierKind,
};

fn strings(ids: &[&str]) -> Vec<String> {
    ids.iter().map(|id| id.to_string()).collect()
}

#[test]
fn byte_classes() {
    for b in 0..=255u8 {
        let c = b as char;
        assert_eq!(byte_is_digit(b), c.is_ascii_digit());
        assert_eq!(byte_is_ident_char(b), c.is_ascii_alphanumeric() || c == '-');
    }
}

#[test]
fn numeric_identifiers() {
    for text in ["0", "1", "9", "10", "123456789", "18446744073709551616"] {
        assert!(check_numeric_identifier(text));
    }
    for text in ["", "00", "01", "1a", "a", "-1", "1.0", " 1", "١"] {
        assert!(!check_numeric_identifier(text));
    }
}

#[test]
fn pre_release_identifiers() {
    for text in ["0", "7", "92", "alpha", "x", "-", "0a", "00a", "01-", "a-b", "RC-1"] {
        assert!(check_pre_release_identifier(text));
        assert!(check_identifier(text, IdentifierKind::PreRelease));
    }
    for text in ["", "00", "01", "007", "a_b", "a.b", "a+b", "a b", "é"] {
        assert!(!check_pre_release_identifier(text));
        assert!(!check_identifier(text, IdentifierKind::PreRelease));
    }
}

#[test]
fn build_identifiers() {
    for text in ["0", "00", "001", "alpha", "-", "5114f85", "a-b"] {
        assert!(check_build_identifier(text));
        assert!(check_identifier(text, IdentifierKind::Build));
    }
    for text in ["", "a_b", "a.b", "a+b", "a b", "é"] {
        assert!(!check_build_identifier(text));
        assert!(!check_identifier(text, IdentifierKind::Build));
    }
}

#[test]
fn identifier_lists() {
    assert_eq!(
        parse_identifiers("alpha.1", IdentifierKind::PreRelease),
        Some(strings(&["alpha", "1"]))
    );
    assert_eq!(parse_identifiers("rc", IdentifierKind::PreRelease), Some(strings(&["rc"])));
    assert_eq!(
        parse_identifiers("exp.sha.5114f85", IdentifierKind::Build),
        Some(strings(&["exp", "sha", "5114f85"]))
    );
    assert_eq!(parse_identifiers("0.00", IdentifierKind::Build), Some(strings(&["0", "00"])));
    assert_eq!(parse_identifiers("0.00", IdentifierKind::PreRelease), None);
}

#[test]
fn identifier_lists_with_empty_pieces() {
    for kind in [IdentifierKind::PreRelease, IdentifierKind::Build] {
        for text in ["", ".", "a.", ".a", "a..b", "..", "a.b.", "a_b", "a.é"] {
            assert_eq!(parse_identifiers(text, kind), None);
        }
    }
}

#[test]
fn joined_identifiers() {
    assert_eq!(join_identifiers(&strings(&[])), "");
    assert_eq!(join_identifiers(&strings(&["alpha"])), "alpha");
    assert_eq!(join_identifiers(&strings(&["alpha", "1"])), "alpha.1");
    assert_eq!(join_identifiers(&strings(&["a", "b", "c", "d"])), "a.b.c.d");
}

#[test]
fn split_then_join_is_the_text() {
    for text in ["a", "a.b", "0.3.7", "x.7.z.92", "-.--.---"] {
        let ids = parse_identifiers(text, IdentifierKind::PreRelease).unwrap();
        assert_eq!(join_identifiers(&ids), text);
    }
}

#[test]
fn decimal_numbers() {
    assert_eq!(parse_decimal("0"), Some(0));
    assert_eq!(parse_decimal("7"), Some(7));
    assert_eq!(parse_decimal("10"), Some(10));
    assert_eq!(parse_decimal("1234567890"), Some(1234567890));
    assert_eq!(parse_decimal("18446744073709551615"), Some(u64::MAX));
}

#[test]
fn decimal_numbers_out_of_range() {
    assert_eq!(parse_decimal("18446744073709551616"), None);
    assert_eq!(parse_decimal("18446744073709551620"), None);
    assert_eq!(parse_decimal("99999999999999999999"), None);
    assert_eq!(parse_decimal("100000000000000000000000000000"), None);
}

#[test]
fn decimal_numbers_that_are_no_numeric_identifier() {
    for text in ["", "00", "01", "+1", "-1", "1 ", "0x10", "1_000", "٣"] {
        assert_eq!(parse_decimal(text), None);
    }
}

#[test]
fn decimal_texts() {
    assert_eq!(decimal_string(0), "0");
    assert_eq!(decimal_string(9), "9");
    assert_eq!(decimal_string(10), "10");
    assert_eq!(decimal_string(101), "101");
    assert_eq!(decimal_string(1234567890), "1234567890");
    assert_eq!(decimal_string(u64::MAX), "18446744073709551615");
}

#[test]
fn decimal_text_and_number_are_inverse() {
    let mut n: u64 = 1;
    for _ in 0..64 {
        for m in [n - 1, n, n + 1] {
            assert_eq!(decimal_string(m), m.to_string());
            assert_eq!(parse_decimal(&decimal_string(m)), Some(m));
        }
        n = n.wrapping_mul(2);
        if n == 0 {
            break;
        }
    }
}
