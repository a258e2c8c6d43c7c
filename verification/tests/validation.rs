use chanjelog::validate::validate;
use chanjelog::version::SemanticVersion;

fn parsed(text: &str) -> SemanticVersion {
    match validate(text) {
        Some(version) => version,
        None => panic!("{} should be a semantic version", text),
    }
}

fn list(ids: &[&str]) -> Option<Vec<String>> {
    Some(ids.iter().map(|id| id.to_string()).collect())
}

#[test]
fn rejects_leading_zero_in_core() {
    assert!(validate("01.0.0").is_none());
    assert!(validate("1.00.0").is_none());
    assert!(validate("1.0.09").is_none());
}

#[test]
fn rejects_two_part_core() {
    assert!(validate("1.0").is_none());
    assert!(validate("1").is_none());
    assert!(validate("1.0.").is_none());
    assert!(validate("1..0").is_none());
    assert!(validate(".1.0").is_none());
    assert!(validate("1.0.0.0").is_none());
}

#[test]
fn rejects_empty_segments() {
    assert!(validate("1.0.0-").is_none());
    assert!(validate("1.0.0+").is_none());
    assert!(validate("1.0.0-+build").is_none());
    assert!(validate("1.0.0-alpha+").is_none());
    assert!(validate("1.0.0-alpha.").is_none());
    assert!(validate("1.0.0-.alpha").is_none());
    assert!(validate("1.0.0-a..b").is_none());
    assert!(validate("1.0.0+a..b").is_none());
}

#[test]
fn rejects_numeric_pre_release_with_leading_zero() {
    assert!(validate("1.0.0-01").is_none());
    assert!(validate("1.0.0-alpha.01").is_none());
    assert!(validate("1.0.0-00").is_none());
}

#[test]
fn rejects_characters_outside_the_grammar() {
    assert!(validate("1.0.0-a_b").is_none());
    assert!(validate("1.0.0+a_b").is_none());
    assert!(validate("1.0.0 ").is_none());
    assert!(validate(" 1.0.0").is_none());
    assert!(validate("1.0.0\n").is_none());
    assert!(validate("1.0.0-é").is_none());
    assert!(validate("１.0.0").is_none());
    assert!(validate("1.0.0+a+b").is_none());
    assert!(validate("-1.0.0").is_none());
    assert!(validate("1.0.0x").is_none());
    assert!(validate("a.b.c").is_none());
}

#[test]
fn rejects_empty_text_and_bare_prefix() {
    assert!(validate("").is_none());
    assert!(validate("v").is_none());
    assert!(validate("V").is_none());
    assert!(validate("vv1.0.0").is_none());
    assert!(validate("vV1.0.0").is_none());
    assert!(validate("x1.0.0").is_none());
}

#[test]
fn accepts_plain_core() {
    let version = parsed("1.0.0");
    assert_eq!(version.major(), "1");
    assert_eq!(version.minor(), "0");
    assert_eq!(version.patch(), "0");
    assert_eq!(version.pre_release(), &None);
    assert_eq!(version.build(), &None);
}

#[test]
fn accepts_leading_v() {
    let version = parsed("v1.2.3");
    assert_eq!(version.major(), "1");
    assert_eq!(version.minor(), "2");
    assert_eq!(version.patch(), "3");
    assert_eq!(version.pre_release(), &None);
    assert_eq!(version.build(), &None);
    assert_eq!(version.render(), "1.2.3");
    assert_eq!(parsed("V1.2.3"), version);
    assert_eq!(parsed("1.2.3"), version);
}

#[test]
fn accepts_pre_release_identifiers() {
    let version = parsed("1.0.0-alpha");
    assert_eq!(version.pre_release(), &list(&["alpha"]));
    assert_eq!(version.build(), &None);

    let version = parsed("1.0.0-alpha.1");
    assert_eq!(version.pre_release(), &list(&["alpha", "1"]));

    let version = parsed("1.0.0-0.3.7");
    assert_eq!(version.major(), "1");
    assert_eq!(version.pre_release(), &list(&["0", "3", "7"]));

    let version = parsed("1.0.0-0");
    assert_eq!(version.pre_release(), &list(&["0"]));

    let version = parsed("1.0.0-x.7.z.92");
    assert_eq!(version.pre_release(), &list(&["x", "7", "z", "92"]));
}

#[test]
fn accepts_build_identifiers() {
    let version = parsed("1.0.0+20130313144700");
    assert_eq!(version.pre_release(), &None);
    assert_eq!(version.build(), &list(&["20130313144700"]));

    let version = parsed("1.0.0+001");
    assert_eq!(version.build(), &list(&["001"]));

    let version = parsed("1.0.0+0.00.000");
    assert_eq!(version.build(), &list(&["0", "00", "000"]));
}

#[test]
fn accepts_pre_release_and_build() {
    let version = parsed("1.0.0-beta+exp.sha.5114f85");
    assert_eq!(version.major(), "1");
    assert_eq!(version.minor(), "0");
    assert_eq!(version.patch(), "0");
    assert_eq!(version.pre_release(), &list(&["beta"]));
    assert_eq!(version.build(), &list(&["exp", "sha", "5114f85"]));
}

#[test]
fn accepts_hyphens_inside_identifiers() {
    let version = parsed("1.0.0--");
    assert_eq!(version.pre_release(), &list(&["-"]));

    let version = parsed("1.0.0-0-1.-a-.01a");
    assert_eq!(version.pre_release(), &list(&["0-1", "-a-", "01a"]));

    let version = parsed("1.0.0+-.--");
    assert_eq!(version.pre_release(), &None);
    assert_eq!(version.build(), &list(&["-", "--"]));

    let version = parsed("1.0.0-rc-1+build-2");
    assert_eq!(version.pre_release(), &list(&["rc-1"]));
    assert_eq!(version.build(), &list(&["build-2"]));
}

#[test]
fn accepts_numbers_beyond_64_bits() {
    let version = parsed("99999999999999999999999.18446744073709551616.0");
    assert_eq!(version.major(), "99999999999999999999999");
    assert_eq!(version.minor(), "18446744073709551616");
    assert_eq!(version.patch(), "0");
}

#[test]
fn round_trip_reproduces_the_text() {
    let texts = [
        "0.0.0",
        "1.0.0",
        "10.20.30",
        "1.0.0-alpha",
        "1.0.0-alpha.1",
        "1.0.0-0.3.7",
        "1.0.0-x.7.z.92",
        "1.0.0+20130313144700",
        "1.0.0-beta+exp.sha.5114f85",
        "1.0.0+21AF26D3----117B344092BD",
        "1.2.3----RC-SNAPSHOT.12.9.1--.12+788",
        "99999999999999999999999.999999999999999999.99999999999999999",
    ];
    for text in texts {
        assert_eq!(parsed(text).render(), text);
        assert_eq!(parsed(&format!("v{}", text)).render(), text);
        assert_eq!(parsed(&format!("V{}", text)).render(), text);
    }
}

#[test]
fn round_trip_keeps_identifier_order() {
    let version = parsed("1.0.0-b.a.c+z.y.x");
    assert_eq!(version.pre_release(), &list(&["b", "a", "c"]));
    assert_eq!(version.build(), &list(&["z", "y", "x"]));
    assert_eq!(version.render(), "1.0.0-b.a.c+z.y.x");
}

#[test]
fn rendered_version_validates_to_itself() {
    let version = parsed("v3.1.4-rc.1+build.5");
    let again = parsed(&version.render());
    assert_eq!(again, version);
    assert_eq!(again.clone(), version);
}

#[test]
fn renders_parts() {
    let version = parsed("3.1.4-rc.1+build.5");
    assert_eq!(version.render_core(), "3.1.4");
    assert_eq!(version.render_without_build(), "3.1.4-rc.1");
    assert_eq!(version.render(), "3.1.4-rc.1+build.5");
    let version = parsed("3.1.4+build.5");
    assert_eq!(version.render_without_build(), "3.1.4");
}
