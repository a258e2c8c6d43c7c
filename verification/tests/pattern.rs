use chanjelog::dotted::join_identifiers;
use chanjelog::validate::validate;
use regex::Regex;

fn semver_pattern() -> Regex {
    let nat = "0|[1-9][0-9]*";
    let alphanum = "[0-9]*[A-Za-z-][0-9A-Za-z-]*";
    let ident = format!("{}|{}", nat, alphanum);
    let field = "[0-9A-Za-z-]+";
    let pattern = format!(
        "^[vV]?({})\\.({})\\.({})(\\-({})(\\.({}))*)?(\\+{}(\\.{})*)?$",
        nat, nat, nat, ident, ident, field, field
    );
    Regex::new(&pattern).unwrap()
}

fn agree(pattern: &Regex, text: &str) {
    let version = validate(text);
    match pattern.captures(text) {
        Some(captures) => {
            let version = match version {
                Some(version) => version,
                None => panic!("{:?} matches the pattern and does not validate", text),
            };
            assert_eq!(version.major(), captures.get(1).unwrap().as_str());
            assert_eq!(version.minor(), captures.get(2).unwrap().as_str());
            assert_eq!(version.patch(), captures.get(3).unwrap().as_str());
            let pre_release = match version.pre_release() {
                Some(ids) => format!("-{}", join_identifiers(ids)),
                None => String::new(),
            };
            assert_eq!(pre_release, captures.get(4).map_or("", |m| m.as_str()));
            let build = match version.build() {
                Some(ids) => format!("+{}", join_identifiers(ids)),
                None => String::new(),
            };
            assert_eq!(build, captures.get(8).map_or("", |m| m.as_str()));
        }
        None => assert!(version.is_none(), "{:?} validates and does not match the pattern", text),
    }
}

fn each_text(alphabet: &[char], longest: usize, prefix: &str, check: &mut dyn FnMut(&str)) {
    let mut text = String::from(prefix);
    walk(alphabet, longest, &mut text, check);
}

fn walk(alphabet: &[char], left: usize, text: &mut String, check: &mut dyn FnMut(&str)) {
    check(text);
    if left == 0 {
        return;
    }
    for c in alphabet {
        text.push(*c);
        walk(alphabet, left - 1, text, check);
        text.pop();
    }
}

#[test]
fn agrees_with_the_pattern_on_named_texts() {
    let pattern = semver_pattern();
    let texts = [
        "", "1", "1.0", "1.0.0", "v1.2.3", "V1.2.3", "vv1.2.3", "01.0.0", "1.01.0", "1.0.01",
        "1.0.0-", "1.0.0+", "1.0.0-01", "1.0.0-a_b", "1.0.0-alpha", "1.0.0-alpha.1",
        "1.0.0-0.3.7", "1.0.0+20130313144700", "1.0.0-beta+exp.sha.5114f85", "1.0.0-alpha.01",
        "1.0.0+001", "1.0.0-0", "1.0.0--", "1.0.0-+", "1.0.0-a+", "1.0.0+a+b", "1.0.0+a-b",
        "1.0.0-a.b.c.d.e+f.g.h", "1.2.3----RC-SNAPSHOT.12.9.1--.12+788", "1.0.0\n", " 1.0.0",
        "1.0.0 ", "1.0.0-é", "99999999999999999999999.0.0", "1.0.0-00a", "1.0.0-0a.00",
    ];
    for text in texts {
        agree(&pattern, text);
    }
}

#[test]
fn agrees_with_the_pattern_on_short_texts() {
    let pattern = semver_pattern();
    let alphabet = ['0', '1', '.', '-', '+', 'v', 'a'];
    let mut count = 0;
    each_text(&alphabet, 5, "", &mut |text| {
        agree(&pattern, text);
        count += 1;
    });
    assert_eq!(count, 1 + 7 + 49 + 343 + 2401 + 16807);
}

#[test]
fn agrees_with_the_pattern_after_a_core() {
    let pattern = semver_pattern();
    let alphabet = ['0', '1', '.', '-', '+', 'a', 'Z', '_'];
    for prefix in ["1.0.0", "v0.10.2", "1.0.0-", "1.0.0+", "1.0.0-a.", "1.0.0-0+"] {
        let mut accepted = 0;
        each_text(&alphabet, 4, prefix, &mut |text| {
            agree(&pattern, text);
            if validate(text).is_some() {
                accepted += 1;
            }
        });
        assert!(accepted > 0);
    }
}
