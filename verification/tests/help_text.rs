use chanjelog::usage::{usage, USAGE_HEAD, USAGE_TAIL, VERSION};

#[test]
fn usage_names_the_version() {
    let text = usage();
    assert_eq!(VERSION, "1.3.0");
    assert!(text.contains("  v: 1.3.0 - https://github.com/sayjeyhi/chanjelog\n"));
}

#[test]
fn usage_is_head_version_tail() {
    assert_eq!(usage(), format!("{}{}{}", USAGE_HEAD, VERSION, USAGE_TAIL));
}

#[test]
fn usage_lists_the_flags() {
    let text = usage();
    for flag in ["-h", "-r", "-f", "-s", "-p", "-u", "-g", "-v", "-c"] {
        assert!(text.contains(&format!("\n{}    |  ", flag)));
    }
    assert!(text.starts_with("\n   ___ _"));
    assert!(text.ends_with("with SemVer2.0.0\n"));
    assert!(text.contains("-r    |  *{string} git repo url e.g: git.com/project.git\n"));
}
