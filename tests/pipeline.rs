use winpath::error::PathError;
use winpath::resolve::resolve_dots;
use winpath::rewrite::{fix_root, normalize_slash};
use winpath::{canonicalize, move_flags, MAX_PATH_UTF16};

#[test]
fn test_path_cch_canonicalize_ex() {
    assert_eq!(
        canonicalize(r#"C:\Users\Valarauca\Documents\"#, None).unwrap(),
        r#"C:\Users\Valarauca\Documents\"#
    );
    assert_eq!(
        canonicalize(r#"C:\Users\Valarauca\Documents\..\..\"#, None).unwrap(),
        r#"C:\Users\"#
    );
}

#[test]
fn assert_matches() {
    assert_eq!(
        canonicalize("~/Documents/", Some(r#"C:\Users\valarauca"#)).unwrap(),
        r#"C:\Users\valarauca\Documents\"#
    );
    assert_eq!(canonicalize("/f/Downloads/", None).unwrap(), r#"F:\Downloads\"#);
    assert_eq!(canonicalize("/f/Downloads/../", None).unwrap(), r#"F:\"#);
}

#[test]
fn root_fix_must_come_before_normalization() {
    let right = normalize_slash(&fix_root("/f/Downloads/"));
    assert_eq!(right, r#"F:\Downloads\"#);
    let wrong = fix_root(&normalize_slash("/f/Downloads/"));
    assert_eq!(wrong, r#"\f\Downloads\"#);
    assert_eq!(canonicalize("/f/Downloads/", None).unwrap(), right);
}

#[test]
fn canonicalize_missing_home() {
    assert_eq!(
        canonicalize("~/x", None),
        Err(PathError::MissingEnvironmentVariable)
    );
}

#[test]
fn canonicalize_removes_carets_and_single_dots() {
    assert_eq!(canonicalize(r#"C:\^^a\.\b"#, None).unwrap(), r#"C:\^a\b"#);
    assert_eq!(canonicalize(r#"C:\..\..\x"#, None).unwrap(), r#"C:\x"#);
}

#[test]
fn canonicalize_length_limit() {
    let fits = format!("C:{}", "a".repeat(MAX_PATH_UTF16 - 2));
    assert_eq!(canonicalize(&fits, None).unwrap().chars().count(), MAX_PATH_UTF16);
    let over = format!("C:{}", "a".repeat(MAX_PATH_UTF16 - 1));
    assert_eq!(canonicalize(&over, None), Err(PathError::PathTooLong));
}

#[test]
fn resolve_dots_segments() {
    let cs: Vec<char> = r#"a\b\..\.\c\"#.chars().collect();
    let r: String = resolve_dots(&cs).into_iter().collect();
    assert_eq!(r, r#"a\c\"#);
}

#[test]
fn move_flags_values() {
    assert_eq!(move_flags(false), 2);
    assert_eq!(move_flags(true), 3);
}

#[test]
fn canonicalize_length_counts_utf16_units() {
    // each of these characters takes two UTF-16 units
    let half = (MAX_PATH_UTF16 - 1) / 2;
    let fits = format!("C:{}", "\u{1F600}".repeat(half - 1));
    assert!(canonicalize(&fits, None).is_ok());
    let over = format!("C:{}", "\u{1F600}".repeat(half + 1));
    assert!(over.chars().count() < MAX_PATH_UTF16);
    assert_eq!(canonicalize(&over, None), Err(PathError::PathTooLong));
}

#[test]
fn canonicalize_keeps_root_separator() {
    assert_eq!(canonicalize(r#"C:\a\.."#, None).unwrap(), r#"C:\"#);
    assert_eq!(canonicalize("/f/Downloads/..", None).unwrap(), r#"F:\"#);
    assert_eq!(canonicalize(r#"\a\.."#, None).unwrap(), r#"\"#);
    assert_eq!(canonicalize("C:", None).unwrap(), "C:");
}

#[test]
fn canonicalize_collapses_relative_parts() {
    assert_eq!(canonicalize(r#"a\..\b"#, None).unwrap(), "b");
    assert_eq!(canonicalize("a/b/../../c/", None).unwrap(), r#"c\"#);
    assert_eq!(canonicalize(r#"..\x"#, None).unwrap(), "x");
}

#[test]
fn canonicalize_line_breaks_are_ordinary_characters() {
    assert_eq!(
        canonicalize("~\n", None),
        Err(PathError::MissingEnvironmentVariable)
    );
    assert_eq!(canonicalize("/c/a\nb", None).unwrap(), "C:\\a\nb");
}
