use winpath::error::PathError;
use winpath::rewrite::{fix_root, fix_tilde, normalize_slash, win_escape_char};

const HOME: &str = r#"C:\Users\valarauca"#;

#[test]
fn test_win_escape_char() {
    assert_eq!(
        win_escape_char(r#"F:\^^Users^\Valarauca"#),
        r#"F:\^Users\Valarauca"#
    );
}

#[test]
fn test_fix_root() {
    // sanity check
    assert_eq!(fix_root(r#"F:\Users\Valarauca"#), r#"F:\Users\Valarauca"#);
    assert_eq!(fix_root(r#"/f/Users/Valarauca"#), r#"F:\Users/Valarauca"#);

    // terminating slash
    assert_eq!(fix_root(r#"F:\Users\Valarauca\"#), r#"F:\Users\Valarauca\"#);
    assert_eq!(fix_root(r#"/f/Users/Valarauca\"#), r#"F:\Users/Valarauca\"#);

    // opposite slash
    assert_eq!(fix_root(r#"F:\Users\Valarauca/"#), r#"F:\Users\Valarauca/"#);
    assert_eq!(fix_root(r#"/f/Users/Valarauca/"#), r#"F:\Users/Valarauca/"#);

    // double terminating slash
    assert_eq!(fix_root(r#"F:\Users\Valarauca\\"#), r#"F:\Users\Valarauca\\"#);
    assert_eq!(fix_root(r#"/f/Users/Valarauca\\"#), r#"F:\Users/Valarauca\\"#);

    // double opposite slash
    assert_eq!(fix_root(r#"F:\Users\Valarauca//"#), r#"F:\Users\Valarauca//"#);
    assert_eq!(fix_root(r#"/f/Users/Valarauca//"#), r#"F:\Users/Valarauca//"#);
}

#[test]
fn test_fix_tilde() {
    // inputs that stay as they are
    assert_eq!(
        fix_tilde(r#"C:\Users\Valarauca\Documents\"#, Some(HOME)).unwrap(),
        r#"C:\Users\Valarauca\Documents\"#
    );
    assert_eq!(
        fix_tilde(r#"C:\Users\\\Valarauca\Documents\"#, Some(HOME)).unwrap(),
        r#"C:\Users\\\Valarauca\Documents\"#
    );
    assert_eq!(
        fix_tilde(r#"~/Documents/"#, Some(HOME)).unwrap(),
        r#"C:\Users\valarauca/Documents/"#
    );

    // trivial cases
    assert_eq!(fix_tilde(r#"~/"#, Some(HOME)).unwrap(), r#"C:\Users\valarauca/"#);
    assert_eq!(fix_tilde(r#"~\"#, Some(HOME)).unwrap(), r#"C:\Users\valarauca\"#);
    assert_eq!(fix_tilde(r#"~///"#, Some(HOME)).unwrap(), r#"C:\Users\valarauca///"#);
    assert_eq!(
        fix_tilde(r#"~\\\lol\"#, Some(HOME)).unwrap(),
        r#"C:\Users\valarauca\\\lol\"#
    );
}

#[test]
fn test_normalize_slash() {
    // input that stays as it is
    assert_eq!(
        normalize_slash(r#"C:\Users\Valarauca\Documents\"#),
        r#"C:\Users\Valarauca\Documents\"#
    );

    // simple test cases
    assert_eq!(
        normalize_slash(r#"C:/Users/Valarauca/Documents/"#),
        r#"C:\Users\Valarauca\Documents\"#
    );
    assert_eq!(
        normalize_slash(r#"C:\Users\\\\Valarauca\\Documents\\/\"#),
        r#"C:\Users\Valarauca\Documents\"#
    );
    assert_eq!(
        normalize_slash(r#"C:\Users/Valarauca\/\Documents\\/\"#),
        r#"C:\Users\Valarauca\Documents\"#
    );
}

#[test]
fn caret_escapes_all_removed_and_trailing_caret_kept() {
    assert_eq!(win_escape_char("a^b^c"), "abc");
    assert_eq!(win_escape_char("a^"), "a^");
    assert_eq!(win_escape_char("^^^^"), "^^");
    assert_eq!(win_escape_char("a^\nb"), "a\nb");
    assert_eq!(win_escape_char("^\n"), "\n");
    assert_eq!(win_escape_char(""), "");
}

#[test]
fn caret_removal_twice_on_unescaped_input() {
    let x = r#"C:\Users\Valarauca"#;
    let once = win_escape_char(x);
    assert_eq!(once, x);
    assert_eq!(win_escape_char(&once), once);
}

#[test]
fn root_fix_upper_cases_and_rejects_longer_roots() {
    assert_eq!(fix_root("/c/"), r#"C:\"#);
    assert_eq!(fix_root("/Z/a"), r#"Z:\a"#);
    assert_eq!(fix_root("/cd/a"), "/cd/a");
    assert_eq!(fix_root("/1/a"), "/1/a");
    assert_eq!(fix_root("/c"), "/c");
    assert_eq!(fix_root(r#"\c\a"#), r#"\c\a"#);
    assert_eq!(fix_root("/c/a\nb"), "C:\\a\nb");
    assert_eq!(fix_root("/c/\n"), fix_root("/C/\n"));
}

#[test]
fn tilde_only_leading_and_missing_home() {
    assert_eq!(fix_tilde("a~b", None).unwrap(), "a~b");
    assert_eq!(fix_tilde("~a~b", Some("H")).unwrap(), "Ha~b");
    assert_eq!(fix_tilde("~", Some("H")).unwrap(), "H");
    assert_eq!(fix_tilde("", None).unwrap(), "");
    assert_eq!(fix_tilde("~/x", None), Err(PathError::MissingEnvironmentVariable));
    assert_eq!(fix_tilde("~\n", None), Err(PathError::MissingEnvironmentVariable));
    assert_eq!(fix_tilde("~\n", Some("H")).unwrap(), "H\n");
}

#[test]
fn normalize_slash_runs_everywhere_and_idempotent() {
    assert_eq!(normalize_slash(r#"/\/a//b\/\"#), r#"\a\b\"#);
    assert_eq!(normalize_slash("a/b"), r#"a\b"#);
    assert_eq!(normalize_slash("abc"), "abc");
    assert_eq!(normalize_slash(""), "");
    let once = normalize_slash(r#"x//\y/"#);
    assert_eq!(once, r#"x\y\"#);
    assert_eq!(normalize_slash(&once), once);
}
