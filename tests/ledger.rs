use vlpkg::ledger::{is_installed, log_install, parse_lines, remove_log};
use vlpkg::name::{is_valid_name, package_name};

#[test]
fn remove_middle_entry_keeps_order() {
    let out = remove_log("a\nb\nc\n", "b");
    assert_eq!(out, "a\nc\n");
    assert_eq!(parse_lines(&out), vec!["a".to_string(), "c".to_string()]);
}

#[test]
fn remove_drops_every_equal_entry() {
    assert_eq!(remove_log("x\ny\nx\n", "x"), "y\n");
}

#[test]
fn remove_absent_name_keeps_entries() {
    assert_eq!(remove_log("a\nb", "z"), "a\nb\n");
    assert_eq!(remove_log("", "z"), "");
}

#[test]
fn parse_splits_lines() {
    assert_eq!(parse_lines(""), Vec::<String>::new());
    assert_eq!(parse_lines("a\n\nb"), vec!["a".to_string(), "".to_string(), "b".to_string()]);
    assert_eq!(parse_lines("one\n"), vec!["one".to_string()]);
}

#[test]
fn installed_means_exact_line() {
    assert!(is_installed("foo-1.0\nbar\n", "foo-1.0"));
    assert!(is_installed("foo-1.0\nbar", "bar"));
    assert!(!is_installed("foo-1.0\nbar\n", "foo"));
    assert!(!is_installed("foo-1.0\n", "foo-1.0\n"));
}

#[test]
fn empty_ledger_lists_nothing() {
    assert!(!is_installed("", "foo"));
}

#[test]
fn log_appends_a_line() {
    assert_eq!(log_install("", "foo"), "foo\n");
    assert_eq!(log_install("a\n", "foo"), "a\nfoo\n");
    assert!(is_installed(&log_install("a\n", "foo"), "foo"));
}

#[test]
fn log_starts_a_new_line_after_unterminated_text() {
    assert_eq!(log_install("a", "b"), "a\nb\n");
    assert_eq!(parse_lines(&log_install("a", "b")), vec!["a".to_string(), "b".to_string()]);
}

#[test]
fn package_name_strips_extension() {
    assert_eq!(package_name("foo-1.0.tar.zst"), "foo-1.0");
    assert_eq!(package_name("bar.tar.zst"), "bar");
    assert_eq!(package_name("plain"), "plain");
}

#[test]
fn package_name_takes_base_name() {
    assert_eq!(package_name("/tmp/pkgs/foo-1.0.tar.zst"), "foo-1.0");
    assert_eq!(package_name("dir/"), "");
}

#[test]
fn package_name_strips_repeated_extension() {
    assert_eq!(package_name("x.tar.zst.tar.zst"), "x");
    assert_eq!(package_name(".tar.zst"), "");
    assert_eq!(package_name("a.tar.gz"), "a.tar.gz");
}

#[test]
fn valid_names() {
    assert!(is_valid_name("foo-1.0"));
    assert!(!is_valid_name(""));
    assert!(!is_valid_name("a\nb"));
}
