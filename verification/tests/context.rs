use hex_ls::deps::{
    detect_context, package_name_at_cursor, version_pkg_at_cursor, CompletionContext,
};
use hex_ls::version::{latest_patch_for_minor, minor_key};

#[test]
fn test_minor_key() {
    assert_eq!(minor_key("1.7.3"), Some("1.7".to_string()));
    assert_eq!(minor_key("2.0.0"), Some("2.0".to_string()));
    assert_eq!(minor_key("1.7"), Some("1.7".to_string()));
    assert_eq!(minor_key("1"), None);
}

#[test]
fn minor_key_keeps_what_stands_in_front_of_the_second_dot() {
    assert_eq!(minor_key(""), None);
    assert_eq!(minor_key("."), Some(".".to_string()));
    assert_eq!(minor_key("1."), Some("1.".to_string()));
    assert_eq!(minor_key("1.2.3.4"), Some("1.2".to_string()));
    assert_eq!(minor_key("1.0-rc.1"), Some("1.0-rc".to_string()));
    assert_eq!(minor_key("1..2"), Some("1.".to_string()));
}

#[test]
fn test_detect_context_package_name_empty() {
    let ctx = detect_context("    {:").unwrap();
    match ctx {
        CompletionContext::PackageName(p) => assert_eq!(p, ""),
        _ => panic!("expected PackageName"),
    }
}

#[test]
fn test_detect_context_package_name_partial() {
    let ctx = detect_context("    {:pho").unwrap();
    match ctx {
        CompletionContext::PackageName(p) => assert_eq!(p, "pho"),
        _ => panic!("expected PackageName"),
    }
}

#[test]
fn test_detect_context_version() {
    let ctx = detect_context(r#"    {:phoenix, "~> "#).unwrap();
    match ctx {
        CompletionContext::Version(pkg, ver) => {
            assert_eq!(pkg, "phoenix");
            assert_eq!(ver, "~> ");
        }
        _ => panic!("expected Version"),
    }
}

#[test]
fn test_detect_context_version_empty_prefix() {
    let ctx = detect_context(r#"    {:ecto_sql, ""#).unwrap();
    match ctx {
        CompletionContext::Version(pkg, ver) => {
            assert_eq!(pkg, "ecto_sql");
            assert_eq!(ver, "");
        }
        _ => panic!("expected Version"),
    }
}

#[test]
fn test_detect_context_none_after_closing_quote() {
    // Once the string is closed there is nothing to complete.
    let ctx = detect_context(r#"    {:phoenix, "~> 1.7"}"#);
    assert!(ctx.is_none());
}

#[test]
fn test_detect_context_none_on_unrelated_line() {
    let ctx = detect_context("  def project do");
    assert!(ctx.is_none());
}

#[test]
fn test_version_deduplication() {
    // Three patch releases for 1.7, one for 1.8.
    let versions = vec![
        "1.8.0".to_string(),
        "1.7.3".to_string(),
        "1.7.2".to_string(),
        "1.7.1".to_string(),
    ];

    let latest = latest_patch_for_minor(&versions);

    // The latest patch for 1.7 should be 1.7.3 (first seen).
    assert_eq!(latest.get("1.7").unwrap(), "1.7.3");
    assert_eq!(latest.get("1.8").unwrap(), "1.8.0");
    assert!(latest.get("1.6").is_none());
}

#[test]
fn test_package_name_at_cursor_on_name() {
    // {:phoenix, "~> 1.7"}
    // 0123456789...
    let line = r#"{:phoenix, "~> 1.7"}"#;
    // cursor on 'h' (byte 2)
    assert_eq!(package_name_at_cursor(line, 2), Some("phoenix".into()));
    // cursor on last 'x' (byte 8)
    assert_eq!(package_name_at_cursor(line, 8), Some("phoenix".into()));
}

#[test]
fn test_package_name_at_cursor_with_leading_spaces() {
    let line = r#"      {:ecto, "~> 3.0"}"#;
    //                 ^^^^ name starts at byte 8
    assert_eq!(package_name_at_cursor(line, 8), Some("ecto".into()));
    assert_eq!(package_name_at_cursor(line, 10), Some("ecto".into()));
}

#[test]
fn test_package_name_at_cursor_miss() {
    let line = r#"{:phoenix, "~> 1.7"}"#;
    // cursor is on the comma (byte 9) - outside the name range
    assert_eq!(package_name_at_cursor(line, 9), None);
    // cursor on 'p' of "project" in an unrelated line
    assert_eq!(package_name_at_cursor("def project do", 4), None);
}

#[test]
fn test_version_pkg_at_cursor_on_quote_open() {
    let line = r#"{:phoenix, "~> 1.7"}"#;
    // Opening '"' is at byte 11, content starts at 12
    assert_eq!(version_pkg_at_cursor(line, 11), Some("phoenix".into()));
}

#[test]
fn test_version_pkg_at_cursor_inside_version() {
    let line = r#"{:phoenix, "~> 1.7"}"#;
    // Inside '~> 1.7' - e.g. byte 14 (space after '>')
    assert_eq!(version_pkg_at_cursor(line, 14), Some("phoenix".into()));
}

#[test]
fn test_version_pkg_at_cursor_on_quote_close() {
    let line = r#"{:phoenix, "~> 1.7"}"#;
    // Closing '"' is at byte 18
    assert_eq!(version_pkg_at_cursor(line, 18), Some("phoenix".into()));
}

#[test]
fn test_version_pkg_at_cursor_miss() {
    let line = r#"{:phoenix, "~> 1.7"}"#;
    // Cursor before the opening quote (byte 10, which is the space)
    assert_eq!(version_pkg_at_cursor(line, 10), None);
    // Cursor after the closing quote (byte 19, '}')
    assert_eq!(version_pkg_at_cursor(line, 19), None);
}
