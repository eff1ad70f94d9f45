use hex_ls::deps::{
    detect_context, package_name_at_cursor, prefetch_packages, version_pkg_at_cursor,
    CompletionContext,
};

fn partial_name(text: &str) -> Option<String> {
    match detect_context(text) {
        Some(CompletionContext::PackageName(partial)) => Some(partial),
        _ => None,
    }
}

fn partial_version(text: &str) -> Option<(String, String)> {
    match detect_context(text) {
        Some(CompletionContext::Version(pkg, partial)) => Some((pkg, partial)),
        _ => None,
    }
}

fn version(pkg: &str, partial: &str) -> Option<(String, String)> {
    Some((pkg.to_string(), partial.to_string()))
}

#[test]
fn a_package_name_is_being_typed() {
    assert_eq!(partial_name("{:"), Some("".to_string()));
    assert_eq!(partial_name("{:ph"), Some("ph".to_string()));
    assert_eq!(partial_name("{: ph"), Some("ph".to_string()));
    assert_eq!(partial_name("{:\u{a0}\u{3000}\tph"), Some("ph".to_string()));
    assert_eq!(partial_name("{:   "), Some("".to_string()));
    assert_eq!(partial_name("[{:ecto, \"~> 3.0\"}, {:_a"), Some("_a".to_string()));
    // A digit, a capital or a blank behind the name ends it.
    assert_eq!(partial_name("{:oauth2"), None);
    assert_eq!(partial_name("{:Ph"), None);
    assert_eq!(partial_name("{:ph "), None);
    assert_eq!(partial_name("{ :ph"), None);
    assert_eq!(partial_name("{:\u{200b}ph"), None);
    assert_eq!(partial_name(""), None);
}

#[test]
fn a_version_is_being_typed() {
    assert_eq!(partial_version("{:phoenix, \""), version("phoenix", ""));
    assert_eq!(partial_version("{:oauth2,\"~> 2"), version("oauth2", "~> 2"));
    assert_eq!(partial_version("{:ecto \t,\u{2003}\">= "), version("ecto", ">= "));
    assert_eq!(partial_version("{:ecto, \"é {:x"), version("ecto", "é {:x"));
    assert_eq!(partial_version("{:a, \"1\"}, {:b, \"2"), version("b", "2"));
    // The version pattern allows no blank in front of the name.
    assert_eq!(partial_version("{: ecto, \"1"), None);
    assert_eq!(partial_version("{:2ecto, \"1"), None);
    assert_eq!(partial_version("{:ecto \"1"), None);
    assert_eq!(partial_version("{:ecto, git: \"1"), None);
    assert_eq!(partial_version("{:ecto, '1"), None);
}

#[test]
fn an_open_version_goes_before_an_open_name() {
    // Both could be read here: the string is open and ends in `{:x`.
    assert!(matches!(
        detect_context("{:ecto, \"{:x"),
        Some(CompletionContext::Version(_, _))
    ));
    // The leftmost tuple with an open string counts.
    assert_eq!(partial_version("{:a, \"{:b, 1"), version("a", "{:b, 1"));
}

#[test]
fn what_is_typed_ends_the_text() {
    for text in ["{:ph", "x {: _", "{:a, \"", "{:a, \"~> 1", "{:a,\n\"é"] {
        match detect_context(text) {
            Some(CompletionContext::PackageName(partial)) => assert!(text.ends_with(&partial)),
            Some(CompletionContext::Version(_, partial)) => {
                assert!(text.ends_with(&format!("\"{partial}")));
                assert!(!partial.contains('"'));
            }
            None => panic!("nothing is being typed in {text}"),
        }
    }
}

#[test]
fn names_under_the_cursor() {
    let line = "[{:ecto, \"~> 3.0\"}, {:oauth2, \"~> 2.0\"}]";
    assert_eq!(package_name_at_cursor(line, 3), Some("ecto".to_string()));
    assert_eq!(package_name_at_cursor(line, 6), Some("ecto".to_string()));
    assert_eq!(package_name_at_cursor(line, 7), None);
    assert_eq!(package_name_at_cursor(line, 2), None);
    assert_eq!(package_name_at_cursor(line, 22), Some("oauth2".to_string()));
    assert_eq!(package_name_at_cursor(line, 27), Some("oauth2".to_string()));
    assert_eq!(package_name_at_cursor(line, 28), None);
    // Offsets are in bytes.
    assert_eq!(package_name_at_cursor("é{: ab}", 4), None);
    assert_eq!(package_name_at_cursor("é{: ab}", 5), Some("ab".to_string()));
    assert_eq!(package_name_at_cursor("é{: ab}", 6), Some("ab".to_string()));
    assert_eq!(package_name_at_cursor("é{: ab}", 7), None);
    assert_eq!(package_name_at_cursor("", 0), None);
}

#[test]
fn versions_under_the_cursor() {
    let line = "[{:ecto, \"~> 3.0\"}, {:oauth2, \"\"}]";
    assert_eq!(version_pkg_at_cursor(line, 8), None);
    assert_eq!(version_pkg_at_cursor(line, 9), Some("ecto".to_string()));
    assert_eq!(version_pkg_at_cursor(line, 16), Some("ecto".to_string()));
    assert_eq!(version_pkg_at_cursor(line, 17), None);
    // The two quotes of an empty version.
    assert_eq!(version_pkg_at_cursor(line, 30), Some("oauth2".to_string()));
    assert_eq!(version_pkg_at_cursor(line, 31), Some("oauth2".to_string()));
    assert_eq!(version_pkg_at_cursor(line, 32), None);
    // A tuple inside the quotes of another one is not looked at.
    let nested = "{:a, \"{:b, \"1\"}";
    assert_eq!(version_pkg_at_cursor(nested, 6), Some("a".to_string()));
    assert_eq!(version_pkg_at_cursor(nested, 12), None);
    // An open string is no version yet.
    assert_eq!(version_pkg_at_cursor("{:a, \"1", 6), None);
    // Offsets are in bytes, and the version may hold anything but a quote.
    assert_eq!(version_pkg_at_cursor("é {:a, \"ü\"}", 7), None);
    assert_eq!(version_pkg_at_cursor("é {:a, \"ü\"}", 8), Some("a".to_string()));
    assert_eq!(version_pkg_at_cursor("é {:a, \"ü\"}", 11), Some("a".to_string()));
    assert_eq!(version_pkg_at_cursor("é {:a, \"ü\"}", 12), None);
}

#[test]
fn each_of_several_versions_is_found() {
    let line = "{:a, \"1\"}, {:b, \"{:c, \"2\"}, {:d,\"\"} {:e, \"x";
    // The third tuple opens inside the quotes of the second.
    let quotes = [(5, 7, "a"), (16, 22, "b"), (32, 33, "d")];
    for column in 0..=line.len() + 1 {
        let expected = quotes
            .iter()
            .find(|q| q.0 <= column && column <= q.1)
            .map(|q| q.2.to_string());
        assert_eq!(version_pkg_at_cursor(line, column), expected);
    }
}

#[test]
fn packages_to_fetch_ahead() {
    let text = "defp deps do\n  [\n    {:phoenix, \"~> 1.7\"},\n    {:ecto, \"~> 3.0\"},\n    {:phoenix, \"~> 1.6\"},\n    {:\n      oauth2}\n  ]\nend\n";
    let packages = prefetch_packages(text);
    assert_eq!(
        packages,
        vec!["phoenix".to_string(), "ecto".to_string(), "oauth2".to_string()]
    );
    assert!(prefetch_packages("def project do").is_empty());
    assert!(prefetch_packages("").is_empty());
}

#[test]
fn no_more_than_thirty_packages_are_fetched_ahead() {
    let mut text = String::new();
    for i in 0..40 {
        text.push_str(&format!("{{:pkg_{i}, \"1.0\"}}, {{:pkg_0, \"1.0\"}}\n"));
    }
    let packages = prefetch_packages(&text);
    assert_eq!(packages.len(), 30);
    assert_eq!(packages[0], "pkg_0");
    assert_eq!(packages[29], "pkg_29");
}
