use hex_ls::hover::{hover_package_info, hover_version_list};
use hex_ls::json::Json;

fn string(s: &str) -> Json {
    Json::Text(s.to_string())
}

fn fields(list: Vec<(&str, Json)>) -> Json {
    Json::Object(list.into_iter().map(|(k, v)| (k.to_string(), v)).collect())
}

fn released(versions: &[String]) -> Json {
    Json::Array(
        versions
            .iter()
            .map(|v| fields(vec![("version", string(v))]))
            .collect(),
    )
}

#[test]
fn everything_about_a_package() {
    let data = fields(vec![
        ("latest_stable_version", string("1.7.3")),
        ("latest_version", string("1.8.0-rc.0")),
        ("html_url", string("https://hex.pm/packages/phoenix")),
        ("docs_html_url", string("https://hexdocs.pm/phoenix/")),
        (
            "meta",
            fields(vec![
                ("description", string("Web framework")),
                (
                    "licenses",
                    Json::Array(vec![string("MIT"), Json::Null, string("Apache-2.0")]),
                ),
                (
                    "links",
                    fields(vec![
                        ("GitHub", string("https://github.com/phoenixframework/phoenix")),
                        ("Broken", Json::Bool(true)),
                        ("Site", string("https://phoenixframework.org")),
                    ]),
                ),
            ]),
        ),
    ]);
    assert_eq!(
        hover_package_info("phoenix", Some(&data)).unwrap().value,
        "### phoenix `1.7.3`\n\nWeb framework\n\n**License:** MIT, Apache-2.0\n\n\
         [HexDocs](https://hexdocs.pm/phoenix/) · [Hex.pm](https://hex.pm/packages/phoenix) · \
         [GitHub](https://github.com/phoenixframework/phoenix) · \
         [Site](https://phoenixframework.org)\n"
    );
}

#[test]
fn what_the_registry_does_not_give_is_left_out() {
    let nothing = fields(vec![]);
    assert_eq!(
        hover_package_info("ecto", Some(&nothing)).unwrap().value,
        "### ecto `unknown`\n\n"
    );
    let unstable = fields(vec![
        ("latest_stable_version", Json::Null),
        ("latest_version", string("0.1.0-dev")),
        ("html_url", string("https://hex.pm/packages/ecto")),
    ]);
    assert_eq!(
        hover_package_info("ecto", Some(&unstable)).unwrap().value,
        "### ecto `0.1.0-dev`\n\n[Hex.pm](https://hex.pm/packages/ecto)\n"
    );
    assert!(hover_package_info("ecto", None).is_none());
}

#[test]
fn versions_are_listed_by_series() {
    let versions: Vec<String> = ["1.8.0", "1.7.3", "1.7.2", "1", "1.6.9"]
        .iter()
        .map(|v| v.to_string())
        .collect();
    let data = fields(vec![("releases", released(&versions))]);
    assert_eq!(
        hover_version_list("phoenix", Some(&data)).unwrap().value,
        "### phoenix — available versions\n\n**~> 1.8** &nbsp; 1.8.0\n\n\
         **~> 1.7** &nbsp; 1.7.3 · 1.7.2\n\n**~> 1.6** &nbsp; 1.6.9\n\n"
    );
}

#[test]
fn five_versions_of_a_series_are_shown() {
    let five: Vec<String> = (0..5).map(|i| format!("1.0.{}", 9 - i)).collect();
    let data = fields(vec![("releases", released(&five))]);
    assert_eq!(
        hover_version_list("a", Some(&data)).unwrap().value,
        "### a — available versions\n\n**~> 1.0** &nbsp; 1.0.9 · 1.0.8 · 1.0.7 · 1.0.6 · 1.0.5\n\n"
    );
    let six: Vec<String> = (0..6).map(|i| format!("1.0.{}", 9 - i)).collect();
    let data = fields(vec![("releases", released(&six))]);
    assert_eq!(
        hover_version_list("a", Some(&data)).unwrap().value,
        "### a — available versions\n\n**~> 1.0** &nbsp; 1.0.9 · 1.0.8 · 1.0.7 · 1.0.6 · 1.0.5 …\n\n"
    );
}

#[test]
fn eight_series_are_shown() {
    let eight: Vec<String> = (0..8).map(|i| format!("1.{}.0", 9 - i)).collect();
    let data = fields(vec![("releases", released(&eight))]);
    let shown = hover_version_list("a", Some(&data)).unwrap().value;
    assert_eq!(shown.matches("**~> ").count(), 8);
    assert!(!shown.contains("more minor version(s)"));

    let many: Vec<String> = (0..20).map(|i| format!("1.{}.0", 20 - i)).collect();
    let data = fields(vec![("releases", released(&many))]);
    let shown = hover_version_list("a", Some(&data)).unwrap().value;
    assert_eq!(shown.matches("**~> ").count(), 8);
    assert!(shown.ends_with(
        "**~> 1.13** &nbsp; 1.13.0\n\n_12 more minor version(s) — see [Hex.pm](https://hex.pm)_\n"
    ));

    let data = fields(vec![
        ("html_url", string("https://hex.pm/packages/a")),
        ("releases", released(&many[..9])),
    ]);
    let shown = hover_version_list("a", Some(&data)).unwrap().value;
    assert!(shown.ends_with(
        "_1 more minor version(s) — see [Hex.pm](https://hex.pm/packages/a)_\n"
    ));
}

#[test]
fn all_releases_are_listed_however_many() {
    let mut many: Vec<String> = (0..60).map(|i| format!("1.0.{}", 60 - i)).collect();
    many.push("0.9.0".to_string());
    let data = fields(vec![("releases", released(&many))]);
    assert_eq!(
        hover_version_list("a", Some(&data)).unwrap().value,
        "### a — available versions\n\n\
         **~> 1.0** &nbsp; 1.0.60 · 1.0.59 · 1.0.58 · 1.0.57 · 1.0.56 …\n\n\
         **~> 0.9** &nbsp; 0.9.0\n\n"
    );
}

#[test]
fn every_series_is_shown_or_counted() {
    let many: Vec<String> = (0..100).map(|i| format!("1.{}.0", 100 - i)).collect();
    let data = fields(vec![("releases", released(&many))]);
    let shown = hover_version_list("a", Some(&data)).unwrap().value;
    assert_eq!(shown.matches("**~> ").count(), 8);
    assert!(shown.ends_with("_92 more minor version(s) — see [Hex.pm](https://hex.pm)_\n"));
}

#[test]
fn without_versions_there_is_nothing_to_show() {
    assert!(hover_version_list("a", None).is_none());
    assert!(hover_version_list("a", Some(&fields(vec![]))).is_none());
    assert!(hover_version_list("a", Some(&fields(vec![("releases", released(&[]))]))).is_none());
    let bare = fields(vec![("releases", released(&["1".to_string()]))]);
    assert!(hover_version_list("a", Some(&bare)).is_none());
}
