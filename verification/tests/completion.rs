use hex_ls::completion::{
    complete_package_names, complete_versions, narrow, CompletionItem, CompletionItemKind,
};
use hex_ls::json::Json;

fn text(s: &str) -> Json {
    Json::Text(s.to_string())
}

fn object(fields: Vec<(&str, Json)>) -> Json {
    Json::Object(fields.into_iter().map(|(k, v)| (k.to_string(), v)).collect())
}

fn package(name: &str, description: &str) -> Json {
    object(vec![
        ("name", text(name)),
        ("meta", object(vec![("description", text(description))])),
    ])
}

fn with_releases(versions: &[&str]) -> Json {
    let releases = versions
        .iter()
        .map(|v| object(vec![("version", text(v))]))
        .collect();
    object(vec![
        ("releases", Json::Array(releases)),
        ("configs", object(vec![("mix.exs", text("{:pkg, \"~> 1.8\"}"))])),
    ])
}

fn labels(items: &[CompletionItem]) -> Vec<&str> {
    items.iter().map(|i| i.label.as_str()).collect()
}

#[test]
fn package_names_come_in_the_registrys_order() {
    let data = Json::Array(vec![
        package("phoenix", "Web framework"),
        object(vec![("meta", object(vec![]))]),
        package("phoenix_html", ""),
        object(vec![("name", Json::Number("1".to_string()))]),
        object(vec![("name", text("bare"))]),
    ]);
    let items = complete_package_names(Some(&data));
    assert_eq!(labels(&items), vec!["phoenix", "phoenix_html", "bare"]);
    assert_eq!(items[0].kind, CompletionItemKind::Module);
    assert_eq!(items[0].detail, Some("Web framework".to_string()));
    assert_eq!(items[0].insert_text, "phoenix");
    assert!(!items[0].preselect);
    assert!(items[0].text_edit.is_none());
    assert_eq!(items[1].detail, None);
    assert_eq!(items[2].detail, None);
}

#[test]
fn descriptions_are_cut_after_a_hundred_characters() {
    let exact = "é".repeat(100);
    let long = "é".repeat(101);
    let data = Json::Array(vec![package("a", &exact), package("b", &long)]);
    let items = complete_package_names(Some(&data));
    assert_eq!(items[0].detail, Some(exact.clone()));
    assert_eq!(items[1].detail, Some(exact));
}

#[test]
fn no_list_of_packages_gives_no_items() {
    assert!(complete_package_names(None).is_empty());
    assert!(complete_package_names(Some(&object(vec![]))).is_empty());
    assert!(complete_package_names(Some(&Json::Array(vec![]))).is_empty());
    assert!(complete_package_names(Some(&Json::Array(vec![Json::Null, text("x")]))).is_empty());
}

#[test]
fn each_version_is_offered_in_three_formats() {
    let data = with_releases(&["1.8.0", "1.7.3", "1.7.2", "2"]);
    let items = complete_versions(Some(&data));
    assert_eq!(
        labels(&items),
        vec![
            "~> 1.8", ">= 1.8.0", "1.8.0", "~> 1.7", ">= 1.7.3", "1.7.3", ">= 1.7.2", "1.7.2",
            ">= 2", "2",
        ]
    );
    assert_eq!(items[0].detail, Some("Semver-compatible with 1.8.x".to_string()));
    assert_eq!(items[1].detail, Some("Minimum version 1.8.0".to_string()));
    assert_eq!(items[2].detail, Some("{:pkg, \"~> 1.8\"}".to_string()));
    for item in &items {
        assert_eq!(item.kind, CompletionItemKind::Value);
        assert_eq!(item.insert_text, item.label);
        assert!(!item.preselect);
        assert!(item.text_edit.is_none());
    }
}

#[test]
fn a_version_that_is_listed_twice_opens_its_series_once() {
    let data = with_releases(&["1.7.3", "1.7.3"]);
    let items = complete_versions(Some(&data));
    assert_eq!(
        labels(&items),
        vec!["~> 1.7", ">= 1.7.3", "1.7.3", ">= 1.7.3", "1.7.3"]
    );
}

#[test]
fn twenty_releases_are_covered() {
    let all: Vec<String> = (0..25).map(|i| format!("{}.0.0", 30 - i)).collect();
    let names: Vec<&str> = all.iter().map(|s| s.as_str()).collect();
    let items = complete_versions(Some(&with_releases(&names)));
    assert_eq!(items.len(), 60);
    assert_eq!(items[0].label, "~> 30.0");
    assert_eq!(items[59].label, "11.0.0");
}

#[test]
fn releases_without_a_version_do_not_count() {
    let mut releases: Vec<Json> = (0..10).map(|_| object(vec![])).collect();
    for i in 0..20 {
        releases.push(object(vec![("version", text(&format!("1.{}.0", 40 - i)))]));
    }
    let data = object(vec![("releases", Json::Array(releases))]);
    let items = complete_versions(Some(&data));
    assert_eq!(items.len(), 60);
    assert_eq!(items[0].label, "~> 1.40");
    // Without a snippet the exact version has no detail.
    assert_eq!(items[2].label, "1.40.0");
    assert_eq!(items[2].detail, None);
}

#[test]
fn no_releases_give_no_items() {
    assert!(complete_versions(None).is_empty());
    assert!(complete_versions(Some(&object(vec![]))).is_empty());
    assert!(complete_versions(Some(&object(vec![("releases", text("1.0"))]))).is_empty());
    assert!(complete_versions(Some(&with_releases(&[]))).is_empty());
}

#[test]
fn narrowing_keeps_the_labels_that_begin_with_the_partial() {
    let items = complete_versions(Some(&with_releases(&["1.8.0", "1.7.3", "1.7.2"])));
    let some = narrow(&items, "1.7", 4, 12, 15);
    assert_eq!(labels(&some), vec!["1.7.3", "1.7.2"]);
    assert!(some[0].preselect);
    assert!(!some[1].preselect);
    let edit = some[1].text_edit.as_ref().unwrap();
    assert_eq!((edit.line, edit.start, edit.end), (4, 12, 15));
    assert_eq!(edit.new_text, "1.7.2");

    assert_eq!(labels(&narrow(&items, "~> ", 0, 0, 3)), vec!["~> 1.8", "~> 1.7"]);
    assert_eq!(labels(&narrow(&items, ">= 1.8", 0, 0, 6)), vec![">= 1.8.0"]);
    assert!(narrow(&items, "~> 2", 0, 0, 4).is_empty());
    assert!(narrow(&Vec::new(), "", 0, 0, 0).is_empty());
}

#[test]
fn with_nothing_typed_every_item_stays() {
    let items = complete_versions(Some(&with_releases(&["1.8.0", "1.7.3"])));
    let all = narrow(&items, "", 0, 7, 7);
    assert_eq!(labels(&all), labels(&items));
    assert!(all[0].preselect);
    assert_eq!(all.iter().filter(|i| i.preselect).count(), 1);
    assert_eq!(all[0].detail, items[0].detail);
    assert_eq!(all[0].insert_text, items[0].insert_text);
}
