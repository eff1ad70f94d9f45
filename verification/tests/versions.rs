use hex_ls::json::Json;
use hex_ls::version::{
    all_versions, latest_patch_for_minor, minor_series, release_versions, series_members,
};

fn releases() -> Vec<Json> {
    let mut all: Vec<Json> = Vec::new();
    for v in ["2.0.0", "1.7.3", "", "1.7.2", "3", "1.6.9", "2.0.0-rc.1"] {
        let fields = if v.is_empty() {
            vec![("version".to_string(), Json::Null)]
        } else {
            vec![("version".to_string(), Json::Text(v.to_string()))]
        };
        all.push(Json::Object(fields));
    }
    all
}

#[test]
fn a_limit_counts_versions() {
    assert_eq!(release_versions(&releases(), 3), vec!["2.0.0", "1.7.3", "1.7.2"]);
    assert_eq!(release_versions(&releases(), 100).len(), 6);
    assert!(release_versions(&releases(), 0).is_empty());
    assert_eq!(
        all_versions(&releases()),
        vec!["2.0.0", "1.7.3", "1.7.2", "3", "1.6.9", "2.0.0-rc.1"]
    );
    assert!(all_versions(&Vec::new()).is_empty());
}

#[test]
fn versions_are_grouped_by_series() {
    let versions = release_versions(&releases(), 100);
    assert_eq!(minor_series(&versions), vec!["2.0", "1.7", "1.6"]);
    assert_eq!(series_members(&versions, "2.0"), vec!["2.0.0", "2.0.0-rc.1"]);
    assert_eq!(series_members(&versions, "1.7"), vec!["1.7.3", "1.7.2"]);
    assert_eq!(series_members(&versions, "1.6"), vec!["1.6.9"]);
    assert!(series_members(&versions, "3").is_empty());
    assert!(minor_series(&Vec::new()).is_empty());
}

#[test]
fn the_first_version_of_a_series_is_its_latest() {
    let versions = release_versions(&releases(), 100);
    let latest = latest_patch_for_minor(&versions);
    assert_eq!(latest.get("2.0"), Some(&"2.0.0".to_string()));
    assert_eq!(latest.get("1.7"), Some(&"1.7.3".to_string()));
    assert_eq!(latest.get("1.6"), Some(&"1.6.9".to_string()));
    assert_eq!(latest.get("3"), None);
}
