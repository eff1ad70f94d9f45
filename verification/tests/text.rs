use hex_ls::json::{as_array, as_object, as_text, as_text_or_empty, Json};
use hex_ls::lists::{holds, join};
use hex_ls::text::{
    cat, cat3, chars_of, clamp_column, decimal_text, ends_with, find, line_at, same_text,
    starts_with, text_before,
};

#[test]
fn searching_a_text() {
    assert!(ends_with("file:///app/mix.exs", "/mix.exs"));
    assert!(ends_with("mix.exs", "mix.exs"));
    assert!(ends_with("abc", ""));
    assert!(!ends_with("file:///app/mix.exs.bak", "/mix.exs"));
    assert!(!ends_with("", "a"));
    assert!(!ends_with("exs", "mix.exs"));
    assert!(starts_with("~> 1.7", "~> 1"));
    assert!(starts_with("~> 1.7", ""));
    assert!(!starts_with("~>", "~> 1"));
    assert!(!starts_with("1.7", "~"));
    assert!(same_text("é", "é"));
    assert!(!same_text("é", "e"));
    assert!(!same_text("ab", "abc"));
    let chars: Vec<char> = chars_of("1.7.3");
    assert_eq!(chars, vec!['1', '.', '7', '.', '3']);
    assert_eq!(find(&chars, '.', 0), 1);
    assert_eq!(find(&chars, '.', 2), 3);
    assert_eq!(find(&chars, 'x', 0), 5);
}

#[test]
fn cutting_a_document_into_lines() {
    let content = "one\ntwo\r\nthree\r\r\n\nfive\r";
    assert_eq!(line_at(content, 0), Some("one"));
    assert_eq!(line_at(content, 1), Some("two"));
    assert_eq!(line_at(content, 2), Some("three"));
    assert_eq!(line_at(content, 3), Some(""));
    assert_eq!(line_at(content, 4), Some("five"));
    assert_eq!(line_at(content, 5), None);
    assert_eq!(line_at("", 0), None);
    assert_eq!(line_at("\n", 0), Some(""));
    assert_eq!(line_at("\n", 1), None);
    assert_eq!(line_at("a\rb\n", 0), Some("a\rb"));
    assert_eq!(line_at("naïve\nçava", 1), Some("çava"));
}

#[test]
fn a_column_stands_for_a_character_boundary() {
    assert_eq!(clamp_column("abc", 0), 0);
    assert_eq!(clamp_column("abc", 2), 2);
    assert_eq!(clamp_column("abc", 3), 3);
    assert_eq!(clamp_column("abc", 100), 3);
    assert_eq!(clamp_column("", 5), 0);
    // Two, three and four bytes.
    assert_eq!(clamp_column("aéb", 1), 1);
    assert_eq!(clamp_column("aéb", 2), 1);
    assert_eq!(clamp_column("aéb", 3), 3);
    assert_eq!(clamp_column("€", 2), 0);
    assert_eq!(clamp_column("a\u{1f600}", 4), 1);
    assert_eq!(clamp_column("a\u{1f600}", 5), 5);
    assert_eq!(text_before("aéb", 2), "a");
    assert_eq!(text_before("aéb", 3), "aé");
    assert_eq!(text_before("aéb", 9), "aéb");
}

#[test]
fn putting_texts_together() {
    assert_eq!(cat("~> ", "1.7"), "~> 1.7");
    assert_eq!(cat3("[", "docs", "]"), "[docs]");
    assert_eq!(decimal_text(0), "0");
    assert_eq!(decimal_text(9), "9");
    assert_eq!(decimal_text(10), "10");
    assert_eq!(decimal_text(52), "52");
    assert_eq!(decimal_text(10_203), "10203");
    let v: Vec<String> = vec!["MIT".to_string(), "Apache-2.0".to_string(), "é".to_string()];
    assert_eq!(join(&v, ", "), "MIT, Apache-2.0, é");
    assert_eq!(join(&vec!["MIT".to_string()], ", "), "MIT");
    assert_eq!(join(&Vec::new(), ", "), "");
    assert!(holds(&v, "MIT"));
    assert!(!holds(&v, "mit"));
}

#[test]
fn reading_json() {
    let j = Json::Object(vec![
        ("name".to_string(), Json::Text("ecto".to_string())),
        (
            "meta".to_string(),
            Json::Object(vec![("links".to_string(), Json::Object(Vec::new()))]),
        ),
        ("downloads".to_string(), Json::Number("3".to_string())),
        ("retired".to_string(), Json::Bool(false)),
        ("docs".to_string(), Json::Null),
        ("releases".to_string(), Json::Array(vec![Json::Null])),
    ]);
    assert_eq!(as_text(j.get("name")), Some("ecto"));
    assert_eq!(as_text(j.get("absent")), None);
    assert_eq!(as_text(j.get("downloads")), None);
    assert_eq!(as_text(j.get("docs")), None);
    assert_eq!(as_text_or_empty(j.get("name")), "ecto");
    assert_eq!(as_text_or_empty(j.get("retired")), "");
    assert_eq!(as_text_or_empty(None), "");
    assert_eq!(as_array(j.get("releases")).map(|v| v.len()), Some(1));
    assert!(as_array(j.get("name")).is_none());
    assert_eq!(as_object(j.get2("meta", "links")).map(|v| v.len()), Some(0));
    assert!(as_object(j.get("releases")).is_none());
    assert!(j.get2("meta", "absent").is_none());
    assert!(j.get2("name", "links").is_none());
    assert!(j.get2("absent", "links").is_none());
    // Only an object has fields.
    assert!(Json::Array(Vec::new()).get("name").is_none());
}
