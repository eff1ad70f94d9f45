use hex_ls::completion::CompletionItem;
use hex_ls::json::{as_text, Json};
use hex_ls::server::{
    answer, answer_cached, answer_fetched, compute_completions, compute_hover,
    handle_notification, handle_request, names_mix_file, needs_prefetch, notification_kind,
    package_url, request_kind, search_url, store_prefetched, Notification, NotificationKind, Query, Reply, Request, RequestKind,
    Step, TextPosition, INVALID_PARAMS, METHOD_NOT_FOUND,
};
use hex_ls::state::{ServerState, CACHE_TTL};

const MIX: &str = "file:///app/mix.exs";
const PHOENIX: &str = "https://hex.pm/api/packages/phoenix";

fn at(uri: &str, line: u32, character: u32) -> TextPosition {
    TextPosition { uri: uri.to_string(), line, character }
}

fn open(state: &mut ServerState, uri: &str, text: &str) -> Vec<String> {
    handle_notification(
        state,
        Notification::DidOpen { uri: uri.to_string(), text: text.to_string() },
    )
}

fn with_document(text: &str) -> ServerState {
    let mut state = ServerState::new();
    open(&mut state, MIX, text);
    state
}

fn is_empty_list(step: &Step) -> bool {
    matches!(step, Step::Reply(Reply::Completions(items)) if items.is_empty())
}

fn is_no_hover(step: &Step) -> bool {
    matches!(step, Step::Reply(Reply::Hover(None)))
}

fn phoenix() -> Json {
    let versions = ["1.8.0", "1.7.3", "1.7.2"];
    let releases = versions
        .iter()
        .map(|v| Json::Object(vec![("version".to_string(), Json::Text(v.to_string()))]))
        .collect();
    Json::Object(vec![
        ("name".to_string(), Json::Text("phoenix".to_string())),
        ("latest_version".to_string(), Json::Text("1.8.0".to_string())),
        ("releases".to_string(), Json::Array(releases)),
    ])
}

fn shown(items: &[CompletionItem]) -> Vec<&str> {
    items.iter().map(|i| i.label.as_str()).collect()
}

#[test]
fn methods_are_told_apart() {
    assert_eq!(request_kind("textDocument/completion"), RequestKind::Completion);
    assert_eq!(request_kind("textDocument/hover"), RequestKind::Hover);
    assert_eq!(request_kind("textDocument/definition"), RequestKind::Other);
    assert_eq!(request_kind(""), RequestKind::Other);
    assert_eq!(notification_kind("initialized"), NotificationKind::Initialized);
    assert_eq!(notification_kind("textDocument/didOpen"), NotificationKind::DidOpen);
    assert_eq!(notification_kind("textDocument/didChange"), NotificationKind::DidChange);
    assert_eq!(notification_kind("textDocument/didClose"), NotificationKind::DidClose);
    assert_eq!(notification_kind("textDocument/didSave"), NotificationKind::Other);
}

#[test]
fn addresses_in_the_registry() {
    assert_eq!(package_url("phoenix"), PHOENIX);
    assert_eq!(
        search_url(""),
        "https://hex.pm/api/packages?sort=downloads&page=1"
    );
    assert_eq!(
        search_url("ph"),
        "https://hex.pm/api/packages?search=ph&sort=downloads&page=1"
    );
}

#[test]
fn bad_requests_are_answered_with_an_error() {
    let state = with_document("{:");
    match handle_request(&state, &Request::Other) {
        Step::Reply(Reply::Error { code, message }) => {
            assert_eq!(code, METHOD_NOT_FOUND);
            assert_eq!(code, -32601);
            assert_eq!(message, "Method not found");
        }
        _ => panic!("expected an error"),
    }
    for request in [
        Request::Completion(Err("missing field `position`".to_string())),
        Request::Hover(Err("missing field `position`".to_string())),
    ] {
        match handle_request(&state, &request) {
            Step::Reply(Reply::Error { code, message }) => {
                assert_eq!(code, INVALID_PARAMS);
                assert_eq!(code, -32602);
                assert_eq!(message, "Invalid params: missing field `position`");
            }
            _ => panic!("expected an error"),
        }
    }
}

#[test]
fn requests_are_handed_on() {
    let state = with_document("{:ph");
    assert!(matches!(
        handle_request(&state, &Request::Completion(Ok(at(MIX, 0, 4)))),
        Step::Fetch { query: Query::PackageNames, .. }
    ));
    assert!(matches!(
        handle_request(&state, &Request::Hover(Ok(at(MIX, 0, 2)))),
        Step::Fetch { query: Query::PackageInfo { .. }, .. }
    ));
}

#[test]
fn package_names_are_searched_for() {
    let state = with_document("  [\r\n    {:pho, \"\"},\r\n    {:\r\n");
    match compute_completions(&state, &at(MIX, 1, 8)) {
        Step::Fetch { url, query: Query::PackageNames } => assert_eq!(url, search_url("ph")),
        _ => panic!("expected a search"),
    }
    // A column behind the end of the line means its end.
    match compute_completions(&state, &at(MIX, 2, 500)) {
        Step::Fetch { url, query: Query::PackageNames } => assert_eq!(url, search_url("")),
        _ => panic!("expected a search"),
    }
}

#[test]
fn versions_are_asked_for() {
    let state = with_document("# é\n  {:phoenix, \"~> 1.7\"},\n  {:ü, {:ecto, \"é");
    match compute_completions(&state, &at(MIX, 1, 17)) {
        Step::Fetch { url, query: Query::Versions { partial, line, start, end } } => {
            assert_eq!(url, PHOENIX);
            assert_eq!(partial, "~> ");
            assert_eq!((line, start, end), (1, 14, 17));
        }
        _ => panic!("expected a query for versions"),
    }
    // Columns are bytes, and one inside a character means its start.
    match compute_completions(&state, &at(MIX, 2, 18)) {
        Step::Fetch { url, query: Query::Versions { partial, line, start, end } } => {
            assert_eq!(url, package_url("ecto"));
            assert_eq!(partial, "");
            assert_eq!((line, start, end), (2, 17, 17));
        }
        _ => panic!("expected a query for versions"),
    }
    match compute_completions(&state, &at(MIX, 2, 99)) {
        Step::Fetch { query: Query::Versions { partial, start, end, .. }, .. } => {
            assert_eq!(partial, "é");
            assert_eq!((start, end), (17, 19));
        }
        _ => panic!("expected a query for versions"),
    }
}

#[test]
fn nothing_to_complete_elsewhere() {
    let state = with_document("{:phoenix, \"~> 1.7\"}\ndef project do\n");
    assert!(is_empty_list(&compute_completions(&state, &at(MIX, 0, 20))));
    assert!(is_empty_list(&compute_completions(&state, &at(MIX, 1, 5))));
    // There is no third line, and this document is not open.
    assert!(is_empty_list(&compute_completions(&state, &at(MIX, 2, 0))));
    assert!(is_empty_list(&compute_completions(&state, &at("file:///b/mix.exs", 0, 2))));
}

#[test]
fn other_files_are_left_alone() {
    let mut state = ServerState::new();
    let uri = "file:///app/lib/app.ex";
    assert!(open(&mut state, uri, "{:phoenix, \"").is_empty());
    assert!(is_empty_list(&compute_completions(&state, &at(uri, 0, 12))));
    assert!(is_no_hover(&compute_hover(&state, &at(uri, 0, 4))));
}

#[test]
fn only_files_named_mix_exs_are_served() {
    assert!(names_mix_file("mix.exs"));
    assert!(names_mix_file("/mix.exs"));
    assert!(names_mix_file("file:///app/mix.exs"));
    for uri in [
        "file:///app/remix.exs",
        "file:///app/mix.exs.bak",
        "file:///app/mix.exs/lib.ex",
        "file:///app/Mix.exs",
        "file:///app/mix.exs/",
        "remix.exs",
        "mix.ex",
        "",
    ] {
        assert!(!names_mix_file(uri));
        let mut state = ServerState::new();
        state.insert_cache(PHOENIX.to_string(), phoenix(), 0);
        assert!(open(&mut state, uri, "{:phoenix, \"").is_empty());
        assert!(is_empty_list(&compute_completions(&state, &at(uri, 0, 12))));
        assert!(is_no_hover(&compute_hover(&state, &at(uri, 0, 4))));
    }
}

#[test]
fn every_address_of_a_mix_exs_is_served() {
    for uri in [
        "mix.exs",
        "untitled:mix.exs",
        "file:///app/mix.exs#L3",
        "file:///app/mix.exs?version=2",
        "file:///app/mix.exs?a#b",
        "file:///app/mix.exs#b?a",
        "mix.exs#",
    ] {
        assert!(names_mix_file(uri));
        let mut state = ServerState::new();
        assert_eq!(open(&mut state, uri, "{:phoenix, \""), vec!["phoenix"]);
        assert!(matches!(
            compute_completions(&state, &at(uri, 0, 12)),
            Step::Fetch { url, query: Query::Versions { .. } } if url == PHOENIX
        ));
        assert!(matches!(
            compute_hover(&state, &at(uri, 0, 4)),
            Step::Fetch { url, query: Query::PackageInfo { .. } } if url == PHOENIX
        ));
    }
    // What stands in the query or in the fragment does not count.
    assert!(!names_mix_file("file:///app/a.ex?f=/mix.exs"));
    assert!(!names_mix_file("file:///app/a.ex#/mix.exs"));
    assert!(!names_mix_file("untitled:remix.exs"));
    assert!(!names_mix_file("?mix.exs"));
}

#[test]
fn fetching_ahead_fills_the_cache() {
    let mut state = ServerState::new();
    let ecto = package_url("ecto");
    let jason = package_url("jason");
    state.insert_cache(ecto.clone(), Json::Text("old".to_string()), 0);
    state.insert_cache("other".to_string(), Json::Text("kept".to_string()), 0);
    let packages = open(&mut state, MIX, "{:ecto, \"3\"} {:jason, \"1\"} {:phoenix, \"1\"}");
    assert_eq!(packages, vec!["ecto", "jason", "phoenix"]);

    // The first has a good answer already, the second cannot be fetched.
    assert!(!needs_prefetch(&state, "ecto", 10));
    assert!(needs_prefetch(&state, "jason", 10));
    store_prefetched(&mut state, "jason", None, 20);
    assert!(needs_prefetch(&state, "phoenix", 30));
    store_prefetched(&mut state, "phoenix", Some(phoenix()), 40);

    assert_eq!(as_text(state.get_cached(&ecto, 50)), Some("old"));
    assert!(state.get_cached(&jason, 50).is_none());
    assert_eq!(as_text(state.get_cached("other", 50)), Some("kept"));
    assert!(state.get_cached(PHOENIX, 40 + CACHE_TTL - 1).is_some());
    assert!(state.get_cached(PHOENIX, 40 + CACHE_TTL).is_none());

    // A failed fetch leaves an old answer as it is.
    store_prefetched(&mut state, "ecto", None, 60);
    assert_eq!(as_text(state.get_cached(&ecto, 60)), Some("old"));
    assert_eq!(state.document(MIX), Some("{:ecto, \"3\"} {:jason, \"1\"} {:phoenix, \"1\"}"));
}

#[test]
fn hovers_ask_about_names_and_versions() {
    let state = with_document("[\n  {:phoenix, \"~> 1.7\"},\n]");
    match compute_hover(&state, &at(MIX, 1, 4)) {
        Step::Fetch { url, query: Query::PackageInfo { pkg } } => {
            assert_eq!(url, PHOENIX);
            assert_eq!(pkg, "phoenix");
        }
        _ => panic!("expected a query for the package"),
    }
    match compute_hover(&state, &at(MIX, 1, 13)) {
        Step::Fetch { url, query: Query::VersionList { pkg } } => {
            assert_eq!(url, PHOENIX);
            assert_eq!(pkg, "phoenix");
        }
        _ => panic!("expected a query for the versions"),
    }
    assert!(is_no_hover(&compute_hover(&state, &at(MIX, 1, 11))));
    assert!(is_no_hover(&compute_hover(&state, &at(MIX, 0, 0))));
    assert!(is_no_hover(&compute_hover(&state, &at(MIX, 9, 0))));
    assert!(is_no_hover(&compute_hover(&state, &at("file:///b/mix.exs", 1, 4))));
}

#[test]
fn a_name_goes_before_a_version_under_the_cursor() {
    // The second tuple stands inside the quotes of the first.
    let state = with_document("{:a, \"{:b\"}");
    match compute_hover(&state, &at(MIX, 0, 8)) {
        Step::Fetch { query: Query::PackageInfo { pkg }, .. } => assert_eq!(pkg, "b"),
        _ => panic!("expected a query for the package"),
    }
    match compute_hover(&state, &at(MIX, 0, 7)) {
        Step::Fetch { query: Query::VersionList { pkg }, .. } => assert_eq!(pkg, "a"),
        _ => panic!("expected a query for the versions"),
    }
}

#[test]
fn queries_are_answered() {
    let packages = Json::Array(vec![phoenix()]);
    match answer(&Query::PackageNames, Some(&packages)) {
        Reply::Completions(items) => assert_eq!(shown(&items), vec!["phoenix"]),
        _ => panic!("expected completions"),
    }
    let query = Query::Versions { partial: "~> 1".to_string(), line: 1, start: 14, end: 18 };
    match answer(&query, Some(&phoenix())) {
        Reply::IncompleteCompletions(items) => {
            assert_eq!(shown(&items), vec!["~> 1.8", "~> 1.7"]);
            assert!(items[0].preselect);
            let edit = items[0].text_edit.as_ref().unwrap();
            assert_eq!((edit.line, edit.start, edit.end), (1, 14, 18));
            assert_eq!(edit.new_text, "~> 1.8");
        }
        _ => panic!("expected completions"),
    }
    match answer(&Query::PackageInfo { pkg: "phoenix".to_string() }, Some(&phoenix())) {
        Reply::Hover(Some(hover)) => assert_eq!(hover.value, "### phoenix `1.8.0`\n\n"),
        _ => panic!("expected a text"),
    }
    match answer(&Query::VersionList { pkg: "phoenix".to_string() }, Some(&phoenix())) {
        Reply::Hover(Some(hover)) => assert_eq!(
            hover.value,
            "### phoenix — available versions\n\n**~> 1.8** &nbsp; 1.8.0\n\n\
             **~> 1.7** &nbsp; 1.7.3 · 1.7.2\n\n"
        ),
        _ => panic!("expected a text"),
    }
}

#[test]
fn without_an_answer_there_is_nothing_to_offer() {
    let query = Query::Versions { partial: String::new(), line: 0, start: 0, end: 0 };
    assert!(matches!(
        answer(&Query::PackageNames, None),
        Reply::Completions(items) if items.is_empty()
    ));
    assert!(matches!(
        answer(&query, None),
        Reply::IncompleteCompletions(items) if items.is_empty()
    ));
    assert!(matches!(
        answer(&Query::PackageInfo { pkg: "a".to_string() }, None),
        Reply::Hover(None)
    ));
    assert!(matches!(
        answer(&Query::VersionList { pkg: "a".to_string() }, None),
        Reply::Hover(None)
    ));
}

#[test]
fn fetched_answers_are_given_again_for_five_minutes() {
    let mut state = ServerState::new();
    let query = Query::PackageInfo { pkg: "phoenix".to_string() };
    assert!(answer_cached(&state, PHOENIX, &query, 0).is_none());
    assert!(needs_prefetch(&state, "phoenix", 0));

    let reply = answer_fetched(&mut state, PHOENIX.to_string(), &query, Some(phoenix()), 1_000);
    assert!(matches!(reply, Reply::Hover(Some(_))));
    for now in [1_000, 999, 1_000 + CACHE_TTL - 1] {
        match answer_cached(&state, PHOENIX, &query, now) {
            Some(Reply::Hover(Some(hover))) => {
                assert_eq!(hover.value, "### phoenix `1.8.0`\n\n")
            }
            _ => panic!("expected a text"),
        }
        assert!(!needs_prefetch(&state, "phoenix", now));
    }
    assert!(answer_cached(&state, PHOENIX, &query, 1_000 + CACHE_TTL).is_none());
    assert!(needs_prefetch(&state, "phoenix", 1_000 + CACHE_TTL));
    assert!(needs_prefetch(&state, "ecto", 1_000));
    assert_eq!(CACHE_TTL, 300 * 1_000_000_000);
}

#[test]
fn a_failed_fetch_is_not_remembered() {
    let mut state = ServerState::new();
    let query = Query::PackageInfo { pkg: "phoenix".to_string() };
    let reply = answer_fetched(&mut state, PHOENIX.to_string(), &query, None, 5);
    assert!(matches!(reply, Reply::Hover(None)));
    assert!(state.get_cached(PHOENIX, 5).is_none());
}

#[test]
fn a_newer_answer_replaces_an_older_one() {
    let mut state = ServerState::new();
    state.insert_cache("u".to_string(), Json::Text("old".to_string()), 0);
    state.insert_cache("v".to_string(), Json::Text("other".to_string()), 0);
    state.insert_cache("u".to_string(), Json::Text("new".to_string()), CACHE_TTL);
    assert_eq!(as_text(state.get_cached("u", CACHE_TTL)), Some("new"));
    assert_eq!(as_text(state.get_cached("v", CACHE_TTL - 1)), Some("other"));
    assert!(state.get_cached("v", CACHE_TTL).is_none());
    assert!(state.get_cached("w", 0).is_none());
}

#[test]
fn notifications_keep_the_documents_up_to_date() {
    let mut state = ServerState::new();
    let other = "file:///b/mix.exs";
    let packages = open(&mut state, MIX, "{:phoenix, \"1\"} {:ecto, \"2\"}");
    assert_eq!(packages, vec!["phoenix", "ecto"]);
    open(&mut state, other, "other");
    assert_eq!(state.document(MIX), Some("{:phoenix, \"1\"} {:ecto, \"2\"}"));

    let changed = handle_notification(
        &mut state,
        Notification::DidChange {
            uri: MIX.to_string(),
            changes: vec!["first".to_string(), "{:jason".to_string()],
        },
    );
    assert!(changed.is_empty());
    assert_eq!(state.document(MIX), Some("{:jason"));

    handle_notification(
        &mut state,
        Notification::DidChange { uri: MIX.to_string(), changes: Vec::new() },
    );
    handle_notification(&mut state, Notification::Ignored);
    assert_eq!(state.document(MIX), Some("{:jason"));

    handle_notification(&mut state, Notification::DidClose { uri: MIX.to_string() });
    assert_eq!(state.document(MIX), None);
    assert_eq!(state.document(other), Some("other"));
    assert!(is_empty_list(&compute_completions(&state, &at(MIX, 0, 7))));
}

#[test]
fn hovers_ask_for_what_was_fetched_ahead() {
    let mut state = ServerState::new();
    let text = "{:phoenix, \"1\"}\n  {: ecto, \"2\"}\n{:oauth2, \"3\"}";
    let packages = open(&mut state, MIX, text);
    for pkg in &packages {
        store_prefetched(&mut state, pkg, Some(phoenix()), 0);
    }
    let mut asked = 0;
    for line in 0..3 {
        for character in 0..20 {
            if let Step::Fetch { url, query } = compute_hover(&state, &at(MIX, line, character)) {
                assert!(answer_cached(&state, &url, &query, 1).is_some());
                asked += 1;
            }
        }
    }
    assert_eq!(asked, 7 + 3 + 4 + 6 + 3);
}
