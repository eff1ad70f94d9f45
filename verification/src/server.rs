//! The server's decisions: what a request or a notification asks for, what has
//! to be fetched for it and what is answered.
//!
//! Whoever runs the server reads messages, fetches addresses and sends
//! replies. A request is handed to `handle_request`, which gives the reply or
//! says what to fetch for it. The reply then comes from `answer_cached` or,
//! after the fetch, from `answer_fetched`.

use crate::completion::{
    complete_package_names, complete_versions, item_views, narrow, narrowed, package_completions,
    version_completions, CompletionItem, ItemView,
};
use crate::deps::{
    context_of, detect_context, law_context_ends_the_text, law_prefetch_is_bounded_and_distinct,
    lemma_hovered_is_mentioned, name_under, names_from, package_name_at_cursor, prefetch_packages,
    prefetched, version_pkg_at_cursor, version_under, CompletionContext, ContextView,
    PREFETCH_LIMIT,
};
use crate::hover::{
    hover_package_info, hover_version_list, package_markdown, versions_markdown, Hover,
};
use crate::json::{found, Json};
use crate::lists::{distinct, texts};
use crate::state::{
    after_fetch, age, fresh, CacheEntry, Fetched, ServerState, StateView, CACHE_TTL,
};
use crate::text::{
    byte_offset, cat, cat3, chars_of, clamp_column, cursor_index, ends_with, find, find_char,
    lemma_byte_len_add,
    lemma_cursor_index, lemma_shown_line_place, line_at, same_text, shown_line, text_before,
};
use vstd::prelude::*;
use vstd::string::*;
use vstd::utf8::*;

verus! {

/// Where the registry answers.
pub const HEX_API_BASE: &'static str = "https://hex.pm/api";

/// How the server names itself to the registry.
pub const USER_AGENT: &'static str = "hex-ls/0.2.0";

/// The name of the files that the server serves. All others are left alone.
pub const MIX_FILE: &'static str = "mix.exs";

/// The error code for a method that the server does not know.
pub const METHOD_NOT_FOUND: i32 = -32601;

/// The error code for parameters that cannot be read.
pub const INVALID_PARAMS: i32 = -32602;

/// A place in a document: its address, and a line and a column in it.
pub struct TextPosition {
    pub uri: String,
    pub line: u32,
    pub character: u32,
}

/// The methods of requests that the server knows.
#[derive(Clone, Copy, Debug, PartialEq, Eq, Structural)]
pub enum RequestKind {
    Completion,
    Hover,
    Other,
}

/// A request. Where its parameters could not be read, it holds the reason.
pub enum Request {
    Completion(Result<TextPosition, String>),
    Hover(Result<TextPosition, String>),
    Other,
}

/// The methods of notifications that the server knows.
#[derive(Clone, Copy, Debug, PartialEq, Eq, Structural)]
pub enum NotificationKind {
    Initialized,
    DidOpen,
    DidChange,
    DidClose,
    Other,
}

/// A notification.
pub enum Notification {
    DidOpen { uri: String, text: String },
    /// Each change holds the whole new text.
    DidChange { uri: String, changes: Vec<String> },
    DidClose { uri: String },
    /// One that changes nothing, or whose parameters could not be read.
    Ignored,
}

/// What an answer of the registry is wanted for.
pub enum Query {
    /// Package names that match a search.
    PackageNames,
    /// Versions that begin with the partial one, which stands in the line from
    /// byte `start` up to byte `end`.
    Versions { partial: String, line: u32, start: u32, end: u32 },
    /// The text about a package.
    PackageInfo { pkg: String },
    /// The text about the versions of a package.
    VersionList { pkg: String },
}

/// What the server sends back.
pub enum Reply {
    Completions(Vec<CompletionItem>),
    /// A list that changes with every key and has to be asked for again.
    IncompleteCompletions(Vec<CompletionItem>),
    Hover(Option<Hover>),
    Error { code: i32, message: String },
}

/// What comes next in the handling of a request.
pub enum Step {
    Reply(Reply),
    /// Fetch the address and answer the query from what it gives.
    Fetch { url: String, query: Query },
}

/// A `Query` over characters.
pub enum QueryView {
    PackageNames,
    Versions { partial: Seq<char>, line: u32, start: u32, end: u32 },
    PackageInfo { pkg: Seq<char> },
    VersionList { pkg: Seq<char> },
}

/// A `Reply` over characters.
pub enum ReplyView {
    Completions(Seq<ItemView>),
    IncompleteCompletions(Seq<ItemView>),
    Hover(Option<Seq<char>>),
    Error { code: i32, message: Seq<char> },
}

/// A `Step` over characters.
pub enum StepView {
    Reply(ReplyView),
    Fetch { url: Seq<char>, query: QueryView },
}

impl View for Query {
    type V = QueryView;

    open spec fn view(&self) -> QueryView {
        match self {
            Query::PackageNames => QueryView::PackageNames,
            Query::Versions { partial, line, start, end } => QueryView::Versions {
                partial: partial@,
                line: *line,
                start: *start,
                end: *end,
            },
            Query::PackageInfo { pkg } => QueryView::PackageInfo { pkg: pkg@ },
            Query::VersionList { pkg } => QueryView::VersionList { pkg: pkg@ },
        }
    }
}

impl View for Reply {
    type V = ReplyView;

    open spec fn view(&self) -> ReplyView {
        match self {
            Reply::Completions(items) => ReplyView::Completions(item_views(items@)),
            Reply::IncompleteCompletions(items) => ReplyView::IncompleteCompletions(
                item_views(items@),
            ),
            Reply::Hover(hover) => ReplyView::Hover(
                match hover {
                    Some(h) => Some(h.value@),
                    None => None,
                },
            ),
            Reply::Error { code, message } => ReplyView::Error { code: *code, message: message@ },
        }
    }
}

impl View for Step {
    type V = StepView;

    open spec fn view(&self) -> StepView {
        match self {
            Step::Reply(reply) => StepView::Reply(reply@),
            Step::Fetch { url, query } => StepView::Fetch { url: url@, query: query@ },
        }
    }
}

/// The address of a package in the registry.
pub open spec fn package_address(pkg: Seq<char>) -> Seq<char> {
    HEX_API_BASE@ + "/packages/"@ + pkg
}

/// The address of a search for packages, the most downloaded ones first.
pub open spec fn search_address(partial: Seq<char>) -> Seq<char> {
    if partial.len() == 0 {
        HEX_API_BASE@ + "/packages?sort=downloads&page=1"@
    } else {
        HEX_API_BASE@ + "/packages?search="@ + partial + "&sort=downloads&page=1"@
    }
}

/// Where the query or the fragment of an address begins, or its end where it
/// has neither.
pub open spec fn path_end(uri: Seq<char>) -> int {
    if find_char(uri, '?', 0) < find_char(uri, '#', 0) {
        find_char(uri, '?', 0)
    } else {
        find_char(uri, '#', 0)
    }
}

/// The address is that of a file named `mix.exs`, whatever query or fragment
/// follows.
pub open spec fn is_mix_file(uri: Seq<char>) -> bool {
    let path = uri.take(path_end(uri));
    path == MIX_FILE@ || ("/"@ + MIX_FILE@).is_suffix_of(path) || (":"@
        + MIX_FILE@).is_suffix_of(path)
}

/// The line under the cursor, in a document that the server serves.
pub open spec fn served_line(s: StateView, uri: Seq<char>, line: u32) -> Option<Seq<char>> {
    if is_mix_file(uri) && s.documents.contains_key(uri) {
        shown_line(s.documents[uri], line as nat)
    } else {
        None
    }
}

/// What to do for completions at a cursor.
pub open spec fn completion_step(
    s: StateView,
    uri: Seq<char>,
    line: u32,
    character: u32,
) -> StepView {
    let nothing = StepView::Reply(ReplyView::Completions(Seq::empty()));
    match served_line(s, uri, line) {
        Some(text) => {
            let before = text.take(cursor_index(text, character as int));
            match context_of(before) {
                Some(ContextView::PackageName(partial)) => StepView::Fetch {
                    url: search_address(partial),
                    query: QueryView::PackageNames,
                },
                Some(ContextView::Version(pkg, partial)) => StepView::Fetch {
                    url: package_address(pkg),
                    query: QueryView::Versions {
                        partial,
                        line,
                        start: (encode_utf8(before).len() - encode_utf8(partial).len()) as u32,
                        end: encode_utf8(before).len() as u32,
                    },
                },
                None => nothing,
            }
        },
        None => nothing,
    }
}

/// What to do for the text at a cursor. The package name goes before the
/// version.
pub open spec fn hover_step(s: StateView, uri: Seq<char>, line: u32, character: u32) -> StepView {
    let nothing = StepView::Reply(ReplyView::Hover(None));
    match served_line(s, uri, line) {
        Some(text) => {
            let column = byte_offset(text, cursor_index(text, character as int));
            match name_under(text, 0, column) {
                Some(pkg) => StepView::Fetch {
                    url: package_address(pkg),
                    query: QueryView::PackageInfo { pkg },
                },
                None => match version_under(text, 0, column) {
                    Some(pkg) => StepView::Fetch {
                        url: package_address(pkg),
                        query: QueryView::VersionList { pkg },
                    },
                    None => nothing,
                },
            }
        },
        None => nothing,
    }
}

/// What to do for a request.
pub open spec fn request_step(s: StateView, request: Request) -> StepView {
    match request {
        Request::Completion(Ok(at)) => completion_step(s, at.uri@, at.line, at.character),
        Request::Hover(Ok(at)) => hover_step(s, at.uri@, at.line, at.character),
        Request::Completion(Err(reason)) | Request::Hover(Err(reason)) => StepView::Reply(
            ReplyView::Error { code: INVALID_PARAMS, message: "Invalid params: "@ + reason@ },
        ),
        Request::Other => StepView::Reply(
            ReplyView::Error { code: METHOD_NOT_FOUND, message: "Method not found"@ },
        ),
    }
}

/// What a query is answered with, given what the registry gave.
pub open spec fn answer_to(query: QueryView, data: Option<Json>) -> ReplyView {
    match query {
        QueryView::PackageNames => ReplyView::Completions(package_completions(data)),
        QueryView::Versions { partial, line, start, end } => ReplyView::IncompleteCompletions(
            narrowed(version_completions(data), partial, line, start, end),
        ),
        QueryView::PackageInfo { pkg } => ReplyView::Hover(
            match data {
                Some(d) => Some(package_markdown(pkg, d)),
                None => None,
            },
        ),
        QueryView::VersionList { pkg } => ReplyView::Hover(
            match data {
                Some(d) => versions_markdown(pkg, d),
                None => None,
            },
        ),
    }
}

/// The documents after a notification.
pub open spec fn documents_after(
    documents: Map<Seq<char>, Seq<char>>,
    n: Notification,
) -> Map<Seq<char>, Seq<char>> {
    match n {
        Notification::DidOpen { uri, text } => documents.insert(uri@, text@),
        Notification::DidChange { uri, changes } => if changes@.len() > 0 {
            documents.insert(uri@, changes@.last()@)
        } else {
            documents
        },
        Notification::DidClose { uri } => documents.remove(uri@),
        Notification::Ignored => documents,
    }
}

/// The packages to fetch ahead after a notification.
pub open spec fn prefetch_after(n: Notification) -> Seq<Seq<char>> {
    match n {
        Notification::DidOpen { uri, text } => if is_mix_file(uri@) {
            prefetched(text@)
        } else {
            Seq::empty()
        },
        _ => Seq::empty(),
    }
}

/// What a method asks for.
pub open spec fn request_kind_of(method: Seq<char>) -> RequestKind {
    if method == "textDocument/completion"@ {
        RequestKind::Completion
    } else if method == "textDocument/hover"@ {
        RequestKind::Hover
    } else {
        RequestKind::Other
    }
}

/// What a method tells.
pub open spec fn notification_kind_of(method: Seq<char>) -> NotificationKind {
    if method == "initialized"@ {
        NotificationKind::Initialized
    } else if method == "textDocument/didOpen"@ {
        NotificationKind::DidOpen
    } else if method == "textDocument/didChange"@ {
        NotificationKind::DidChange
    } else if method == "textDocument/didClose"@ {
        NotificationKind::DidClose
    } else {
        NotificationKind::Other
    }
}

/// What a request's method asks for.
pub fn request_kind(method: &str) -> (r: RequestKind)
    ensures
        r == request_kind_of(method@),
{
    if same_text(method, "textDocument/completion") {
        RequestKind::Completion
    } else if same_text(method, "textDocument/hover") {
        RequestKind::Hover
    } else {
        RequestKind::Other
    }
}

/// What a notification's method tells.
pub fn notification_kind(method: &str) -> (r: NotificationKind)
    ensures
        r == notification_kind_of(method@),
{
    if same_text(method, "initialized") {
        NotificationKind::Initialized
    } else if same_text(method, "textDocument/didOpen") {
        NotificationKind::DidOpen
    } else if same_text(method, "textDocument/didChange") {
        NotificationKind::DidChange
    } else if same_text(method, "textDocument/didClose") {
        NotificationKind::DidClose
    } else {
        NotificationKind::Other
    }
}

/// The address of a package in the registry.
pub fn package_url(pkg: &str) -> (r: String)
    ensures
        r@ == package_address(pkg@),
{
    cat3(HEX_API_BASE, "/packages/", pkg)
}

/// The address of a search for packages.
pub fn search_url(partial: &str) -> (r: String)
    ensures
        r@ == search_address(partial@),
{
    if partial.is_empty() {
        cat(HEX_API_BASE, "/packages?sort=downloads&page=1")
    } else {
        let mut url: String = cat3(HEX_API_BASE, "/packages?search=", partial);
        url.append("&sort=downloads&page=1");
        url
    }
}

/// Whether an address is that of a file named `mix.exs`.
pub fn names_mix_file(uri: &str) -> (r: bool)
    ensures
        r == is_mix_file(uri@),
{
    let t: Vec<char> = chars_of(uri);
    let query: usize = find(&t, '?', 0);
    let fragment: usize = find(&t, '#', 0);
    let end: usize = if query < fragment {
        query
    } else {
        fragment
    };
    let path: &str = uri.substring_char(0, end);
    assert(path@ =~= uri@.take(path_end(uri@)));
    same_text(path, MIX_FILE) || ends_with(path, cat("/", MIX_FILE).as_str()) || ends_with(
        path,
        cat(":", MIX_FILE).as_str(),
    )
}

/// The line under the cursor, in a document that the server serves.
fn current_line<'a>(state: &'a ServerState, uri: &str, line: u32) -> (r: Option<&'a str>)
    ensures
        match r {
            Some(text) => served_line(state@, uri@, line) == Some(text@),
            None => served_line(state@, uri@, line) is None,
        },
{
    if !names_mix_file(uri) {
        return None;
    }
    match state.document(uri) {
        Some(content) => line_at(content, line as usize),
        None => None,
    }
}

/// No completions at all.
fn no_completions() -> (r: Step)
    ensures
        r@ == StepView::Reply(ReplyView::Completions(Seq::empty())),
{
    let items: Vec<CompletionItem> = Vec::new();
    assert(item_views(items@) =~= Seq::<ItemView>::empty());
    Step::Reply(Reply::Completions(items))
}

/// What to do for completions at a cursor: only in a `mix.exs` file, and only
/// where a package name or a version is being typed.
pub fn compute_completions(state: &ServerState, at: &TextPosition) -> (r: Step)
    ensures
        r@ == completion_step(state@, at.uri@, at.line, at.character),
{
    let text: &str = match current_line(state, at.uri.as_str(), at.line) {
        Some(text) => text,
        None => {
            return no_completions();
        },
    };
    let before: &str = text_before(text, at.character as usize);
    match detect_context(before) {
        Some(CompletionContext::PackageName(partial)) => Step::Fetch {
            url: search_url(partial.as_str()),
            query: Query::PackageNames,
        },
        Some(CompletionContext::Version(pkg, partial)) => {
            let end: usize = before.as_bytes().len();
            let typed: usize = partial.as_str().as_bytes().len();
            proof {
                lemma_cursor_index(text@, at.character as int);
                law_context_ends_the_text(before@);
                lemma_byte_len_add(before@.take(before@.len() - partial@.len()), partial@);
            }
            Step::Fetch {
                url: package_url(pkg.as_str()),
                query: Query::Versions {
                    partial,
                    line: at.line,
                    start: (end - typed) as u32,
                    end: end as u32,
                },
            }
        },
        None => no_completions(),
    }
}

/// What to do for the text at a cursor: only in a `mix.exs` file, and only on
/// a package name or on a quoted version.
pub fn compute_hover(state: &ServerState, at: &TextPosition) -> (r: Step)
    ensures
        r@ == hover_step(state@, at.uri@, at.line, at.character),
{
    let text: &str = match current_line(state, at.uri.as_str(), at.line) {
        Some(text) => text,
        None => {
            return Step::Reply(Reply::Hover(None));
        },
    };
    let column: usize = clamp_column(text, at.character as usize);
    match package_name_at_cursor(text, column) {
        Some(pkg) => {
            return Step::Fetch { url: package_url(pkg.as_str()), query: Query::PackageInfo { pkg } };
        },
        None => {},
    }
    match version_pkg_at_cursor(text, column) {
        Some(pkg) => Step::Fetch {
            url: package_url(pkg.as_str()),
            query: Query::VersionList { pkg },
        },
        None => Step::Reply(Reply::Hover(None)),
    }
}

/// What to do for a request.
pub fn handle_request(state: &ServerState, request: &Request) -> (r: Step)
    ensures
        r@ == request_step(state@, *request),
{
    match request {
        Request::Completion(Ok(at)) => compute_completions(state, at),
        Request::Hover(Ok(at)) => compute_hover(state, at),
        Request::Completion(Err(reason)) | Request::Hover(Err(reason)) => Step::Reply(
            Reply::Error {
                code: INVALID_PARAMS,
                message: cat("Invalid params: ", reason.as_str()),
            },
        ),
        Request::Other => Step::Reply(
            Reply::Error { code: METHOD_NOT_FOUND, message: "Method not found".to_owned() },
        ),
    }
}

/// Answers a query from what the registry gave, or from nothing where it gave
/// no answer.
pub fn answer(query: &Query, data: Option<&Json>) -> (r: Reply)
    ensures
        r@ == answer_to(query@, found(data)),
{
    match query {
        Query::PackageNames => Reply::Completions(complete_package_names(data)),
        Query::Versions { partial, line, start, end } => {
            let items: Vec<CompletionItem> = complete_versions(data);
            Reply::IncompleteCompletions(narrow(&items, partial.as_str(), *line, *start, *end))
        },
        Query::PackageInfo { pkg } => Reply::Hover(hover_package_info(pkg.as_str(), data)),
        Query::VersionList { pkg } => Reply::Hover(hover_version_list(pkg.as_str(), data)),
    }
}

/// Answers a query from the cache, if that has a good answer for the address.
/// Otherwise the address has to be fetched.
pub fn answer_cached(state: &ServerState, url: &str, query: &Query, now: u128) -> (r: Option<Reply>)
    ensures
        match fresh(state@.cache, url@, now) {
            Some(data) => r is Some && r.unwrap()@ == answer_to(query@, Some(data)),
            None => r is None,
        },
{
    match state.get_cached(url, now) {
        Some(data) => Some(answer(query, Some(data))),
        None => None,
    }
}

/// Answers a query from what a fetch gave. What came is remembered; a failed
/// fetch, `None`, leaves the cache alone.
pub fn answer_fetched(
    state: &mut ServerState,
    url: String,
    query: &Query,
    data: Option<Json>,
    now: u128,
) -> (r: Reply)
    ensures
        r@ == answer_to(query@, data),
        final(state)@.documents == old(state)@.documents,
        final(state)@.cache == after_fetch(
            old(state)@.cache,
            (Fetched { url: url@, data, at: now }),
        ),
{
    match data {
        Some(d) => {
            let reply: Reply = answer(query, Some(&d));
            state.insert_cache(url, d, now);
            reply
        },
        None => answer(query, None),
    }
}

/// Takes note of a notification and gives the packages to fetch ahead.
pub fn handle_notification(state: &mut ServerState, n: Notification) -> (r: Vec<String>)
    ensures
        final(state)@.cache == old(state)@.cache,
        final(state)@.documents == documents_after(old(state)@.documents, n),
        texts(r@) == prefetch_after(n),
{
    let mut packages: Vec<String> = Vec::new();
    assert(texts(packages@) =~= Seq::<Seq<char>>::empty());
    match n {
        Notification::DidOpen { uri, text } => {
            if names_mix_file(uri.as_str()) {
                packages = prefetch_packages(text.as_str());
            }
            state.set_document(uri, text);
        },
        Notification::DidChange { uri, changes } => {
            if changes.len() > 0 {
                let text: String = changes[changes.len() - 1].clone();
                state.set_document(uri, text);
            }
        },
        Notification::DidClose { uri } => {
            state.remove_document(uri.as_str());
        },
        Notification::Ignored => {},
    }
    packages
}

/// Whether a package has to be fetched ahead: not if the cache has a good
/// answer about it.
pub fn needs_prefetch(state: &ServerState, pkg: &str, now: u128) -> (r: bool)
    ensures
        r == (fresh(state@.cache, package_address(pkg@), now) is None),
{
    state.get_cached(package_url(pkg).as_str(), now).is_none()
}

/// Takes in what came of fetching a package ahead. A failed fetch, `None`,
/// leaves the cache alone.
pub fn store_prefetched(state: &mut ServerState, pkg: &str, data: Option<Json>, now: u128)
    ensures
        final(state)@.documents == old(state)@.documents,
        final(state)@.cache == after_fetch(
            old(state)@.cache,
            (Fetched { url: package_address(pkg@), data, at: now }),
        ),
{
    match data {
        Some(d) => {
            state.insert_cache(package_url(pkg), d, now);
        },
        None => {},
    }
}

/// What happens to one package while the packages of a document are fetched
/// ahead: when it is its turn, and what comes of the fetch if there is one.
pub struct Turn {
    pub asked_at: u128,
    pub data: Option<Json>,
    pub stored_at: u128,
}

/// The cache after the packages were fetched ahead, one after the other. A
/// package that the cache has a good answer about is passed over.
pub open spec fn after_prefetch(
    cache: Map<Seq<char>, CacheEntry>,
    packages: Seq<Seq<char>>,
    turns: Seq<Turn>,
) -> Map<Seq<char>, CacheEntry>
    decreases packages.len(),
{
    if packages.len() == 0 {
        cache
    } else {
        let before = after_prefetch(cache, packages.drop_last(), turns.drop_last());
        let url = package_address(packages.last());
        let turn = turns.last();
        if fresh(before, url, turn.asked_at) is Some {
            before
        } else {
            after_fetch(before, Fetched { url, data: turn.data, at: turn.stored_at })
        }
    }
}

/// Two packages have two addresses.
pub proof fn law_packages_have_their_own_addresses(a: Seq<char>, b: Seq<char>)
    ensures
        package_address(a) == package_address(b) <==> a == b,
{
    let n = (HEX_API_BASE@ + "/packages/"@).len() as int;
    assert(package_address(a).skip(n) =~= a);
    assert(package_address(b).skip(n) =~= b);
}

/// What the cache holds once the packages of a document have been fetched
/// ahead. For each package it holds the answer that came, with the time at which
/// it came, unless it had a good answer already or the fetch failed: then it
/// holds what it held before, and the other packages are fetched all the same.
/// All other addresses keep what they had.
pub proof fn law_prefetch_fills_the_cache(
    cache: Map<Seq<char>, CacheEntry>,
    packages: Seq<Seq<char>>,
    turns: Seq<Turn>,
)
    requires
        packages.no_duplicates(),
        turns.len() == packages.len(),
    ensures
        forall|k: int|
            0 <= k < packages.len() ==> {
                let url = package_address(#[trigger] packages[k]);
                let after = after_prefetch(cache, packages, turns);
                if fresh(cache, url, turns[k].asked_at) is None && turns[k].data is Some {
                    after.contains_key(url) && after[url] == (CacheEntry {
                        stored_at: turns[k].stored_at,
                        value: turns[k].data.unwrap(),
                    })
                } else {
                    after.contains_key(url) == cache.contains_key(url) && (cache.contains_key(url)
                        ==> after[url] == cache[url])
                }
            },
        forall|url: Seq<char>|
            (forall|k: int| 0 <= k < packages.len() ==> url != package_address(#[trigger] packages[k]))
                ==> {
                &&& #[trigger] after_prefetch(cache, packages, turns).contains_key(url)
                    == cache.contains_key(url)
                &&& cache.contains_key(url) ==> after_prefetch(cache, packages, turns)[url]
                    == cache[url]
            },
    decreases packages.len(),
{
    if packages.len() > 0 {
        let front = packages.drop_last();
        let last = packages[packages.len() - 1];
        let after = after_prefetch(cache, packages, turns);
        let before = after_prefetch(cache, front, turns.drop_last());
        law_prefetch_fills_the_cache(cache, front, turns.drop_last());
        assert forall|k: int| 0 <= k < front.len() implies package_address(#[trigger] front[k])
            != package_address(last) by {
            law_packages_have_their_own_addresses(front[k], last);
            assert(packages[k] != packages[packages.len() - 1]);
        }
        let url = package_address(last);
        assert(before.contains_key(url) == cache.contains_key(url));
        assert forall|k: int| 0 <= k < packages.len() implies {
            let url = package_address(#[trigger] packages[k]);
            if fresh(cache, url, turns[k].asked_at) is None && turns[k].data is Some {
                after.contains_key(url) && after[url] == (CacheEntry {
                    stored_at: turns[k].stored_at,
                    value: turns[k].data.unwrap(),
                })
            } else {
                after.contains_key(url) == cache.contains_key(url) && (cache.contains_key(url)
                    ==> after[url] == cache[url])
            }
        } by {
            if k < front.len() {
                assert(front[k] == packages[k]);
                assert(turns.drop_last()[k] == turns[k]);
            }
        }
        assert forall|url: Seq<char>|
            (forall|k: int|
                0 <= k < packages.len() ==> url != package_address(#[trigger] packages[k])) implies {
            &&& #[trigger] after_prefetch(cache, packages, turns).contains_key(url)
                == cache.contains_key(url)
            &&& cache.contains_key(url) ==> after_prefetch(cache, packages, turns)[url]
                == cache[url]
        } by {
            assert forall|k: int| 0 <= k < front.len() implies url != package_address(
                #[trigger] front[k],
            ) by {
                assert(front[k] == packages[k]);
            }
            assert(url != package_address(packages[packages.len() - 1]));
            assert(before.contains_key(url) == cache.contains_key(url));
        }
    }
}

/// Files not named `mix.exs` are left alone: no completions, no texts, nothing
/// fetched ahead.
pub proof fn law_other_files_are_left_alone(
    s: StateView,
    uri: Seq<char>,
    line: u32,
    character: u32,
    n: Notification,
)
    requires
        !is_mix_file(uri),
    ensures
        completion_step(s, uri, line, character) == StepView::Reply(
            ReplyView::Completions(Seq::empty()),
        ),
        hover_step(s, uri, line, character) == StepView::Reply(ReplyView::Hover(None)),
        (n matches Notification::DidOpen { uri: opened, .. } && opened@ == uri) ==> prefetch_after(
            n,
        ).len() == 0,
{
}

/// A document that is not open gets neither completions nor texts.
pub proof fn law_closed_documents_get_nothing(
    s: StateView,
    uri: Seq<char>,
    line: u32,
    character: u32,
)
    requires
        !s.documents.contains_key(uri),
    ensures
        completion_step(s, uri, line, character) == StepView::Reply(
            ReplyView::Completions(Seq::empty()),
        ),
        hover_step(s, uri, line, character) == StepView::Reply(ReplyView::Hover(None)),
{
}

/// The document that a notification is about.
pub open spec fn subject_of(n: Notification) -> Option<Seq<char>> {
    match n {
        Notification::DidOpen { uri, .. } => Some(uri@),
        Notification::DidChange { uri, .. } => Some(uri@),
        Notification::DidClose { uri } => Some(uri@),
        Notification::Ignored => None,
    }
}

/// A notification concerns one document and no other. After it was opened its
/// text is the one it was opened with, after a change the last one sent, and
/// after it was closed it is forgotten.
pub proof fn law_notifications_concern_one_document(
    documents: Map<Seq<char>, Seq<char>>,
    n: Notification,
    other: Seq<char>,
)
    ensures
        subject_of(n) != Some(other) ==> {
            &&& documents_after(documents, n).contains_key(other) == documents.contains_key(other)
            &&& documents.contains_key(other) ==> documents_after(documents, n)[other]
                == documents[other]
        },
        n matches Notification::DidOpen { uri, text } ==> documents_after(documents, n).contains_key(
            uri@,
        ) && documents_after(documents, n)[uri@] == text@,
        n matches Notification::DidChange { uri, changes } ==> changes@.len() > 0
            ==> documents_after(documents, n).contains_key(uri@) && documents_after(
            documents,
            n,
        )[uri@] == changes@.last()@,
        n matches Notification::DidClose { uri } ==> !documents_after(documents, n).contains_key(
            uri@,
        ),
{
}

/// A document that was opened and closed again is as if it had never been
/// open.
pub proof fn law_open_then_close(
    documents: Map<Seq<char>, Seq<char>>,
    opened: Notification,
    closed: Notification,
)
    requires
        opened is DidOpen,
        closed is DidClose,
        subject_of(opened) == subject_of(closed),
        !documents.contains_key(subject_of(opened).unwrap()),
    ensures
        documents_after(documents_after(documents, opened), closed) == documents,
{
    assert(documents_after(documents_after(documents, opened), closed) =~= documents);
}

/// A request is answered with an error if and only if its method is unknown or
/// its parameters cannot be read. No query is.
pub proof fn law_errors_are_for_bad_requests(
    s: StateView,
    request: Request,
    query: QueryView,
    data: Option<Json>,
)
    ensures
        (request_step(s, request) matches StepView::Reply(ReplyView::Error { code, .. }) && code
            == METHOD_NOT_FOUND) <==> request is Other,
        (request_step(s, request) matches StepView::Reply(ReplyView::Error { code, .. }) && code
            == INVALID_PARAMS) <==> (request matches Request::Completion(Err(_))
            || request matches Request::Hover(Err(_))),
        !(answer_to(query, data) is Error),
{
}

/// A version completion replaces exactly the partial version: the edit reaches
/// from behind the opening quote to the cursor.
pub proof fn law_version_edit_covers_the_partial(
    s: StateView,
    uri: Seq<char>,
    at: u32,
    character: u32,
)
    ensures
        completion_step(s, uri, at, character) matches StepView::Fetch {
            query: QueryView::Versions { partial, line, start, end },
            ..
        } ==> {
            &&& line == at
            &&& served_line(s, uri, at) matches Some(text) && {
                let k = cursor_index(text, character as int);
                let a = k - partial.len();
                &&& 0 < a <= k <= text.len()
                &&& text[a - 1] == '"'
                &&& text.subrange(a, k) == partial
                &&& start == byte_offset(text, a)
                &&& end == byte_offset(text, k)
                &&& end <= character
            }
        },
{
    match served_line(s, uri, at) {
        Some(text) => {
            let k = cursor_index(text, character as int);
            let before = text.take(k);
            lemma_cursor_index(text, character as int);
            law_context_ends_the_text(before);
            match context_of(before) {
                Some(ContextView::Version(pkg, partial)) => {
                    let a = k - partial.len();
                    lemma_byte_len_add(before.take(a), partial);
                    assert(before.take(a) =~= text.take(a));
                    let whole = before.take(a) + partial;
                    assert forall|i: int| 0 <= i < partial.len() implies text[a + i]
                        == #[trigger] partial[i] by {
                        assert(whole[a + i] == partial[i]);
                    }
                    assert(text.subrange(a, k) =~= partial);
                },
                _ => {},
            }
        },
        None => {},
    }
}

/// An answer that was fetched is given again, for five minutes, without another
/// fetch.
pub proof fn law_fetched_answers_are_given_again(
    cache: Map<Seq<char>, CacheEntry>,
    url: Seq<char>,
    query: QueryView,
    data: Json,
    fetched_at: u128,
    now: u128,
)
    requires
        age(fetched_at, now) < CACHE_TTL,
    ensures
        ({
            let after = cache.insert(url, CacheEntry { stored_at: fetched_at, value: data });
            fresh(after, url, now) matches Some(d) && answer_to(query, Some(d)) == answer_to(
                query,
                Some(data),
            )
        }),
{
}

/// What a hover asks about is a package that the document mentions. So right
/// after a document was opened, unless it mentions more packages than are
/// fetched ahead, a hover asks for nothing but what is fetched ahead.
pub proof fn law_hovers_ask_for_what_is_prefetched(
    s: StateView,
    n: Notification,
    line: u32,
    character: u32,
)
    requires
        n is DidOpen,
    ensures
        n matches Notification::DidOpen { uri, text } ==> {
            let after = StateView { documents: documents_after(s.documents, n), ..s };
            hover_step(after, uri@, line, character) matches StepView::Fetch { url, query } ==> {
                exists|pkg: Seq<char>| #[trigger]
                    names_from(text@, 0).contains(pkg) && url == package_address(pkg) && (query
                        == QueryView::PackageInfo { pkg } || query == QueryView::VersionList { pkg })
                        && (distinct(names_from(text@, 0)).len() <= PREFETCH_LIMIT
                        ==> prefetch_after(n).contains(pkg))
            }
        },
{
    match n {
        Notification::DidOpen { uri, text } => {
            let after = StateView { documents: documents_after(s.documents, n), ..s };
            match served_line(after, uri@, line) {
                Some(shown) => {
                    let a = lemma_shown_line_place(text@, line as nat);
                    let column = byte_offset(shown, cursor_index(shown, character as int));
                    lemma_hovered_is_mentioned(text@, a, a + shown.len(), column);
                    law_prefetch_is_bounded_and_distinct(text@);
                },
                None => {},
            }
        },
        _ => {},
    }
}

/// Once the packages of an opened document have been fetched ahead, a hover in
/// it is answered from the cache, without a request, as long as the answers are
/// good. This holds unless the document mentions more packages than are fetched
/// ahead.
pub proof fn law_hovers_are_answered_from_the_cache(
    s: StateView,
    n: Notification,
    turns: Seq<Turn>,
    line: u32,
    character: u32,
    now: u128,
)
    requires
        n is DidOpen,
        distinct(names_from(n->text@, 0)).len() <= PREFETCH_LIMIT,
        turns.len() == prefetch_after(n).len(),
        forall|k: int|
            0 <= k < turns.len() ==> {
                let url = package_address(prefetch_after(n)[k]);
                if fresh(s.cache, url, (#[trigger] turns[k]).asked_at) is Some {
                    fresh(s.cache, url, now) is Some
                } else {
                    turns[k].data is Some && age(turns[k].stored_at, now) < CACHE_TTL
                }
            },
    ensures
        ({
            let after = StateView {
                documents: documents_after(s.documents, n),
                cache: after_prefetch(s.cache, prefetch_after(n), turns),
            };
            hover_step(after, n->DidOpen_uri@, line, character) matches StepView::Fetch { url, .. }
                ==> fresh(after.cache, url, now) is Some
        }),
{
    let packages = prefetch_after(n);
    let cache = after_prefetch(s.cache, packages, turns);
    let after = StateView { documents: documents_after(s.documents, n), cache };
    law_prefetch_is_bounded_and_distinct(n->text@);
    law_prefetch_fills_the_cache(s.cache, packages, turns);
    law_hovers_ask_for_what_is_prefetched(after, n, line, character);
    let documents = documents_after(after.documents, n);
    assert(documents =~= after.documents);
    match hover_step(after, n->DidOpen_uri@, line, character) {
        StepView::Fetch { url, query } => {
            let pkg = choose|pkg: Seq<char>| #[trigger]
                names_from(n->text@, 0).contains(pkg) && url == package_address(pkg)
                    && packages.contains(pkg);
            let k = choose|k: int| 0 <= k < packages.len() && packages[k] == pkg;
            assert(turns[k] == turns[k]);
            assert(package_address(packages[k]) == url);
        },
        _ => {},
    }
}

} // verus!
