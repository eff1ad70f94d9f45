//! Which requests are served, from which addresses, and what is remembered.

use crate::deps::{context_of, name_under, prefetched, version_under, ContextView};
use crate::server::{
    completion_step, documents_after, hover_step, is_mix_file, notification_kind_of, package_address, path_end, prefetch_after,
    request_kind_of, request_step, search_address, Notification, NotificationKind, QueryView,
    ReplyView, Request, RequestKind, StepView, TextPosition, HEX_API_BASE, MIX_FILE,
};
use crate::state::{fresh, CacheEntry, StateView};
use crate::text::{cursor_index, lemma_find_char, shown_line};
use vstd::prelude::*;
use vstd::string::*;
use vstd::utf8::*;

verus! {

/// The address consists of `front`, the name `mix.exs` and `tail`. The name is
/// a whole one, and what follows is a query or a fragment, if anything.
pub open spec fn names_mix(uri: Seq<char>, front: Seq<char>, tail: Seq<char>) -> bool {
    &&& uri == front + "mix.exs"@ + tail
    &&& !front.contains('?') && !front.contains('#')
    &&& front.len() == 0 || front.last() == '/' || front.last() == ':'
    &&& tail.len() == 0 || tail[0] == '?' || tail[0] == '#'
}

/// A file is served if and only if its name is `mix.exs`.
pub proof fn law_exactly_mix_files_are_served(uri: Seq<char>)
    ensures
        is_mix_file(uri) <==> exists|front: Seq<char>, tail: Seq<char>|
            names_mix(uri, front, tail),
{
    reveal_strlit("mix.exs");
    reveal_strlit("/");
    reveal_strlit(":");
    if is_mix_file(uri) {
        lemma_find_char(uri, '?', 0);
        lemma_find_char(uri, '#', 0);
        let e = path_end(uri);
        let path = uri.take(e);
        let front = path.take(path.len() - 7);
        let tail = uri.skip(e);
        let slash = "/"@ + MIX_FILE@;
        let colon = ":"@ + MIX_FILE@;
        if slash.is_suffix_of(path) {
            assert(path.skip(path.len() - 8) =~= slash);
            assert(slash[0] == '/');
            assert(path[path.len() - 8] == slash[0]);
        } else if colon.is_suffix_of(path) {
            assert(path.skip(path.len() - 8) =~= colon);
            assert(path[path.len() - 8] == colon[0]);
        }
        assert forall|i: int| 0 <= i < 7 implies path[path.len() - 7 + i] == "mix.exs"@[i] by {
            if slash.is_suffix_of(path) {
                assert(path.skip(path.len() - 8)[i + 1] == slash[i + 1]);
            } else if colon.is_suffix_of(path) {
                assert(path.skip(path.len() - 8)[i + 1] == colon[i + 1]);
            }
        }
        assert(uri =~= front + "mix.exs"@ + tail);
        if front.contains('?') {
            let i = choose|i: int| 0 <= i < front.len() && front[i] == '?';
            assert(uri[i] == '?');
        }
        if front.contains('#') {
            let i = choose|i: int| 0 <= i < front.len() && front[i] == '#';
            assert(uri[i] == '#');
        }
        assert(names_mix(uri, front, tail));
    }
    if exists|front: Seq<char>, tail: Seq<char>| names_mix(uri, front, tail) {
        let (front, tail) = choose|front: Seq<char>, tail: Seq<char>| names_mix(uri, front, tail);
        let e = front.len() + 7;
        assert forall|i: int| 0 <= i < e implies uri[i] != '?' && uri[i] != '#' by {
            if i < front.len() {
                assert(uri[i] == front[i]);
                assert(front.contains(front[i]));
            } else {
                assert(uri[i] == "mix.exs"@[i - front.len()]);
            }
        }
        lemma_find_char(uri, '?', 0);
        lemma_find_char(uri, '#', 0);
        if tail.len() > 0 {
            assert(uri[e as int] == tail[0]);
        }
        assert(path_end(uri) == e);
        let path = uri.take(e as int);
        assert(path =~= front + "mix.exs"@);
        if front.len() == 0 {
            assert(path =~= MIX_FILE@);
        } else if front.last() == '/' {
            assert(path.subrange(path.len() - 8, path.len() as int) =~= "/"@ + MIX_FILE@);
        } else {
            assert(path.subrange(path.len() - 8, path.len() as int) =~= ":"@ + MIX_FILE@);
        }
    }
}

/// The addresses that are fetched: a package has its own, and a search asks for
/// the most downloaded packages first.
pub proof fn law_addresses_are_those_of_the_registry(name: Seq<char>)
    ensures
        package_address(name) == "https://hex.pm/api/packages/"@ + name,
        search_address(Seq::empty()) == "https://hex.pm/api/packages?sort=downloads&page=1"@,
        name.len() > 0 ==> search_address(name) == "https://hex.pm/api/packages?search="@ + name
            + "&sort=downloads&page=1"@,
{
    reveal_strlit("https://hex.pm/api");
    reveal_strlit("/packages/");
    reveal_strlit("https://hex.pm/api/packages/");
    reveal_strlit("/packages?sort=downloads&page=1");
    reveal_strlit("https://hex.pm/api/packages?sort=downloads&page=1");
    reveal_strlit("/packages?search=");
    reveal_strlit("https://hex.pm/api/packages?search=");
    assert(HEX_API_BASE@ + "/packages/"@ =~= "https://hex.pm/api/packages/"@);
    assert(HEX_API_BASE@ + "/packages?sort=downloads&page=1"@
        =~= "https://hex.pm/api/packages?sort=downloads&page=1"@);
    assert(HEX_API_BASE@ + "/packages?search="@ =~= "https://hex.pm/api/packages?search="@);
}

/// The line of a served document that a position is in.
pub open spec fn line_under(s: StateView, at: TextPosition) -> Option<Seq<char>> {
    if is_mix_file(at.uri@) && s.documents.contains_key(at.uri@) {
        shown_line(s.documents[at.uri@], at.line as nat)
    } else {
        None
    }
}

/// Completions are asked for from what is typed in front of the cursor: a search
/// for a partial name, the package for a partial version. Where nothing is being
/// typed, or in no line of a served document, there are none.
pub proof fn law_completions_are_for_what_is_typed(
    s: StateView,
    at: TextPosition,
    pkg: Seq<char>,
    partial: Seq<char>,
)
    ensures
        ({
            let step = request_step(s, Request::Completion(Ok(at)));
            let none = StepView::Reply(ReplyView::Completions(Seq::empty()));
            &&& completion_step(s, at.uri@, at.line, at.character) == step
            &&& line_under(s, at) is None ==> step == none
            &&& line_under(s, at) matches Some(line) ==> {
                let before = line.take(cursor_index(line, at.character as int));
                &&& context_of(before) is None ==> step == none
                &&& context_of(before) == Some(ContextView::PackageName(partial)) ==> step == (
                StepView::Fetch {
                    url: search_address(partial),
                    query: QueryView::PackageNames,
                })
                &&& context_of(before) == Some(ContextView::Version(pkg, partial)) ==> step == (
                StepView::Fetch {
                    url: package_address(pkg),
                    query: QueryView::Versions {
                        partial,
                        line: at.line,
                        start: (encode_utf8(before).len() - encode_utf8(partial).len()) as u32,
                        end: encode_utf8(before).len() as u32,
                    },
                })
            }
        }),
{
}

/// A hover asks about the package whose name is under the cursor, and else
/// about the versions of the one whose version is. In any other place there is
/// nothing to show.
pub proof fn law_hovers_are_for_what_is_under_the_cursor(
    s: StateView,
    at: TextPosition,
    pkg: Seq<char>,
)
    ensures
        ({
            let step = request_step(s, Request::Hover(Ok(at)));
            let none = StepView::Reply(ReplyView::Hover(None));
            &&& hover_step(s, at.uri@, at.line, at.character) == step
            &&& line_under(s, at) is None ==> step == none
            &&& line_under(s, at) matches Some(line) ==> {
                let column = encode_utf8(
                    line.take(cursor_index(line, at.character as int)),
                ).len() as int;
                &&& name_under(line, 0, column) == Some(pkg) ==> step == (StepView::Fetch {
                    url: package_address(pkg),
                    query: QueryView::PackageInfo { pkg },
                })
                &&& name_under(line, 0, column) is None && version_under(line, 0, column) == Some(
                    pkg,
                ) ==> step == (StepView::Fetch {
                    url: package_address(pkg),
                    query: QueryView::VersionList { pkg },
                })
                &&& name_under(line, 0, column) is None && version_under(line, 0, column) is None
                    ==> step == none
            }
        }),
{
}

/// Unreadable parameters and unknown methods are answered with their errors.
pub proof fn law_errors_name_their_reason(s: StateView, reason: String)
    ensures
        request_step(s, Request::Completion(Err(reason))) matches StepView::Reply(
            ReplyView::Error { code, message },
        ) && code == -32602 && message == "Invalid params: "@ + reason@,
        request_step(s, Request::Hover(Err(reason))) matches StepView::Reply(
            ReplyView::Error { code, message },
        ) && code == -32602 && message == "Invalid params: "@ + reason@,
        request_step(s, Request::Other) matches StepView::Reply(
            ReplyView::Error { code, message },
        ) && code == -32601 && message == "Method not found"@,
{
}

/// Each method is known by its name alone.
pub proof fn law_methods_are_known_by_name(method: Seq<char>)
    ensures
        request_kind_of(method) == RequestKind::Completion <==> method
            == "textDocument/completion"@,
        request_kind_of(method) == RequestKind::Hover <==> method == "textDocument/hover"@,
        notification_kind_of(method) == NotificationKind::Initialized <==> method
            == "initialized"@,
        notification_kind_of(method) == NotificationKind::DidOpen <==> method
            == "textDocument/didOpen"@,
        notification_kind_of(method) == NotificationKind::DidChange <==> method
            == "textDocument/didChange"@,
        notification_kind_of(method) == NotificationKind::DidClose <==> method
            == "textDocument/didClose"@,
{
    reveal_strlit("textDocument/completion");
    reveal_strlit("textDocument/hover");
    reveal_strlit("initialized");
    reveal_strlit("textDocument/didOpen");
    reveal_strlit("textDocument/didChange");
    reveal_strlit("textDocument/didClose");
    assert("textDocument/hover"@.len() != "textDocument/completion"@.len());
    assert("textDocument/didOpen"@.len() != "textDocument/didChange"@.len());
    assert("textDocument/didOpen"@[16] != "textDocument/didClose"@[16]);
    assert("textDocument/didChange"@.len() != "textDocument/didClose"@.len());
}

/// The documents after each notification: an opened one has its text, a changed
/// one the last text that was sent, and a closed one is gone. A change without a
/// text and any other notification leave all documents as they are. Only the
/// opening of a `mix.exs` has packages fetched ahead.
pub proof fn law_documents_follow_the_notifications(
    documents: Map<Seq<char>, Seq<char>>,
    uri: String,
    text: String,
    changes: Vec<String>,
)
    ensures
        documents_after(documents, Notification::DidOpen { uri, text }) == documents.insert(
            uri@,
            text@,
        ),
        changes@.len() > 0 ==> documents_after(documents, Notification::DidChange { uri, changes })
            == documents.insert(uri@, changes@[changes@.len() - 1]@),
        changes@.len() == 0 ==> documents_after(documents, Notification::DidChange { uri, changes })
            == documents,
        documents_after(documents, Notification::DidClose { uri }) == documents.remove(uri@),
        documents_after(documents, Notification::Ignored) == documents,
        is_mix_file(uri@) ==> prefetch_after(Notification::DidOpen { uri, text }) == prefetched(
            text@,
        ),
        !is_mix_file(uri@) ==> prefetch_after(Notification::DidOpen { uri, text }).len() == 0,
        prefetch_after(Notification::DidChange { uri, changes }).len() == 0,
        prefetch_after(Notification::DidClose { uri }).len() == 0,
        prefetch_after(Notification::Ignored).len() == 0,
{
}

/// An answer is given again while it is less than five minutes old, to the
/// nanosecond, and not from then on. A clock that went backwards does not make
/// it old. Without an answer none is given.
pub proof fn law_answers_are_good_for_five_minutes(
    cache: Map<Seq<char>, CacheEntry>,
    url: Seq<char>,
    now: u128,
)
    ensures
        !cache.contains_key(url) ==> fresh(cache, url, now) is None,
        cache.contains_key(url) && now < cache[url].stored_at + 300_000_000_000 ==> fresh(
            cache,
            url,
            now,
        ) == Some(cache[url].value),
        cache.contains_key(url) && now >= cache[url].stored_at + 300_000_000_000 ==> fresh(
            cache,
            url,
            now,
        ) is None,
{
}

} // verus!
