//! What contracts speak of is what values hold, field by field.

use crate::completion::{item_views, CompletionItem, TextEdit};
use crate::deps::{CompletionContext, ContextView};
use crate::hover::Hover;
use crate::install::{
    asset_views, done_text, opt_text, result_text, Action, ActionView, Asset, Event, EventView,
    HexIntelliSenseExtension, Search, Stage, StageView,
};
use crate::release::{DownloadedFileType, ReleaseDetails};
use crate::server::{Query, QueryView, Reply, ReplyView, Step, StepView};
use vstd::prelude::*;

verus! {

/// The view of an item shows all of it.
pub proof fn law_items_are_shown_in_full(
    item: CompletionItem,
    edit: TextEdit,
    items: Seq<CompletionItem>,
    i: int,
)
    ensures
        item@.label == item.label@,
        item@.kind == item.kind,
        item@.insert_text == item.insert_text@,
        item@.preselect == item.preselect,
        item@.detail is Some <==> item.detail is Some,
        item.detail matches Some(s) ==> item@.detail == Some(s@),
        item@.text_edit is Some <==> item.text_edit is Some,
        item.text_edit matches Some(e) ==> item@.text_edit == Some(e@),
        edit@.line == edit.line && edit@.start == edit.start && edit@.end == edit.end,
        edit@.new_text == edit.new_text@,
        item_views(items).len() == items.len(),
        0 <= i < items.len() ==> item_views(items)[i] == items[i]@,
{
}

/// The views of queries, replies and steps show all of them.
pub proof fn law_messages_are_shown_in_full(
    s: String,
    line: u32,
    start: u32,
    end: u32,
    items: Vec<CompletionItem>,
    hover: Hover,
    code: i32,
    query: Query,
    reply: Reply,
)
    ensures
        Query::PackageNames@ == QueryView::PackageNames,
        (Query::Versions { partial: s, line, start, end })@ == (QueryView::Versions {
            partial: s@,
            line,
            start,
            end,
        }),
        (Query::PackageInfo { pkg: s })@ == (QueryView::PackageInfo { pkg: s@ }),
        (Query::VersionList { pkg: s })@ == (QueryView::VersionList { pkg: s@ }),
        Reply::Completions(items)@ == ReplyView::Completions(item_views(items@)),
        Reply::IncompleteCompletions(items)@ == ReplyView::IncompleteCompletions(
            item_views(items@),
        ),
        Reply::Hover(Some(hover))@ == ReplyView::Hover(Some(hover.value@)),
        Reply::Hover(None)@ == ReplyView::Hover(None),
        (Reply::Error { code, message: s })@ == (ReplyView::Error { code, message: s@ }),
        Step::Reply(reply)@ == StepView::Reply(reply@),
        (Step::Fetch { url: s, query })@ == (StepView::Fetch { url: s@, query: query@ }),
{
}

/// The view of what is being typed shows all of it.
pub proof fn law_contexts_are_shown_in_full(a: String, b: String)
    ensures
        CompletionContext::PackageName(a)@ == ContextView::PackageName(a@),
        CompletionContext::Version(a, b)@ == ContextView::Version(a@, b@),
{
}

/// The views of a search and of what belongs to it show all of them.
pub proof fn law_searches_are_shown_in_full(
    extension: HexIntelliSenseExtension,
    search: Search,
    details: ReleaseDetails,
    asset: Asset,
    assets: Seq<Asset>,
    i: int,
)
    ensures
        extension@ == opt_text(extension.cached_binary_path),
        search@.version == search.version@,
        search@.platform == search.platform,
        search@.work_dir == search.work_dir@,
        search@.details == search.details@,
        search@.stage == search.stage@,
        details@.asset_name == details.asset_name@,
        details@.file_type == details.file_type,
        details@.extract_dir == details.extract_dir@,
        details@.binary_path == details.binary_path@,
        asset@.name == asset.name@,
        asset@.download_url == asset.download_url@,
        asset_views(assets).len() == assets.len(),
        0 <= i < assets.len() ==> asset_views(assets)[i] == assets[i]@,
{
}

/// The views of stages and actions show all of them.
pub proof fn law_stages_and_actions_are_shown_in_full(
    a: String,
    b: String,
    file_type: DownloadedFileType,
    result: Result<String, String>,
)
    ensures
        Stage::Searching@ == StageView::Searching,
        (Stage::CheckingCached { path: a })@ == (StageView::CheckingCached { path: a@ }),
        Stage::FetchingRelease@ == StageView::FetchingRelease,
        (Stage::CheckingDisk { url: a })@ == (StageView::CheckingDisk { url: a@ }),
        (Stage::Downloading { url: a })@ == (StageView::Downloading { url: a@ }),
        Stage::MakingExecutable@ == StageView::MakingExecutable,
        Stage::Listing@ == StageView::Listing,
        Stage::Cleaning@ == StageView::Cleaning,
        Stage::Removing@ == StageView::Removing,
        (Stage::Finished { result })@ == (StageView::Finished { result: result_text(result) }),
        (Action::FindOnPath { name: a })@ == (ActionView::FindOnPath { name: a@ }),
        (Action::CheckFile { path: a })@ == (ActionView::CheckFile { path: a@ }),
        (Action::FetchRelease { repo: a, tag: b })@ == (ActionView::FetchRelease {
            repo: a@,
            tag: b@,
        }),
        (Action::Download { url: a, dir: b, file_type })@ == (ActionView::Download {
            url: a@,
            dir: b@,
            file_type,
        }),
        (Action::MakeExecutable { path: a })@ == (ActionView::MakeExecutable { path: a@ }),
        Action::ListDirectory@ == ActionView::ListDirectory,
        Action::NextEntry@ == ActionView::NextEntry,
        Action::RemoveEntry@ == ActionView::RemoveEntry,
        (Action::Finish { result })@ == (ActionView::Finish { result: result_text(result) }),
        result matches Ok(s) ==> result_text(result) == Ok::<Seq<char>, Seq<char>>(s@),
        result matches Err(s) ==> result_text(result) == Err::<Seq<char>, Seq<char>>(s@),
{
}

/// The views of events show all of them.
pub proof fn law_events_are_shown_in_full(
    s: String,
    is_file: bool,
    assets: Vec<Asset>,
    found: Option<String>,
    done: Result<(), String>,
)
    ensures
        (Event::PathSearched { found })@ == (EventView::PathSearched { found: opt_text(found) }),
        (Event::FileChecked { is_file })@ == (EventView::FileChecked { is_file }),
        (Event::ReleaseFetched { assets: Ok(assets) })@ == (EventView::ReleaseFetched {
            assets: Ok(asset_views(assets@)),
        }),
        (Event::ReleaseFetched { assets: Err(s) })@ == (EventView::ReleaseFetched {
            assets: Err(s@),
        }),
        (Event::Downloaded { done })@ == (EventView::Downloaded { done: done_text(done) }),
        (Event::MadeExecutable { done })@ == (EventView::MadeExecutable { done: done_text(done) }),
        (Event::Listed { done })@ == (EventView::Listed { done: done_text(done) }),
        (Event::EntryRead { name: Ok(found) })@ == (EventView::EntryRead {
            name: Ok(opt_text(found)),
        }),
        (Event::EntryRead { name: Err(s) })@ == (EventView::EntryRead { name: Err(s@) }),
        Event::NoMoreEntries@ == EventView::NoMoreEntries,
        Event::EntryRemoved@ == EventView::EntryRemoved,
        opt_text(Some(s)) == Some(s@),
        opt_text(None) is None,
        done_text(Err(s)) == Err::<(), Seq<char>>(s@),
        done is Ok ==> done_text(done) is Ok,
{
}

} // verus!
