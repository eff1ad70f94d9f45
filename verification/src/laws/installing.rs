//! Which file is installed where, and how a search for the binary goes.

use crate::install::{
    action_at, asset_url, cached_after, stage_after, status_at, ActionView, AssetView, EventView,
    InstallationStatus, SearchView, StageView,
};
use crate::release::{details_for, Architecture, DownloadedFileType, Os};
use vstd::prelude::*;
use vstd::string::*;

verus! {

/// The name of a file of a release without its suffix, for every platform.
pub open spec fn stem_for(os: Os, arch: Architecture) -> Seq<char> {
    match (os, arch) {
        (Os::Mac, Architecture::Aarch64) => "hex-ls-aarch64-apple-darwin"@,
        (Os::Mac, Architecture::X86) => "hex-ls-x86-apple-darwin"@,
        (Os::Mac, Architecture::X8664) => "hex-ls-x86_64-apple-darwin"@,
        (Os::Linux, Architecture::Aarch64) => "hex-ls-aarch64-unknown-linux-gnu"@,
        (Os::Linux, Architecture::X86) => "hex-ls-x86-unknown-linux-gnu"@,
        (Os::Linux, Architecture::X8664) => "hex-ls-x86_64-unknown-linux-gnu"@,
        (Os::Windows, Architecture::Aarch64) => "hex-ls-aarch64-pc-windows-msvc"@,
        (Os::Windows, Architecture::X86) => "hex-ls-x86-pc-windows-msvc"@,
        (Os::Windows, Architecture::X8664) => "hex-ls-x86_64-pc-windows-msvc"@,
    }
}

/// Which file is downloaded for a platform, how it is read and where the binary
/// lies once it is extracted.
pub proof fn law_each_platform_has_its_file(os: Os, arch: Architecture, version: Seq<char>)
    ensures
        ({
            let d = details_for(os, arch, version);
            let stem = stem_for(os, arch);
            &&& d.extract_dir == "hex-ls-"@ + version
            &&& os != Os::Windows ==> {
                &&& d.asset_name == stem + ".tar.gz"@
                &&& d.file_type == DownloadedFileType::GzipTar
                &&& d.binary_path == "hex-ls-"@ + version + "/"@ + stem + "/hex-ls"@
            }
            &&& os == Os::Windows ==> {
                &&& d.asset_name == stem + ".zip"@
                &&& d.file_type == DownloadedFileType::Zip
                &&& d.binary_path == "hex-ls-"@ + version + "/hex-ls.exe"@
            }
        }),
{
    reveal_strlit("hex-ls-");
    reveal_strlit("-");
    reveal_strlit("aarch64");
    reveal_strlit("x86");
    reveal_strlit("x86_64");
    reveal_strlit("apple-darwin");
    reveal_strlit("unknown-linux-gnu");
    reveal_strlit("pc-windows-msvc");
    reveal_strlit("hex-ls-aarch64-apple-darwin");
    reveal_strlit("hex-ls-x86-apple-darwin");
    reveal_strlit("hex-ls-x86_64-apple-darwin");
    reveal_strlit("hex-ls-aarch64-unknown-linux-gnu");
    reveal_strlit("hex-ls-x86-unknown-linux-gnu");
    reveal_strlit("hex-ls-x86_64-unknown-linux-gnu");
    reveal_strlit("hex-ls-aarch64-pc-windows-msvc");
    reveal_strlit("hex-ls-x86-pc-windows-msvc");
    reveal_strlit("hex-ls-x86_64-pc-windows-msvc");
    assert(crate::release::asset_stem(os, arch) =~= stem_for(os, arch));
}

/// What is done at each stage of a search: the program `hex-ls` is looked for,
/// the release tagged with the version of the extension is asked for, and the
/// files of the release are handled where they belong.
pub proof fn law_each_stage_has_its_action(s: SearchView)
    ensures
        s.stage is Searching ==> action_at(s) == (ActionView::FindOnPath { name: "hex-ls"@ }),
        s.stage matches StageView::CheckingCached { path } ==> action_at(s)
            == (ActionView::CheckFile { path }),
        s.stage is FetchingRelease ==> action_at(s) == (ActionView::FetchRelease {
            repo: "timothyvanderaerden/zed-hex-intellisense"@,
            tag: "v"@ + s.version,
        }),
        s.stage is CheckingDisk ==> action_at(s) == (ActionView::CheckFile {
            path: s.details.binary_path,
        }),
        s.stage matches StageView::Downloading { url } ==> action_at(s) == (ActionView::Download {
            url,
            dir: s.details.extract_dir,
            file_type: s.details.file_type,
        }),
        s.stage is MakingExecutable ==> action_at(s) == (ActionView::MakeExecutable {
            path: s.details.binary_path,
        }),
        s.stage is Listing ==> action_at(s) == ActionView::ListDirectory,
        s.stage is Cleaning ==> action_at(s) == ActionView::NextEntry,
        s.stage is Removing ==> action_at(s) == ActionView::RemoveEntry,
        s.stage matches StageView::Finished { result } ==> action_at(s) == (ActionView::Finish {
            result,
        }),
        status_at(s.stage) == Some(InstallationStatus::CheckingForUpdate) <==> action_at(
            s,
        ) is FetchRelease,
        status_at(s.stage) == Some(InstallationStatus::Downloading) <==> action_at(s) is Download,
        status_at(s.stage) is None <==> !(action_at(s) is FetchRelease) && !(action_at(
            s,
        ) is Download),
{
}

/// The address that is downloaded is that of the first file with the name, and
/// there is none where no file has it.
pub proof fn law_the_first_file_of_the_name_is_taken(assets: Seq<AssetView>, name: Seq<char>)
    ensures
        forall|i: int|
            0 <= i < assets.len() && (#[trigger] assets[i]).name == name && (forall|j: int|
                0 <= j < i ==> (#[trigger] assets[j]).name != name) ==> asset_url(assets, name)
                == Some(assets[i].download_url),
        asset_url(assets, name) is None <==> forall|i: int|
            0 <= i < assets.len() ==> (#[trigger] assets[i]).name != name,
    decreases assets.len(),
{
    if assets.len() > 0 {
        let rest = assets.drop_first();
        law_the_first_file_of_the_name_is_taken(rest, name);
        assert forall|i: int|
            0 <= i < assets.len() && (#[trigger] assets[i]).name == name && (forall|j: int|
                0 <= j < i ==> (#[trigger] assets[j]).name != name) implies asset_url(assets, name)
            == Some(assets[i].download_url) by {
            if i > 0 {
                assert(assets[0].name != name);
                assert(rest[i - 1] == assets[i]);
                assert forall|j: int| 0 <= j < i - 1 implies (#[trigger] rest[j]).name != name by {
                    assert(rest[j] == assets[j + 1]);
                }
            }
        }
        if asset_url(assets, name) is None {
            assert forall|i: int| 0 <= i < assets.len() implies (#[trigger] assets[i]).name
                != name by {
                if i > 0 {
                    assert(rest[i - 1] == assets[i]);
                }
            }
        }
        if forall|i: int| 0 <= i < assets.len() ==> (#[trigger] assets[i]).name != name {
            assert(assets[0].name != name);
            assert forall|j: int| 0 <= j < rest.len() implies (#[trigger] rest[j]).name != name by {
                assert(rest[j] == assets[j + 1]);
            }
        }
    }
}

/// How the search for an installed binary goes: a binary on `PATH` ends it,
/// then the remembered one if it is still there. Only then the release is asked
/// for.
pub proof fn law_installed_binaries_go_first(
    s: SearchView,
    cached: Option<Seq<char>>,
    path: Seq<char>,
)
    ensures
        s.stage is Searching ==> {
            &&& stage_after(s, cached, EventView::PathSearched { found: Some(path) })
                == (StageView::Finished { result: Ok(path) })
            &&& stage_after(s, None, EventView::PathSearched { found: None })
                == StageView::FetchingRelease
            &&& stage_after(s, Some(path), EventView::PathSearched { found: None })
                == (StageView::CheckingCached { path })
        },
        s.stage == (StageView::CheckingCached { path }) ==> {
            &&& stage_after(s, cached, EventView::FileChecked { is_file: true })
                == (StageView::Finished { result: Ok(path) })
            &&& stage_after(s, cached, EventView::FileChecked { is_file: false })
                == StageView::FetchingRelease
        },
{
}

/// How an installation goes, and what it says where a step fails. Only Windows
/// goes without marking the binary as executable.
pub proof fn law_an_installation_goes_step_by_step(
    s: SearchView,
    cached: Option<Seq<char>>,
    assets: Seq<AssetView>,
    url: Seq<char>,
    reason: Seq<char>,
)
    ensures
        s.stage is FetchingRelease ==> {
            &&& asset_url(assets, s.details.asset_name) == Some(url) ==> stage_after(
                s,
                cached,
                EventView::ReleaseFetched { assets: Ok(assets) },
            ) == (StageView::CheckingDisk { url })
            &&& asset_url(assets, s.details.asset_name) is None ==> stage_after(
                s,
                cached,
                EventView::ReleaseFetched { assets: Ok(assets) },
            ) == (StageView::Finished {
                result: Err(
                    "hex-ls release "@ + s.version + " has no asset named \""@
                        + s.details.asset_name
                        + "\". Until prebuilt binaries are available you can build from source: cargo install --git https://github.com/"@
                        + "timothyvanderaerden/zed-hex-intellisense"@ + " hex-ls"@,
                ),
            })
            &&& stage_after(s, cached, EventView::ReleaseFetched { assets: Err(reason) })
                == (StageView::Finished {
                result: Err(
                    "No hex-ls release found for "@ + ("v"@ + s.version) + ": "@ + reason,
                ),
            })
        },
        s.stage == (StageView::CheckingDisk { url }) ==> {
            &&& stage_after(s, cached, EventView::FileChecked { is_file: true })
                == (StageView::Finished { result: Ok(s.details.binary_path) })
            &&& stage_after(s, cached, EventView::FileChecked { is_file: false })
                == (StageView::Downloading { url })
        },
        s.stage is Downloading ==> {
            &&& s.platform == Os::Mac ==> stage_after(
                s,
                cached,
                EventView::Downloaded { done: Ok(()) },
            ) == StageView::MakingExecutable
            &&& s.platform == Os::Linux ==> stage_after(
                s,
                cached,
                EventView::Downloaded { done: Ok(()) },
            ) == StageView::MakingExecutable
            &&& s.platform == Os::Windows ==> stage_after(
                s,
                cached,
                EventView::Downloaded { done: Ok(()) },
            ) == StageView::Listing
            &&& stage_after(s, cached, EventView::Downloaded { done: Err(reason) })
                == (StageView::Finished { result: Err("Failed to download hex-ls: "@ + reason) })
        },
        s.stage is MakingExecutable ==> {
            &&& stage_after(s, cached, EventView::MadeExecutable { done: Ok(()) })
                == StageView::Listing
            &&& stage_after(s, cached, EventView::MadeExecutable { done: Err(reason) })
                == (StageView::Finished {
                result: Err("Failed to make hex-ls executable: "@ + reason),
            })
        },
{
}

/// How the clean-up after an installation goes: every entry of the working
/// directory is removed but the directory of the version just installed.
pub proof fn law_the_clean_up_goes_through_all_entries(
    s: SearchView,
    cached: Option<Seq<char>>,
    name: Option<Seq<char>>,
    reason: Seq<char>,
)
    ensures
        s.stage is Listing ==> {
            &&& stage_after(s, cached, EventView::Listed { done: Ok(()) }) == StageView::Cleaning
            &&& stage_after(s, cached, EventView::Listed { done: Err(reason) })
                == (StageView::Finished {
                result: Err("Failed to list working directory: "@ + reason),
            })
        },
        s.stage is Cleaning ==> {
            &&& name == Some(s.details.extract_dir) ==> stage_after(
                s,
                cached,
                EventView::EntryRead { name: Ok(name) },
            ) == StageView::Cleaning
            &&& name != Some(s.details.extract_dir) ==> stage_after(
                s,
                cached,
                EventView::EntryRead { name: Ok(name) },
            ) == StageView::Removing
            &&& stage_after(s, cached, EventView::EntryRead { name: Err(reason) })
                == (StageView::Finished {
                result: Err("Failed to read directory entry: "@ + reason),
            })
            &&& stage_after(s, cached, EventView::NoMoreEntries) == (StageView::Finished {
                result: Ok(s.details.binary_path),
            })
        },
        s.stage is Removing ==> stage_after(s, cached, EventView::EntryRemoved)
            == StageView::Cleaning,
{
}

/// The event is the answer to what is done at the stage.
pub open spec fn answers(stage: StageView, event: EventView) -> bool {
    match stage {
        StageView::Searching => event is PathSearched,
        StageView::CheckingCached { path } => event is FileChecked,
        StageView::FetchingRelease => event is ReleaseFetched,
        StageView::CheckingDisk { url } => event is FileChecked,
        StageView::Downloading { url } => event is Downloaded,
        StageView::MakingExecutable => event is MadeExecutable,
        StageView::Listing => event is Listed,
        StageView::Cleaning => event is EntryRead || event is NoMoreEntries,
        StageView::Removing => event is EntryRemoved,
        StageView::Finished { result } => false,
    }
}

/// An event that answers nothing changes nothing. A search that has come to its
/// end stays there.
pub proof fn law_other_events_change_nothing(
    s: SearchView,
    cached: Option<Seq<char>>,
    event: EventView,
)
    requires
        !answers(s.stage, event),
    ensures
        stage_after(s, cached, event) == s.stage,
        cached_after(s, cached, event) == cached,
{
}

/// What is remembered changes exactly when the binary is found on disk or its
/// installation is done: then it is the path of the binary in the working
/// directory.
pub proof fn law_the_installed_binary_is_remembered(
    s: SearchView,
    cached: Option<Seq<char>>,
    event: EventView,
)
    ensures
        cached_after(s, cached, event) == (if s.stage is CheckingDisk && event
            == (EventView::FileChecked { is_file: true }) || s.stage is Cleaning && event
            == EventView::NoMoreEntries {
            Some(
                s.work_dir + (if s.platform == Os::Windows {
                    "\\"@
                } else {
                    "/"@
                }) + s.details.binary_path,
            )
        } else {
            cached
        }),
{
}

/// The search goes from step `i` to the next as the event at step `i` says.
pub open spec fn leads_on(
    ss: Seq<SearchView>,
    cs: Seq<Option<Seq<char>>>,
    es: Seq<EventView>,
    i: int,
) -> bool {
    &&& ss[i + 1] == (SearchView { stage: stage_after(ss[i], cs[i], es[i]), ..ss[i] })
    &&& cs[i + 1] == cached_after(ss[i], cs[i], es[i])
}

/// The stages of a search, what is remembered at each and what happened at each
/// but the last.
pub open spec fn is_history(
    ss: Seq<SearchView>,
    cs: Seq<Option<Seq<char>>>,
    es: Seq<EventView>,
) -> bool {
    &&& ss.len() == es.len() + 1
    &&& cs.len() == es.len() + 1
    &&& ss[0].stage is Searching
    &&& forall|i: int| 0 <= i < es.len() ==> #[trigger] leads_on(ss, cs, es, i)
}

/// The file was downloaded at step `i`.
pub open spec fn downloaded_at(ss: Seq<SearchView>, es: Seq<EventView>, i: int) -> bool {
    &&& 0 <= i < es.len()
    &&& action_at(ss[i]) is Download
    &&& es[i] matches EventView::Downloaded { done: Ok(_) }
}

/// The file was marked as executable at step `i`.
pub open spec fn marked_at(
    ss: Seq<SearchView>,
    es: Seq<EventView>,
    i: int,
    path: Seq<char>,
) -> bool {
    &&& 0 <= i < es.len()
    &&& action_at(ss[i]) == (ActionView::MakeExecutable { path })
    &&& es[i] matches EventView::MadeExecutable { done: Ok(_) }
}

proof fn lemma_history_keeps(
    ss: Seq<SearchView>,
    cs: Seq<Option<Seq<char>>>,
    es: Seq<EventView>,
    k: int,
)
    requires
        is_history(ss, cs, es),
        0 <= k < ss.len(),
    ensures
        ss[k] == (SearchView { stage: ss[k].stage, ..ss[0] }),
    decreases k,
{
    if k > 0 {
        lemma_history_keeps(ss, cs, es, k - 1);
        assert(leads_on(ss, cs, es, k - 1));
    }
}

proof fn lemma_marked_after_download(
    ss: Seq<SearchView>,
    cs: Seq<Option<Seq<char>>>,
    es: Seq<EventView>,
    i: int,
    k: int,
)
    requires
        is_history(ss, cs, es),
        downloaded_at(ss, es, i),
        ss[0].platform == Os::Mac || ss[0].platform == Os::Linux,
        i < k < ss.len(),
    ensures
        ss[k].stage is MakingExecutable || (ss[k].stage matches StageView::Finished {
            result: Err(_),
        }) || ((ss[k].stage is Listing || ss[k].stage is Cleaning || ss[k].stage is Removing
            || ss[k].stage == (StageView::Finished { result: Ok(ss[0].details.binary_path) }))
            && exists|j: int|
            i < j < k && #[trigger] marked_at(ss, es, j, ss[0].details.binary_path)),
    decreases k,
{
    lemma_history_keeps(ss, cs, es, k - 1);
    assert(leads_on(ss, cs, es, k - 1));
    if k > i + 1 {
        lemma_marked_after_download(ss, cs, es, i, k - 1);
        if ss[k - 1].stage is MakingExecutable && (es[k - 1] matches EventView::MadeExecutable {
            done: Ok(_),
        }) {
            assert(marked_at(ss, es, k - 1, ss[0].details.binary_path));
        }
    }
}

/// On a Mac and on Linux, a search that downloads the file and comes to a good
/// end has marked the binary at its end as executable after the download.
pub proof fn law_downloaded_binaries_are_made_executable(
    ss: Seq<SearchView>,
    cs: Seq<Option<Seq<char>>>,
    es: Seq<EventView>,
    i: int,
    path: Seq<char>,
)
    requires
        is_history(ss, cs, es),
        downloaded_at(ss, es, i),
        ss[0].platform == Os::Mac || ss[0].platform == Os::Linux,
        ss.last().stage == (StageView::Finished { result: Ok(path) }),
    ensures
        path == ss[0].details.binary_path,
        exists|j: int| i < j < es.len() && #[trigger] marked_at(ss, es, j, path),
{
    lemma_marked_after_download(ss, cs, es, i, ss.len() - 1);
}

/// Whatever happens, a good end is one of three paths: what was found on `PATH`,
/// what had been remembered, and the binary of the release.
pub proof fn law_a_good_end_is_a_known_path(
    ss: Seq<SearchView>,
    cs: Seq<Option<Seq<char>>>,
    es: Seq<EventView>,
    path: Seq<char>,
)
    requires
        is_history(ss, cs, es),
        ss.last().stage == (StageView::Finished { result: Ok(path) }),
    ensures
        path == ss[0].details.binary_path || cs[0] == Some(path) || exists|i: int|
            0 <= i < es.len() && #[trigger] es[i] == (EventView::PathSearched {
                found: Some(path),
            }),
{
    lemma_good_end(ss, cs, es, ss.len() - 1);
}

proof fn lemma_good_end(
    ss: Seq<SearchView>,
    cs: Seq<Option<Seq<char>>>,
    es: Seq<EventView>,
    k: int,
)
    requires
        is_history(ss, cs, es),
        0 <= k < ss.len(),
    ensures
        ss[k].stage is Searching ==> cs[k] == cs[0],
        ss[k].stage matches StageView::CheckingCached { path } ==> cs[0] == Some(path),
        ss[k].stage matches StageView::Finished { result: Ok(path) } ==> path
            == ss[0].details.binary_path || cs[0] == Some(path) || exists|i: int|
            0 <= i < k && #[trigger] es[i] == (EventView::PathSearched { found: Some(path) }),
    decreases k,
{
    if k > 0 {
        lemma_good_end(ss, cs, es, k - 1);
        lemma_history_keeps(ss, cs, es, k - 1);
        assert(leads_on(ss, cs, es, k - 1));
    }
}

} // verus!
