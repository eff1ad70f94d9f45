//! Finding the `hex-ls` binary for the editor, and installing it where there
//! is none.
//!
//! The search is a sequence of questions to the outside world. `Search::action`
//! says what is to be done next, `HexIntelliSenseExtension::advance` takes in
//! what came of it, and so on until the action is `Finish`.

use crate::release::{details_for, Architecture, DetailsView, DownloadedFileType, Os, ReleaseDetails};
use crate::text::{cat, cat3, same_text};
use vstd::prelude::*;
use vstd::string::*;

verus! {

/// The repository whose releases hold the binaries.
pub const REPO: &'static str = "timothyvanderaerden/zed-hex-intellisense";

/// The name of the binary on the user's `PATH`.
pub const BINARY_NAME: &'static str = "hex-ls";

/// The editor extension. It remembers where the binary is that it installed or
/// found on disk last.
pub struct HexIntelliSenseExtension {
    /// The absolute path of the binary.
    pub cached_binary_path: Option<String>,
}

/// A file of a release.
pub struct Asset {
    pub name: String,
    pub download_url: String,
}

/// How to start the language server.
pub struct Command {
    pub command: String,
    pub args: Vec<String>,
    pub env: Vec<(String, String)>,
}

/// What the editor shows while a search is going on.
#[derive(Clone, Copy, Debug, PartialEq, Eq, Structural)]
pub enum InstallationStatus {
    CheckingForUpdate,
    Downloading,
}

/// How far a search has come.
pub enum Stage {
    /// Looking for the binary on `PATH`.
    Searching,
    /// Looking whether the binary found last is still there.
    CheckingCached { path: String },
    /// Asking for the release.
    FetchingRelease,
    /// Looking whether the binary is on disk already.
    CheckingDisk { url: String },
    /// Downloading and extracting the file at the address.
    Downloading { url: String },
    /// Marking the binary as executable.
    MakingExecutable,
    /// Listing the working directory.
    Listing,
    /// Looking at the next entry of the working directory.
    Cleaning,
    /// Removing the entry just looked at.
    Removing,
    /// The path of the binary, or why there is none.
    Finished { result: Result<String, String> },
}

/// A search for the binary.
pub struct Search {
    /// The version of the extension. Only the binary of the same version will
    /// do.
    pub version: String,
    pub platform: Os,
    /// The absolute path of the working directory, which the paths of the
    /// release are relative to.
    pub work_dir: String,
    pub details: ReleaseDetails,
    pub stage: Stage,
}

/// What is to be done next.
pub enum Action {
    /// Look for a program on `PATH`.
    FindOnPath { name: String },
    /// Look whether a file is there.
    CheckFile { path: String },
    /// Ask for the release of a repository with a tag.
    FetchRelease { repo: String, tag: String },
    /// Download a file and extract it into a directory.
    Download { url: String, dir: String, file_type: DownloadedFileType },
    /// Mark a file as executable.
    MakeExecutable { path: String },
    /// List the working directory.
    ListDirectory,
    /// Look at the next entry of the working directory.
    NextEntry,
    /// Remove the entry just looked at, if possible.
    RemoveEntry,
    /// Nothing more: this is what came out.
    Finish { result: Result<String, String> },
}

/// What came of an action.
pub enum Event {
    PathSearched { found: Option<String> },
    FileChecked { is_file: bool },
    ReleaseFetched { assets: Result<Vec<Asset>, String> },
    Downloaded { done: Result<(), String> },
    MadeExecutable { done: Result<(), String> },
    Listed { done: Result<(), String> },
    /// An entry of the working directory. It has no name where that is no
    /// proper text.
    EntryRead { name: Result<Option<String>, String> },
    NoMoreEntries,
    EntryRemoved,
}

/// An `Asset` over characters.
pub struct AssetView {
    pub name: Seq<char>,
    pub download_url: Seq<char>,
}

/// A `Stage` over characters.
pub enum StageView {
    Searching,
    CheckingCached { path: Seq<char> },
    FetchingRelease,
    CheckingDisk { url: Seq<char> },
    Downloading { url: Seq<char> },
    MakingExecutable,
    Listing,
    Cleaning,
    Removing,
    Finished { result: Result<Seq<char>, Seq<char>> },
}

/// A `Search` over characters.
pub struct SearchView {
    pub version: Seq<char>,
    pub platform: Os,
    pub work_dir: Seq<char>,
    pub details: DetailsView,
    pub stage: StageView,
}

/// An `Action` over characters.
pub enum ActionView {
    FindOnPath { name: Seq<char> },
    CheckFile { path: Seq<char> },
    FetchRelease { repo: Seq<char>, tag: Seq<char> },
    Download { url: Seq<char>, dir: Seq<char>, file_type: DownloadedFileType },
    MakeExecutable { path: Seq<char> },
    ListDirectory,
    NextEntry,
    RemoveEntry,
    Finish { result: Result<Seq<char>, Seq<char>> },
}

/// An `Event` over characters.
pub enum EventView {
    PathSearched { found: Option<Seq<char>> },
    FileChecked { is_file: bool },
    ReleaseFetched { assets: Result<Seq<AssetView>, Seq<char>> },
    Downloaded { done: Result<(), Seq<char>> },
    MadeExecutable { done: Result<(), Seq<char>> },
    Listed { done: Result<(), Seq<char>> },
    EntryRead { name: Result<Option<Seq<char>>, Seq<char>> },
    NoMoreEntries,
    EntryRemoved,
}

/// An optional string over characters.
pub open spec fn opt_text(s: Option<String>) -> Option<Seq<char>> {
    match s {
        Some(s) => Some(s@),
        None => None,
    }
}

/// A string, or why there is none, over characters.
pub open spec fn result_text(r: Result<String, String>) -> Result<Seq<char>, Seq<char>> {
    match r {
        Ok(s) => Ok(s@),
        Err(e) => Err(e@),
    }
}

/// Success, or why there was none, over characters.
pub open spec fn done_text(r: Result<(), String>) -> Result<(), Seq<char>> {
    match r {
        Ok(_) => Ok(()),
        Err(e) => Err(e@),
    }
}

impl View for Asset {
    type V = AssetView;

    open spec fn view(&self) -> AssetView {
        AssetView { name: self.name@, download_url: self.download_url@ }
    }
}

impl View for HexIntelliSenseExtension {
    type V = Option<Seq<char>>;

    open spec fn view(&self) -> Option<Seq<char>> {
        opt_text(self.cached_binary_path)
    }
}

impl View for Stage {
    type V = StageView;

    open spec fn view(&self) -> StageView {
        match self {
            Stage::Searching => StageView::Searching,
            Stage::CheckingCached { path } => StageView::CheckingCached { path: path@ },
            Stage::FetchingRelease => StageView::FetchingRelease,
            Stage::CheckingDisk { url } => StageView::CheckingDisk { url: url@ },
            Stage::Downloading { url } => StageView::Downloading { url: url@ },
            Stage::MakingExecutable => StageView::MakingExecutable,
            Stage::Listing => StageView::Listing,
            Stage::Cleaning => StageView::Cleaning,
            Stage::Removing => StageView::Removing,
            Stage::Finished { result } => StageView::Finished { result: result_text(*result) },
        }
    }
}

impl View for Search {
    type V = SearchView;

    open spec fn view(&self) -> SearchView {
        SearchView {
            version: self.version@,
            platform: self.platform,
            work_dir: self.work_dir@,
            details: self.details@,
            stage: self.stage@,
        }
    }
}

impl View for Action {
    type V = ActionView;

    open spec fn view(&self) -> ActionView {
        match self {
            Action::FindOnPath { name } => ActionView::FindOnPath { name: name@ },
            Action::CheckFile { path } => ActionView::CheckFile { path: path@ },
            Action::FetchRelease { repo, tag } => ActionView::FetchRelease {
                repo: repo@,
                tag: tag@,
            },
            Action::Download { url, dir, file_type } => ActionView::Download {
                url: url@,
                dir: dir@,
                file_type: *file_type,
            },
            Action::MakeExecutable { path } => ActionView::MakeExecutable { path: path@ },
            Action::ListDirectory => ActionView::ListDirectory,
            Action::NextEntry => ActionView::NextEntry,
            Action::RemoveEntry => ActionView::RemoveEntry,
            Action::Finish { result } => ActionView::Finish { result: result_text(*result) },
        }
    }
}

impl View for Event {
    type V = EventView;

    open spec fn view(&self) -> EventView {
        match self {
            Event::PathSearched { found } => EventView::PathSearched { found: opt_text(*found) },
            Event::FileChecked { is_file } => EventView::FileChecked { is_file: *is_file },
            Event::ReleaseFetched { assets } => EventView::ReleaseFetched {
                assets: match assets {
                    Ok(v) => Ok(asset_views(v@)),
                    Err(e) => Err(e@),
                },
            },
            Event::Downloaded { done } => EventView::Downloaded { done: done_text(*done) },
            Event::MadeExecutable { done } => EventView::MadeExecutable { done: done_text(*done) },
            Event::Listed { done } => EventView::Listed { done: done_text(*done) },
            Event::EntryRead { name } => EventView::EntryRead {
                name: match name {
                    Ok(n) => Ok(opt_text(*n)),
                    Err(e) => Err(e@),
                },
            },
            Event::NoMoreEntries => EventView::NoMoreEntries,
            Event::EntryRemoved => EventView::EntryRemoved,
        }
    }
}

/// The files of a release, over characters.
pub open spec fn asset_views(assets: Seq<Asset>) -> Seq<AssetView> {
    assets.map_values(|a: Asset| a@)
}

/// The tag of the release of a version.
pub open spec fn tag_of(version: Seq<char>) -> Seq<char> {
    "v"@ + version
}

/// The address of the first file of that name.
pub open spec fn asset_url(assets: Seq<AssetView>, name: Seq<char>) -> Option<Seq<char>>
    decreases assets.len(),
{
    if assets.len() == 0 {
        None
    } else if assets[0].name == name {
        Some(assets[0].download_url)
    } else {
        asset_url(assets.drop_first(), name)
    }
}

/// Why there is no release.
pub open spec fn no_release(version: Seq<char>, reason: Seq<char>) -> Seq<char> {
    "No hex-ls release found for "@ + tag_of(version) + ": "@ + reason
}

/// Why there is no file for the platform.
pub open spec fn no_asset(version: Seq<char>, name: Seq<char>) -> Seq<char> {
    "hex-ls release "@ + version + " has no asset named \""@ + name
        + "\". Until prebuilt binaries are available you can build from source: cargo install --git https://github.com/"@
        + REPO@ + " hex-ls"@
}

/// A search that has come to its end.
pub open spec fn failed(reason: Seq<char>) -> StageView {
    StageView::Finished { result: Err(reason) }
}

/// Unix archives do not keep the execute bit.
pub open spec fn needs_executable_bit(platform: Os) -> bool {
    platform == Os::Mac || platform == Os::Linux
}

/// What separates the parts of a path.
pub open spec fn separator(platform: Os) -> Seq<char> {
    match platform {
        Os::Mac | Os::Linux => "/"@,
        Os::Windows => "\\"@,
    }
}

/// Where a path that is relative to a directory leads.
pub open spec fn path_in(platform: Os, dir: Seq<char>, path: Seq<char>) -> Seq<char> {
    dir + separator(platform) + path
}

/// The path does not depend on a working directory.
pub open spec fn is_absolute(platform: Os, path: Seq<char>) -> bool {
    match platform {
        Os::Mac | Os::Linux => path.len() > 0 && path[0] == '/',
        Os::Windows => {
            ||| path.len() > 2 && path[1] == ':' && (path[2] == '\\' || path[2] == '/')
            ||| path.len() > 1 && path[0] == '\\' && path[1] == '\\'
        },
    }
}

/// The absolute path of the binary of a search.
pub open spec fn remembered_path(s: SearchView) -> Seq<char> {
    path_in(s.platform, s.work_dir, s.details.binary_path)
}

/// What is to be done at a stage.
pub open spec fn action_at(s: SearchView) -> ActionView {
    match s.stage {
        StageView::Searching => ActionView::FindOnPath { name: BINARY_NAME@ },
        StageView::CheckingCached { path } => ActionView::CheckFile { path },
        StageView::FetchingRelease => ActionView::FetchRelease {
            repo: REPO@,
            tag: tag_of(s.version),
        },
        StageView::CheckingDisk { url } => ActionView::CheckFile { path: s.details.binary_path },
        StageView::Downloading { url } => ActionView::Download {
            url,
            dir: s.details.extract_dir,
            file_type: s.details.file_type,
        },
        StageView::MakingExecutable => ActionView::MakeExecutable { path: s.details.binary_path },
        StageView::Listing => ActionView::ListDirectory,
        StageView::Cleaning => ActionView::NextEntry,
        StageView::Removing => ActionView::RemoveEntry,
        StageView::Finished { result } => ActionView::Finish { result },
    }
}

/// The stage after an event. An event that the stage does not wait for changes
/// nothing.
pub open spec fn stage_after(
    s: SearchView,
    cached: Option<Seq<char>>,
    event: EventView,
) -> StageView {
    let installed = StageView::Finished { result: Ok(s.details.binary_path) };
    match (s.stage, event) {
        // A binary on `PATH` goes before everything else.
        (StageView::Searching, EventView::PathSearched { found }) => match found {
            Some(path) => StageView::Finished { result: Ok(path) },
            None => match cached {
                Some(path) => StageView::CheckingCached { path },
                None => StageView::FetchingRelease,
            },
        },
        (StageView::CheckingCached { path }, EventView::FileChecked { is_file }) => if is_file {
            StageView::Finished { result: Ok(path) }
        } else {
            StageView::FetchingRelease
        },
        (StageView::FetchingRelease, EventView::ReleaseFetched { assets }) => match assets {
            Ok(assets) => match asset_url(assets, s.details.asset_name) {
                Some(url) => StageView::CheckingDisk { url },
                None => failed(no_asset(s.version, s.details.asset_name)),
            },
            Err(e) => failed(no_release(s.version, e)),
        },
        (StageView::CheckingDisk { url }, EventView::FileChecked { is_file }) => if is_file {
            installed
        } else {
            StageView::Downloading { url }
        },
        (StageView::Downloading { url }, EventView::Downloaded { done }) => match done {
            Ok(_) => if needs_executable_bit(s.platform) {
                StageView::MakingExecutable
            } else {
                StageView::Listing
            },
            Err(e) => failed("Failed to download hex-ls: "@ + e),
        },
        (StageView::MakingExecutable, EventView::MadeExecutable { done }) => match done {
            Ok(_) => StageView::Listing,
            Err(e) => failed("Failed to make hex-ls executable: "@ + e),
        },
        (StageView::Listing, EventView::Listed { done }) => match done {
            Ok(_) => StageView::Cleaning,
            Err(e) => failed("Failed to list working directory: "@ + e),
        },
        // Everything but the directory of this version is left over from
        // older ones.
        (StageView::Cleaning, EventView::EntryRead { name }) => match name {
            Ok(name) => if name == Some(s.details.extract_dir) {
                StageView::Cleaning
            } else {
                StageView::Removing
            },
            Err(e) => failed("Failed to read directory entry: "@ + e),
        },
        (StageView::Cleaning, EventView::NoMoreEntries) => installed,
        (StageView::Removing, EventView::EntryRemoved) => StageView::Cleaning,
        _ => s.stage,
    }
}

/// What the extension remembers after an event: the absolute path of the
/// binary, once that is on disk.
pub open spec fn cached_after(
    s: SearchView,
    cached: Option<Seq<char>>,
    event: EventView,
) -> Option<Seq<char>> {
    match (s.stage, event) {
        (StageView::CheckingDisk { url }, EventView::FileChecked { is_file }) => if is_file {
            Some(remembered_path(s))
        } else {
            cached
        },
        (StageView::Cleaning, EventView::NoMoreEntries) => Some(remembered_path(s)),
        _ => cached,
    }
}

/// What the editor shows at a stage.
pub open spec fn status_at(stage: StageView) -> Option<InstallationStatus> {
    match stage {
        StageView::FetchingRelease => Some(InstallationStatus::CheckingForUpdate),
        StageView::Downloading { url } => Some(InstallationStatus::Downloading),
        _ => None,
    }
}

/// The address of the first file of that name.
fn find_asset(assets: &Vec<Asset>, name: &str) -> (r: Option<String>)
    ensures
        opt_text(r) == asset_url(asset_views(assets@), name@),
{
    let mut i: usize = 0;
    let ghost all = asset_views(assets@);
    assert(all.skip(0) =~= all);
    while i < assets.len()
        invariant
            i <= assets.len(),
            all == asset_views(assets@),
            asset_url(all, name@) == asset_url(all.skip(i as int), name@),
        decreases assets.len() - i,
    {
        assert(all.skip(i as int).drop_first() =~= all.skip(i + 1));
        assert(all[i as int] == assets@[i as int]@);
        if same_text(assets[i].name.as_str(), name) {
            return Some(assets[i].download_url.clone());
        }
        i += 1;
    }
    None
}

/// Whether an entry of the working directory is left over from an older
/// version.
fn is_stale(name: &Option<String>, extract_dir: &str) -> (r: bool)
    ensures
        r == (opt_text(*name) != Some(extract_dir@)),
{
    match name {
        Some(name) => !same_text(name.as_str(), extract_dir),
        None => true,
    }
}

/// Why there is no release.
fn no_release_text(version: &str, reason: &str) -> (r: String)
    ensures
        r@ == no_release(version@, reason@),
{
    let mut s: String = cat3("No hex-ls release found for ", cat("v", version).as_str(), ": ");
    s.append(reason);
    s
}

/// Why there is no file for the platform.
fn no_asset_text(version: &str, name: &str) -> (r: String)
    ensures
        r@ == no_asset(version@, name@),
{
    let mut s: String = cat3("hex-ls release ", version, " has no asset named \"");
    s.append(name);
    s.append(
        "\". Until prebuilt binaries are available you can build from source: cargo install --git https://github.com/",
    );
    s.append(REPO);
    s.append(" hex-ls");
    s
}

/// Where a path that is relative to a directory leads.
fn join_path(platform: Os, dir: &str, path: &str) -> (r: String)
    ensures
        r@ == path_in(platform, dir@, path@),
{
    match platform {
        Os::Mac | Os::Linux => cat3(dir, "/", path),
        Os::Windows => cat3(dir, "\\", path),
    }
}

/// A search that has come to its end.
fn fail(reason: String) -> (r: Stage)
    ensures
        r@ == failed(reason@),
{
    Stage::Finished { result: Err(reason) }
}

impl Search {
    /// What is to be done next.
    pub fn action(&self) -> (r: Action)
        ensures
            r@ == action_at(self@),
    {
        match &self.stage {
            Stage::Searching => Action::FindOnPath { name: BINARY_NAME.to_owned() },
            Stage::CheckingCached { path } => Action::CheckFile { path: path.clone() },
            Stage::FetchingRelease => Action::FetchRelease {
                repo: REPO.to_owned(),
                tag: cat("v", self.version.as_str()),
            },
            Stage::CheckingDisk { url } => Action::CheckFile {
                path: self.details.binary_path.clone(),
            },
            Stage::Downloading { url } => Action::Download {
                url: url.clone(),
                dir: self.details.extract_dir.clone(),
                file_type: self.details.file_type,
            },
            Stage::MakingExecutable => Action::MakeExecutable {
                path: self.details.binary_path.clone(),
            },
            Stage::Listing => Action::ListDirectory,
            Stage::Cleaning => Action::NextEntry,
            Stage::Removing => Action::RemoveEntry,
            Stage::Finished { result } => Action::Finish {
                result: match result {
                    Ok(path) => Ok(path.clone()),
                    Err(reason) => Err(reason.clone()),
                },
            },
        }
    }

    /// What the editor is to show while that is done.
    pub fn status(&self) -> (r: Option<InstallationStatus>)
        ensures
            r == status_at(self@.stage),
    {
        match &self.stage {
            Stage::FetchingRelease => Some(InstallationStatus::CheckingForUpdate),
            Stage::Downloading { url } => Some(InstallationStatus::Downloading),
            _ => None,
        }
    }
}

impl HexIntelliSenseExtension {
    /// An extension that remembers nothing yet.
    pub fn new() -> (r: Self)
        ensures
            r@ is None,
    {
        HexIntelliSenseExtension { cached_binary_path: None }
    }

    /// Begins a search for the binary of a version on a platform, from an
    /// absolute working directory.
    pub fn language_server_binary_path(
        &self,
        version: &str,
        platform: Os,
        arch: Architecture,
        work_dir: &str,
    ) -> (r: Search)
        ensures
            r@ == (SearchView {
                version: version@,
                platform,
                work_dir: work_dir@,
                details: details_for(platform, arch, version@),
                stage: StageView::Searching,
            }),
    {
        Search {
            version: version.to_owned(),
            platform,
            work_dir: work_dir.to_owned(),
            details: ReleaseDetails::new(platform, arch, version),
            stage: Stage::Searching,
        }
    }

    /// Takes in what came of the action that the search asked for.
    pub fn advance(&mut self, search: Search, event: Event) -> (r: Search)
        ensures
            r@ == (SearchView { stage: stage_after(search@, old(self)@, event@), ..search@ }),
            final(self)@ == cached_after(search@, old(self)@, event@),
    {
        let Search { version, platform, work_dir, details, stage } = search;
        let next: Stage = match (stage, event) {
            (Stage::Searching, Event::PathSearched { found }) => match found {
                Some(path) => Stage::Finished { result: Ok(path) },
                None => match &self.cached_binary_path {
                    Some(path) => Stage::CheckingCached { path: path.clone() },
                    None => Stage::FetchingRelease,
                },
            },
            (Stage::CheckingCached { path }, Event::FileChecked { is_file }) => if is_file {
                Stage::Finished { result: Ok(path) }
            } else {
                Stage::FetchingRelease
            },
            (Stage::FetchingRelease, Event::ReleaseFetched { assets }) => match assets {
                Ok(assets) => match find_asset(&assets, details.asset_name.as_str()) {
                    Some(url) => Stage::CheckingDisk { url },
                    None => fail(no_asset_text(version.as_str(), details.asset_name.as_str())),
                },
                Err(e) => fail(no_release_text(version.as_str(), e.as_str())),
            },
            (Stage::CheckingDisk { url }, Event::FileChecked { is_file }) => if is_file {
                self.cached_binary_path = Some(
                    join_path(platform, work_dir.as_str(), details.binary_path.as_str()),
                );
                Stage::Finished { result: Ok(details.binary_path.clone()) }
            } else {
                Stage::Downloading { url }
            },
            (Stage::Downloading { url }, Event::Downloaded { done }) => match done {
                Ok(_) => match platform {
                    Os::Mac | Os::Linux => Stage::MakingExecutable,
                    Os::Windows => Stage::Listing,
                },
                Err(e) => fail(cat("Failed to download hex-ls: ", e.as_str())),
            },
            (Stage::MakingExecutable, Event::MadeExecutable { done }) => match done {
                Ok(_) => Stage::Listing,
                Err(e) => fail(cat("Failed to make hex-ls executable: ", e.as_str())),
            },
            (Stage::Listing, Event::Listed { done }) => match done {
                Ok(_) => Stage::Cleaning,
                Err(e) => fail(cat("Failed to list working directory: ", e.as_str())),
            },
            (Stage::Cleaning, Event::EntryRead { name }) => match name {
                Ok(name) => if is_stale(&name, details.extract_dir.as_str()) {
                    Stage::Removing
                } else {
                    Stage::Cleaning
                },
                Err(e) => fail(cat("Failed to read directory entry: ", e.as_str())),
            },
            (Stage::Cleaning, Event::NoMoreEntries) => {
                self.cached_binary_path = Some(
                    join_path(platform, work_dir.as_str(), details.binary_path.as_str()),
                );
                Stage::Finished { result: Ok(details.binary_path.clone()) }
            },
            (Stage::Removing, Event::EntryRemoved) => Stage::Cleaning,
            (stage, _) => stage,
        };
        Search { version, platform, work_dir, details, stage: next }
    }

    /// How to start the language server, once the search for its binary has
    /// come to an end: without arguments, in the environment as it is.
    pub fn language_server_command(found: Result<String, String>) -> (r: Result<Command, String>)
        ensures
            match found {
                Ok(path) => r matches Ok(c) && c.command@ == path@ && c.args@.len() == 0
                    && c.env@.len() == 0,
                Err(reason) => r matches Err(e) && e@ == reason@,
            },
    {
        match found {
            Ok(path) => Ok(Command { command: path, args: Vec::new(), env: Vec::new() }),
            Err(reason) => Err(reason),
        }
    }
}

/// Everything that the outside world answers during one search.
pub struct World {
    pub on_path: Option<Seq<char>>,
    pub is_file: spec_fn(Seq<char>) -> bool,
    pub release: Result<Seq<AssetView>, Seq<char>>,
    pub download: Result<(), Seq<char>>,
    pub executable: Result<(), Seq<char>>,
    pub listing: Result<(), Seq<char>>,
    pub entries: Seq<Result<Option<Seq<char>>, Seq<char>>>,
}

/// What a search comes to.
pub struct Outcome {
    pub result: Result<Seq<char>, Seq<char>>,
    /// What the extension remembers afterwards.
    pub cached: Option<Seq<char>>,
    /// Whether a file was downloaded.
    pub downloaded: bool,
    /// The names of the entries that were removed, in order.
    pub removed: Seq<Option<Seq<char>>>,
}

/// The answer to the action of a stage, with the entries that have not been
/// looked at yet.
pub open spec fn response(
    w: World,
    s: SearchView,
    entries: Seq<Result<Option<Seq<char>>, Seq<char>>>,
) -> EventView {
    match s.stage {
        StageView::Searching => EventView::PathSearched { found: w.on_path },
        StageView::CheckingCached { path } => EventView::FileChecked {
            is_file: (w.is_file)(path),
        },
        StageView::FetchingRelease => EventView::ReleaseFetched { assets: w.release },
        StageView::CheckingDisk { url } => EventView::FileChecked {
            is_file: (w.is_file)(s.details.binary_path),
        },
        StageView::Downloading { url } => EventView::Downloaded { done: w.download },
        StageView::MakingExecutable => EventView::MadeExecutable { done: w.executable },
        StageView::Listing => EventView::Listed { done: w.listing },
        StageView::Cleaning => if entries.len() == 0 {
            EventView::NoMoreEntries
        } else {
            EventView::EntryRead { name: entries[0] }
        },
        StageView::Removing => EventView::EntryRemoved,
        StageView::Finished { result } => EventView::NoMoreEntries,
    }
}

/// How many stages are still ahead at most, apart from the entries.
pub open spec fn stages_ahead(stage: StageView) -> nat {
    match stage {
        StageView::Searching => 9,
        StageView::CheckingCached { path } => 8,
        StageView::FetchingRelease => 7,
        StageView::CheckingDisk { url } => 6,
        StageView::Downloading { url } => 5,
        StageView::MakingExecutable => 4,
        StageView::Listing => 3,
        StageView::Removing => 2,
        StageView::Cleaning => 1,
        StageView::Finished { result } => 0,
    }
}

/// Runs a search to its end: the action of each stage is answered by the world
/// and the answer taken in. `name` is that of the entry just looked at.
pub open spec fn run(
    w: World,
    s: SearchView,
    entries: Seq<Result<Option<Seq<char>>, Seq<char>>>,
    name: Option<Seq<char>>,
    so_far: Outcome,
) -> Outcome
    decreases entries.len(), stages_ahead(s.stage),
{
    let event = response(w, s, entries);
    let next = SearchView { stage: stage_after(s, so_far.cached, event), ..s };
    let cached = cached_after(s, so_far.cached, event);
    match s.stage {
        StageView::Finished { result } => Outcome { result, ..so_far },
        StageView::Cleaning => if entries.len() == 0 {
            run(w, next, entries, name, Outcome { cached, ..so_far })
        } else {
            let read = match entries[0] {
                Ok(n) => n,
                Err(e) => None,
            };
            run(w, next, entries.drop_first(), read, Outcome { cached, ..so_far })
        },
        StageView::Removing => run(
            w,
            next,
            entries,
            name,
            Outcome { cached, removed: so_far.removed.push(name), ..so_far },
        ),
        StageView::Downloading { url } => run(
            w,
            next,
            entries,
            name,
            Outcome { cached, downloaded: true, ..so_far },
        ),
        _ => run(w, next, entries, name, Outcome { cached, ..so_far }),
    }
}

/// The entries that a clean-up removes: all but the directory of this version,
/// up to the first one that cannot be read.
pub open spec fn stale_entries(
    entries: Seq<Result<Option<Seq<char>>, Seq<char>>>,
    dir: Seq<char>,
) -> Seq<Option<Seq<char>>>
    decreases entries.len(),
{
    if entries.len() == 0 {
        Seq::empty()
    } else {
        match entries[0] {
            Ok(name) => if name == Some(dir) {
                stale_entries(entries.drop_first(), dir)
            } else {
                seq![name] + stale_entries(entries.drop_first(), dir)
            },
            Err(e) => Seq::empty(),
        }
    }
}

/// Why the first entry that cannot be read could not be.
pub open spec fn unreadable(entries: Seq<Result<Option<Seq<char>>, Seq<char>>>) -> Option<Seq<char>>
    decreases entries.len(),
{
    if entries.len() == 0 {
        None
    } else {
        match entries[0] {
            Ok(name) => unreadable(entries.drop_first()),
            Err(e) => Some(e),
        }
    }
}

/// What a search comes to, in one piece. A binary on `PATH` always goes first,
/// then the one found last if it is still there. Only then the release of the
/// extension's own version is asked for, and the binary is downloaded only if
/// it is not on disk already.
pub open spec fn outcome_of(
    w: World,
    version: Seq<char>,
    platform: Os,
    work_dir: Seq<char>,
    details: DetailsView,
    cached: Option<Seq<char>>,
) -> Outcome {
    let nothing = Outcome {
        result: Err(Seq::empty()),
        cached,
        downloaded: false,
        removed: Seq::empty(),
    };
    let installed = Outcome {
        result: Ok(details.binary_path),
        cached: Some(path_in(platform, work_dir, details.binary_path)),
        ..nothing
    };
    if w.on_path is Some {
        Outcome { result: Ok(w.on_path.unwrap()), ..nothing }
    } else if cached is Some && (w.is_file)(cached.unwrap()) {
        Outcome { result: Ok(cached.unwrap()), ..nothing }
    } else if w.release is Err {
        Outcome { result: Err(no_release(version, w.release->Err_0)), ..nothing }
    } else if asset_url(w.release->Ok_0, details.asset_name) is None {
        Outcome { result: Err(no_asset(version, details.asset_name)), ..nothing }
    } else if (w.is_file)(details.binary_path) {
        installed
    } else if w.download is Err {
        Outcome {
            result: Err("Failed to download hex-ls: "@ + w.download->Err_0),
            downloaded: true,
            ..nothing
        }
    } else if needs_executable_bit(platform) && w.executable is Err {
        Outcome {
            result: Err("Failed to make hex-ls executable: "@ + w.executable->Err_0),
            downloaded: true,
            ..nothing
        }
    } else if w.listing is Err {
        Outcome {
            result: Err("Failed to list working directory: "@ + w.listing->Err_0),
            downloaded: true,
            ..nothing
        }
    } else {
        let removed = stale_entries(w.entries, details.extract_dir);
        match unreadable(w.entries) {
            Some(e) => Outcome {
                result: Err("Failed to read directory entry: "@ + e),
                downloaded: true,
                removed,
                ..nothing
            },
            None => Outcome { downloaded: true, removed, ..installed },
        }
    }
}

/// Cleaning up goes through the entries to the end, or to the first one that
/// cannot be read.
proof fn lemma_cleaning(
    w: World,
    s: SearchView,
    entries: Seq<Result<Option<Seq<char>>, Seq<char>>>,
    name: Option<Seq<char>>,
    so_far: Outcome,
)
    requires
        s.stage == StageView::Cleaning,
    ensures
        run(w, s, entries, name, so_far) == (match unreadable(entries) {
            Some(e) => Outcome {
                result: Err("Failed to read directory entry: "@ + e),
                removed: so_far.removed + stale_entries(entries, s.details.extract_dir),
                ..so_far
            },
            None => Outcome {
                result: Ok(s.details.binary_path),
                cached: Some(remembered_path(s)),
                removed: so_far.removed + stale_entries(entries, s.details.extract_dir),
                ..so_far
            },
        }),
    decreases entries.len(),
{
    reveal_with_fuel(run, 3);
    let dir = s.details.extract_dir;
    if entries.len() == 0 {
        assert(so_far.removed + stale_entries(entries, dir) =~= so_far.removed);
    } else {
        let rest = entries.drop_first();
        match entries[0] {
            Ok(n) => {
                if n == Some(dir) {
                    lemma_cleaning(w, s, rest, n, so_far);
                } else {
                    let done = Outcome { removed: so_far.removed.push(n), ..so_far };
                    lemma_cleaning(w, s, rest, n, done);
                    assert(done.removed + stale_entries(rest, dir) =~= so_far.removed
                        + stale_entries(entries, dir));
                }
            },
            Err(e) => {
                assert(so_far.removed + stale_entries(entries, dir) =~= so_far.removed);
            },
        }
    }
}

/// A search, answered by the world step by step, always comes to its end, and
/// comes to what `outcome_of` says: a binary on `PATH` is preferred, the one
/// found last is used again while it is there, and what is remembered changes
/// only with the success of an installation.
pub proof fn law_search_comes_to_its_outcome(
    w: World,
    version: Seq<char>,
    platform: Os,
    arch: Architecture,
    work_dir: Seq<char>,
    cached: Option<Seq<char>>,
)
    ensures
        ({
            let details = details_for(platform, arch, version);
            let start = SearchView {
                version,
                platform,
                work_dir,
                details,
                stage: StageView::Searching,
            };
            let so_far = Outcome {
                result: Err(Seq::empty()),
                cached,
                downloaded: false,
                removed: Seq::empty(),
            };
            run(w, start, w.entries, None, so_far) == outcome_of(
                w,
                version,
                platform,
                work_dir,
                details,
                cached,
            )
        }),
{
    reveal_with_fuel(run, 9);
    let details = details_for(platform, arch, version);
    let cleaning = SearchView {
        version,
        platform,
        work_dir,
        details,
        stage: StageView::Cleaning,
    };
    let downloaded = Outcome {
        result: Err(Seq::empty()),
        cached,
        downloaded: true,
        removed: Seq::empty(),
    };
    lemma_cleaning(w, cleaning, w.entries, None, downloaded);
    assert(downloaded.removed + stale_entries(w.entries, details.extract_dir) =~= stale_entries(
        w.entries,
        details.extract_dir,
    ));
}

/// Cleaning up never removes the directory of the version just installed.
pub proof fn law_cleaning_spares_the_new_version(
    w: World,
    version: Seq<char>,
    platform: Os,
    work_dir: Seq<char>,
    details: DetailsView,
    cached: Option<Seq<char>>,
)
    ensures
        !outcome_of(w, version, platform, work_dir, details, cached).removed.contains(
            Some(details.extract_dir),
        ),
{
    lemma_stale_entries(w.entries, details.extract_dir);
}

proof fn lemma_stale_entries(
    entries: Seq<Result<Option<Seq<char>>, Seq<char>>>,
    dir: Seq<char>,
)
    ensures
        !stale_entries(entries, dir).contains(Some(dir)),
    decreases entries.len(),
{
    if entries.len() > 0 {
        lemma_stale_entries(entries.drop_first(), dir);
        let rest = stale_entries(entries.drop_first(), dir);
        match entries[0] {
            Ok(name) => {
                if name != Some(dir) && stale_entries(entries, dir).contains(Some(dir)) {
                    let i = choose|i: int|
                        0 <= i < stale_entries(entries, dir).len() && stale_entries(entries, dir)[i]
                            == Some(dir);
                    assert(rest[i - 1] == Some(dir));
                }
            },
            Err(e) => {},
        }
    }
}

/// A file is downloaded only if there is no binary on `PATH`, none that was
/// found before and none on disk.
pub proof fn law_download_only_if_needed(
    w: World,
    version: Seq<char>,
    platform: Os,
    work_dir: Seq<char>,
    details: DetailsView,
    cached: Option<Seq<char>>,
)
    ensures
        outcome_of(w, version, platform, work_dir, details, cached).downloaded ==> {
            &&& w.on_path is None
            &&& cached is Some ==> !(w.is_file)(cached.unwrap())
            &&& !(w.is_file)(details.binary_path)
        },
        !outcome_of(w, version, platform, work_dir, details, cached).downloaded ==> outcome_of(
            w,
            version,
            platform,
            work_dir,
            details,
            cached,
        ).removed.len() == 0,
{
}

/// What a search has installed or found on disk is used again by the next one,
/// as long as it is there and `PATH` does not offer another: nothing is
/// downloaded again.
pub proof fn law_next_search_uses_the_binary_again(
    w1: World,
    w2: World,
    version: Seq<char>,
    platform: Os,
    work_dir: Seq<char>,
    details: DetailsView,
    cached: Option<Seq<char>>,
)
    ensures
        ({
            let first = outcome_of(w1, version, platform, work_dir, details, cached);
            let second = outcome_of(w2, version, platform, work_dir, details, first.cached);
            &&& w1.on_path is None && first.result is Ok ==> first.cached == Some(
                first.result->Ok_0,
            ) || (first.result == Ok::<Seq<char>, Seq<char>>(details.binary_path) && first.cached
                == Some(path_in(platform, work_dir, details.binary_path)))
            &&& w2.on_path is None && first.cached is Some && (w2.is_file)(first.cached.unwrap())
                ==> second.result == Ok::<Seq<char>, Seq<char>>(first.cached.unwrap())
                && !second.downloaded && second.cached == first.cached
        }),
{
}

/// A search that fails leaves what is remembered as it was.
pub proof fn law_failure_remembers_nothing_new(
    w: World,
    version: Seq<char>,
    platform: Os,
    work_dir: Seq<char>,
    details: DetailsView,
    cached: Option<Seq<char>>,
)
    ensures
        outcome_of(w, version, platform, work_dir, details, cached).result is Err ==> outcome_of(
            w,
            version,
            platform,
            work_dir,
            details,
            cached,
        ).cached == cached,
{
}

/// What is remembered is always an absolute path, if the working directory is
/// one. A search that finds the binary on disk or installs it remembers where
/// it lies in the working directory.
pub proof fn law_remembered_path_is_absolute(
    w: World,
    version: Seq<char>,
    platform: Os,
    work_dir: Seq<char>,
    details: DetailsView,
    cached: Option<Seq<char>>,
)
    requires
        is_absolute(platform, work_dir),
        cached matches Some(path) ==> is_absolute(platform, path),
    ensures
        ({
            let o = outcome_of(w, version, platform, work_dir, details, cached);
            &&& o.cached matches Some(path) ==> is_absolute(platform, path)
            &&& w.on_path is None && cached is None && o.result is Ok ==> o.cached == Some(
                work_dir + separator(platform) + details.binary_path,
            )
        }),
{
}

} // verus!
