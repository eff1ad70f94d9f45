use hex_ls::install::{
    Action, Asset, Event, HexIntelliSenseExtension, InstallationStatus, Search,
};
use hex_ls::release::{Architecture, DownloadedFileType, Os};

const ASSET: &str = "hex-ls-x86_64-unknown-linux-gnu.tar.gz";
const BINARY: &str = "hex-ls-0.5.0/hex-ls-x86_64-unknown-linux-gnu/hex-ls";
const WORK_DIR: &str = "/home/zed/work";
const ABSOLUTE: &str =
    "/home/zed/work/hex-ls-0.5.0/hex-ls-x86_64-unknown-linux-gnu/hex-ls";

fn begin(extension: &HexIntelliSenseExtension) -> Search {
    extension.language_server_binary_path("0.5.0", Os::Linux, Architecture::X8664, WORK_DIR)
}

fn release() -> Event {
    Event::ReleaseFetched {
        assets: Ok(vec![
            Asset { name: "extension.wasm".to_string(), download_url: "w".to_string() },
            Asset { name: ASSET.to_string(), download_url: "first".to_string() },
            Asset { name: ASSET.to_string(), download_url: "second".to_string() },
        ]),
    }
}

fn entry(name: &str) -> Event {
    Event::EntryRead { name: Ok(Some(name.to_string())) }
}

fn after(extension: &mut HexIntelliSenseExtension, events: Vec<Event>) -> Search {
    let mut search = begin(extension);
    for event in events {
        search = extension.advance(search, event);
    }
    search
}

fn result(search: &Search) -> Result<String, String> {
    match search.action() {
        Action::Finish { result } => result,
        _ => panic!("the search has not come to its end"),
    }
}

fn up_to_download() -> Vec<Event> {
    vec![
        Event::PathSearched { found: None },
        release(),
        Event::FileChecked { is_file: false },
    ]
}

fn up_to_cleaning() -> Vec<Event> {
    let mut events = up_to_download();
    events.push(Event::Downloaded { done: Ok(()) });
    events.push(Event::MadeExecutable { done: Ok(()) });
    events.push(Event::Listed { done: Ok(()) });
    events
}

#[test]
fn a_binary_on_the_path_goes_first() {
    let mut extension = HexIntelliSenseExtension::new();
    extension.cached_binary_path = Some("cached".to_string());
    let search = begin(&extension);
    assert!(matches!(search.action(), Action::FindOnPath { name } if name == "hex-ls"));
    assert_eq!(search.status(), None);
    let search = extension.advance(
        search,
        Event::PathSearched { found: Some("/usr/bin/hex-ls".to_string()) },
    );
    assert_eq!(result(&search), Ok("/usr/bin/hex-ls".to_string()));
    assert_eq!(extension.cached_binary_path, Some("cached".to_string()));
}

#[test]
fn the_binary_found_last_is_used_again() {
    let mut extension = HexIntelliSenseExtension::new();
    extension.cached_binary_path = Some("cached".to_string());
    let search = after(&mut extension, vec![Event::PathSearched { found: None }]);
    assert!(matches!(search.action(), Action::CheckFile { path } if path == "cached"));
    let search = extension.advance(search, Event::FileChecked { is_file: true });
    assert_eq!(result(&search), Ok("cached".to_string()));
    assert_eq!(extension.cached_binary_path, Some("cached".to_string()));

    // Unless it is gone.
    let search = after(
        &mut extension,
        vec![Event::PathSearched { found: None }, Event::FileChecked { is_file: false }],
    );
    assert!(matches!(search.action(), Action::FetchRelease { .. }));
}

#[test]
fn the_release_of_the_same_version_is_asked_for() {
    let mut extension = HexIntelliSenseExtension::new();
    let search = after(&mut extension, vec![Event::PathSearched { found: None }]);
    assert_eq!(search.status(), Some(InstallationStatus::CheckingForUpdate));
    match search.action() {
        Action::FetchRelease { repo, tag } => {
            assert_eq!(repo, "timothyvanderaerden/zed-hex-intellisense");
            assert_eq!(tag, "v0.5.0");
        }
        _ => panic!("expected to ask for the release"),
    }
    let search = extension.advance(
        search,
        Event::ReleaseFetched { assets: Err("404".to_string()) },
    );
    assert_eq!(
        result(&search),
        Err("No hex-ls release found for v0.5.0: 404".to_string())
    );
    assert_eq!(extension.cached_binary_path, None);
}

#[test]
fn a_release_without_a_file_for_the_platform() {
    let mut extension = HexIntelliSenseExtension::new();
    let search = after(
        &mut extension,
        vec![
            Event::PathSearched { found: None },
            Event::ReleaseFetched { assets: Ok(Vec::new()) },
        ],
    );
    assert_eq!(
        result(&search),
        Err(
            "hex-ls release 0.5.0 has no asset named \"hex-ls-x86_64-unknown-linux-gnu.tar.gz\". \
             Until prebuilt binaries are available you can build from source: \
             cargo install --git https://github.com/timothyvanderaerden/zed-hex-intellisense hex-ls"
                .to_string()
        )
    );
}

#[test]
fn a_binary_on_disk_is_not_downloaded_again() {
    let mut extension = HexIntelliSenseExtension::new();
    let search = after(&mut extension, vec![Event::PathSearched { found: None }, release()]);
    assert!(matches!(search.action(), Action::CheckFile { path } if path == BINARY));
    assert_eq!(search.status(), None);
    let search = extension.advance(search, Event::FileChecked { is_file: true });
    assert_eq!(result(&search), Ok(BINARY.to_string()));
    assert_eq!(extension.cached_binary_path, Some(ABSOLUTE.to_string()));

    // The next search uses it again.
    let search = after(&mut extension, vec![Event::PathSearched { found: None }]);
    assert!(matches!(search.action(), Action::CheckFile { path } if path == ABSOLUTE));
    let search = extension.advance(search, Event::FileChecked { is_file: true });
    assert_eq!(result(&search), Ok(ABSOLUTE.to_string()));
    assert_eq!(extension.cached_binary_path, Some(ABSOLUTE.to_string()));
}

#[test]
fn a_whole_installation() {
    let mut extension = HexIntelliSenseExtension::new();
    let search = after(&mut extension, up_to_download());
    assert_eq!(search.status(), Some(InstallationStatus::Downloading));
    match search.action() {
        Action::Download { url, dir, file_type } => {
            assert_eq!(url, "first");
            assert_eq!(dir, "hex-ls-0.5.0");
            assert_eq!(file_type, DownloadedFileType::GzipTar);
        }
        _ => panic!("expected a download"),
    }
    let search = extension.advance(search, Event::Downloaded { done: Ok(()) });
    assert!(matches!(search.action(), Action::MakeExecutable { path } if path == BINARY));
    let search = extension.advance(search, Event::MadeExecutable { done: Ok(()) });
    assert!(matches!(search.action(), Action::ListDirectory));
    let search = extension.advance(search, Event::Listed { done: Ok(()) });

    // The directory of this version stays, everything else goes.
    assert!(matches!(search.action(), Action::NextEntry));
    let search = extension.advance(search, entry("hex-ls-0.5.0"));
    assert!(matches!(search.action(), Action::NextEntry));
    let search = extension.advance(search, entry("hex-ls-0.4.0"));
    assert!(matches!(search.action(), Action::RemoveEntry));
    let search = extension.advance(search, Event::EntryRemoved);
    assert!(matches!(search.action(), Action::NextEntry));
    let search = extension.advance(search, Event::EntryRead { name: Ok(None) });
    assert!(matches!(search.action(), Action::RemoveEntry));
    let search = extension.advance(search, Event::EntryRemoved);
    assert_eq!(extension.cached_binary_path, None);
    let search = extension.advance(search, Event::NoMoreEntries);
    assert_eq!(result(&search), Ok(BINARY.to_string()));
    assert_eq!(extension.cached_binary_path, Some(ABSOLUTE.to_string()));
}

#[test]
fn every_step_of_an_installation_can_fail() {
    let failures = vec![
        (
            up_to_download(),
            Event::Downloaded { done: Err("offline".to_string()) },
            "Failed to download hex-ls: offline",
        ),
        (
            {
                let mut events = up_to_download();
                events.push(Event::Downloaded { done: Ok(()) });
                events
            },
            Event::MadeExecutable { done: Err("denied".to_string()) },
            "Failed to make hex-ls executable: denied",
        ),
        (
            {
                let mut events = up_to_download();
                events.push(Event::Downloaded { done: Ok(()) });
                events.push(Event::MadeExecutable { done: Ok(()) });
                events
            },
            Event::Listed { done: Err("gone".to_string()) },
            "Failed to list working directory: gone",
        ),
        (
            up_to_cleaning(),
            Event::EntryRead { name: Err("broken".to_string()) },
            "Failed to read directory entry: broken",
        ),
    ];
    for (events, last, message) in failures {
        let mut extension = HexIntelliSenseExtension::new();
        let search = after(&mut extension, events);
        let search = extension.advance(search, last);
        assert_eq!(result(&search), Err(message.to_string()));
        assert_eq!(extension.cached_binary_path, None);
    }
}

#[test]
fn windows_needs_no_executable_bit() {
    let mut extension = HexIntelliSenseExtension::new();
    let mut search = extension.language_server_binary_path(
        "0.5.0",
        Os::Windows,
        Architecture::X8664,
        "C:\\zed",
    );
    let asset = Asset {
        name: "hex-ls-x86_64-pc-windows-msvc.zip".to_string(),
        download_url: "zip".to_string(),
    };
    for event in [
        Event::PathSearched { found: None },
        Event::ReleaseFetched { assets: Ok(vec![asset]) },
        Event::FileChecked { is_file: false },
    ] {
        search = extension.advance(search, event);
    }
    assert!(matches!(
        search.action(),
        Action::Download { file_type: DownloadedFileType::Zip, .. }
    ));
    let search = extension.advance(search, Event::Downloaded { done: Ok(()) });
    assert!(matches!(search.action(), Action::ListDirectory));
    let search = extension.advance(search, Event::Listed { done: Ok(()) });
    let search = extension.advance(search, Event::NoMoreEntries);
    assert_eq!(result(&search), Ok("hex-ls-0.5.0/hex-ls.exe".to_string()));
    assert_eq!(
        extension.cached_binary_path,
        Some("C:\\zed\\hex-ls-0.5.0/hex-ls.exe".to_string())
    );
}

#[test]
fn an_event_that_is_not_waited_for_changes_nothing() {
    let mut extension = HexIntelliSenseExtension::new();
    let search = begin(&extension);
    let search = extension.advance(search, Event::NoMoreEntries);
    assert!(matches!(search.action(), Action::FindOnPath { .. }));
    assert_eq!(extension.cached_binary_path, None);
}

#[test]
fn the_command_is_the_bare_binary() {
    let command = HexIntelliSenseExtension::language_server_command(Ok(BINARY.to_string()));
    match command {
        Ok(command) => {
            assert_eq!(command.command, BINARY);
            assert!(command.args.is_empty());
            assert!(command.env.is_empty());
        }
        Err(_) => panic!("expected a command"),
    }
    let failed = HexIntelliSenseExtension::language_server_command(Err("why".to_string()));
    assert!(matches!(failed, Err(reason) if reason == "why"));
}
