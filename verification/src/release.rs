//! Which file of a release belongs to which platform, and where it lands.

use crate::text::{cat, cat3};
use vstd::prelude::*;
use vstd::string::*;

verus! {

/// An operating system.
#[derive(Clone, Copy, Debug, PartialEq, Eq, Structural)]
pub enum Os {
    Mac,
    Linux,
    Windows,
}

/// A processor architecture.
#[derive(Clone, Copy, Debug, PartialEq, Eq, Structural)]
pub enum Architecture {
    Aarch64,
    X86,
    X8664,
}

/// How a downloaded file is to be read.
#[derive(Clone, Copy, Debug, PartialEq, Eq, Structural)]
pub enum DownloadedFileType {
    /// A gzipped tar archive (`.tar.gz`).
    GzipTar,
    /// A ZIP file (`.zip`).
    Zip,
}

/// Which file of a release to download, and where it lands on disk once it is
/// extracted.
///
/// | Platform | Archive   | Inside the archive       | On disk                               |
/// |----------|-----------|--------------------------|---------------------------------------|
/// | Unix     | `.tar.gz` | `hex-ls-<target>/hex-ls` | `hex-ls-<ver>/hex-ls-<target>/hex-ls` |
/// | Windows  | `.zip`    | `hex-ls.exe`             | `hex-ls-<ver>/hex-ls.exe`             |
pub struct ReleaseDetails {
    /// The name of the file in the release.
    pub asset_name: String,
    /// How the downloaded file is to be read.
    pub file_type: DownloadedFileType,
    /// The directory that the archive is extracted into. It names the version,
    /// so that older versions are superseded.
    pub extract_dir: String,
    /// The path of the `hex-ls` binary.
    pub binary_path: String,
}

/// A `ReleaseDetails` over characters.
pub struct DetailsView {
    pub asset_name: Seq<char>,
    pub file_type: DownloadedFileType,
    pub extract_dir: Seq<char>,
    pub binary_path: Seq<char>,
}

impl View for ReleaseDetails {
    type V = DetailsView;

    open spec fn view(&self) -> DetailsView {
        DetailsView {
            asset_name: self.asset_name@,
            file_type: self.file_type,
            extract_dir: self.extract_dir@,
            binary_path: self.binary_path@,
        }
    }
}

/// The name of an architecture in a target triple.
pub open spec fn arch_name(arch: Architecture) -> Seq<char> {
    match arch {
        Architecture::Aarch64 => "aarch64"@,
        Architecture::X86 => "x86"@,
        Architecture::X8664 => "x86_64"@,
    }
}

/// The name of an operating system in a target triple.
pub open spec fn os_name(os: Os) -> Seq<char> {
    match os {
        Os::Mac => "apple-darwin"@,
        Os::Linux => "unknown-linux-gnu"@,
        Os::Windows => "pc-windows-msvc"@,
    }
}

/// The name of a file in a release, without its suffix.
pub open spec fn asset_stem(os: Os, arch: Architecture) -> Seq<char> {
    "hex-ls-"@ + arch_name(arch) + "-"@ + os_name(os)
}

/// The directory of a version.
pub open spec fn version_dir(version: Seq<char>) -> Seq<char> {
    "hex-ls-"@ + version
}

/// What to download for a platform, and where it lands.
pub open spec fn details_for(os: Os, arch: Architecture, version: Seq<char>) -> DetailsView {
    let stem = asset_stem(os, arch);
    let dir = version_dir(version);
    match os {
        Os::Mac | Os::Linux => DetailsView {
            asset_name: stem + ".tar.gz"@,
            file_type: DownloadedFileType::GzipTar,
            extract_dir: dir,
            binary_path: dir + "/"@ + stem + "/hex-ls"@,
        },
        Os::Windows => DetailsView {
            asset_name: stem + ".zip"@,
            file_type: DownloadedFileType::Zip,
            extract_dir: dir,
            binary_path: dir + "/hex-ls.exe"@,
        },
    }
}

impl ReleaseDetails {
    /// What to download for a platform, and where it lands.
    pub fn new(platform: Os, arch: Architecture, version: &str) -> (r: Self)
        ensures
            r@ == details_for(platform, arch, version@),
    {
        let arch_str: &str = match arch {
            Architecture::Aarch64 => "aarch64",
            Architecture::X86 => "x86",
            Architecture::X8664 => "x86_64",
        };
        let os_str: &str = match platform {
            Os::Mac => "apple-darwin",
            Os::Linux => "unknown-linux-gnu",
            Os::Windows => "pc-windows-msvc",
        };
        let mut stem: String = cat3("hex-ls-", arch_str, "-");
        stem.append(os_str);
        let extract_dir: String = cat("hex-ls-", version);
        match platform {
            Os::Mac | Os::Linux => {
                let mut binary_path: String = cat3(extract_dir.as_str(), "/", stem.as_str());
                binary_path.append("/hex-ls");
                ReleaseDetails {
                    asset_name: cat(stem.as_str(), ".tar.gz"),
                    file_type: DownloadedFileType::GzipTar,
                    extract_dir,
                    binary_path,
                }
            },
            Os::Windows => {
                let binary_path: String = cat(extract_dir.as_str(), "/hex-ls.exe");
                ReleaseDetails {
                    asset_name: cat(stem.as_str(), ".zip"),
                    file_type: DownloadedFileType::Zip,
                    extract_dir,
                    binary_path,
                }
            },
        }
    }
}

/// Two versions never share a directory, whatever the platforms.
pub proof fn law_versions_have_their_own_directories(
    os1: Os,
    arch1: Architecture,
    v1: Seq<char>,
    os2: Os,
    arch2: Architecture,
    v2: Seq<char>,
)
    ensures
        details_for(os1, arch1, v1).extract_dir == details_for(os2, arch2, v2).extract_dir <==> v1
            == v2,
{
    let d1 = version_dir(v1);
    let d2 = version_dir(v2);
    let n = "hex-ls-"@.len() as int;
    if d1 == d2 {
        assert(d1.skip(n) =~= v1);
        assert(d2.skip(n) =~= v2);
    }
}

/// The binary lies inside the directory of its version.
pub proof fn law_binary_lies_in_its_directory(os: Os, arch: Architecture, version: Seq<char>)
    ensures
        ({
            let d = details_for(os, arch, version);
            (d.extract_dir + "/"@).is_prefix_of(d.binary_path)
        }),
{
    let d = details_for(os, arch, version);
    reveal_strlit("/");
    reveal_strlit("/hex-ls.exe");
    assert(d.binary_path.take((d.extract_dir + "/"@).len() as int) =~= d.extract_dir + "/"@);
}

/// No two platforms share a file of a release.
pub proof fn law_platforms_have_their_own_assets(
    os1: Os,
    arch1: Architecture,
    os2: Os,
    arch2: Architecture,
    version: Seq<char>,
)
    ensures
        details_for(os1, arch1, version).asset_name == details_for(os2, arch2, version).asset_name
            <==> os1 == os2 && arch1 == arch2,
{
    reveal_strlit("hex-ls-");
    reveal_strlit("-");
    reveal_strlit("aarch64");
    reveal_strlit("x86");
    reveal_strlit("x86_64");
    reveal_strlit("apple-darwin");
    reveal_strlit("unknown-linux-gnu");
    reveal_strlit("pc-windows-msvc");
    reveal_strlit(".tar.gz");
    reveal_strlit(".zip");
    let a = details_for(os1, arch1, version).asset_name;
    let b = details_for(os2, arch2, version).asset_name;
    if a == b {
        // The architecture shows in the first characters behind the prefix, the
        // system in the first one behind the architecture.
        assert(a[7] == b[7]);
        assert(a[10] == b[10]);
        let k = 7 + arch_name(arch1).len() as int;
        assert(arch1 == arch2);
        assert(a[k + 1] == os_name(os1)[0]);
        assert(b[k + 1] == os_name(os2)[0]);
    }
}

} // verus!
