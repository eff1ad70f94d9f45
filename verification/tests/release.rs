use hex_ls::release::{Architecture, DownloadedFileType, Os, ReleaseDetails};

#[test]
fn test_details_mac_aarch64() {
    let d = ReleaseDetails::new(Os::Mac, Architecture::Aarch64, "0.4.0");
    assert_eq!(d.asset_name, "hex-ls-aarch64-apple-darwin.tar.gz");
    assert_eq!(d.file_type, DownloadedFileType::GzipTar);
    assert_eq!(d.extract_dir, "hex-ls-0.4.0");
    assert_eq!(
        d.binary_path,
        "hex-ls-0.4.0/hex-ls-aarch64-apple-darwin/hex-ls"
    );
}

#[test]
fn test_details_mac_x86_64() {
    let d = ReleaseDetails::new(Os::Mac, Architecture::X8664, "0.4.0");
    assert_eq!(d.asset_name, "hex-ls-x86_64-apple-darwin.tar.gz");
    assert_eq!(d.extract_dir, "hex-ls-0.4.0");
    assert_eq!(
        d.binary_path,
        "hex-ls-0.4.0/hex-ls-x86_64-apple-darwin/hex-ls"
    );
}

#[test]
fn test_details_linux_x86_64() {
    let d = ReleaseDetails::new(Os::Linux, Architecture::X8664, "0.4.0");
    assert_eq!(d.asset_name, "hex-ls-x86_64-unknown-linux-gnu.tar.gz");
    assert_eq!(d.file_type, DownloadedFileType::GzipTar);
    assert_eq!(d.extract_dir, "hex-ls-0.4.0");
    assert_eq!(
        d.binary_path,
        "hex-ls-0.4.0/hex-ls-x86_64-unknown-linux-gnu/hex-ls"
    );
}

#[test]
fn test_details_linux_aarch64() {
    let d = ReleaseDetails::new(Os::Linux, Architecture::Aarch64, "1.0.0");
    assert_eq!(d.asset_name, "hex-ls-aarch64-unknown-linux-gnu.tar.gz");
    assert_eq!(d.extract_dir, "hex-ls-1.0.0");
    assert_eq!(
        d.binary_path,
        "hex-ls-1.0.0/hex-ls-aarch64-unknown-linux-gnu/hex-ls"
    );
}

#[test]
fn test_details_windows_x86_64() {
    let d = ReleaseDetails::new(Os::Windows, Architecture::X8664, "0.4.0");
    assert_eq!(d.asset_name, "hex-ls-x86_64-pc-windows-msvc.zip");
    assert_eq!(d.file_type, DownloadedFileType::Zip);
    assert_eq!(d.extract_dir, "hex-ls-0.4.0");
    assert_eq!(d.binary_path, "hex-ls-0.4.0/hex-ls.exe");
}

#[test]
fn details_of_a_32_bit_windows() {
    let d = ReleaseDetails::new(Os::Windows, Architecture::X86, "0.5.0");
    assert_eq!(d.asset_name, "hex-ls-x86-pc-windows-msvc.zip");
    assert_eq!(d.binary_path, "hex-ls-0.5.0/hex-ls.exe");
}

#[test]
fn versions_and_platforms_do_not_share() {
    let systems = [Os::Mac, Os::Linux, Os::Windows];
    let processors = [Architecture::Aarch64, Architecture::X86, Architecture::X8664];
    let mut names: Vec<String> = Vec::new();
    for os in systems {
        for arch in processors {
            let old = ReleaseDetails::new(os, arch, "0.4.0");
            let new = ReleaseDetails::new(os, arch, "0.5.0");
            assert_eq!(old.asset_name, new.asset_name);
            assert_ne!(old.extract_dir, new.extract_dir);
            assert!(new.binary_path.starts_with("hex-ls-0.5.0/"));
            assert!(!names.contains(&new.asset_name));
            names.push(new.asset_name);
        }
    }
    assert_eq!(names.len(), 9);
}
