use json_path::{binary_step, is_json_path_server, release_asset_name, BinaryStep, HostArch, HostOs, ReleaseAsset};

fn asset(name: &str) -> ReleaseAsset {
    ReleaseAsset { name: name.to_string(), download_url: format!("https://example.invalid/{name}") }
}

#[test]
fn asset_names_per_platform() {
    assert_eq!(release_asset_name(HostOs::Mac, HostArch::Aarch64).as_deref(), Some("json-path-lsp-macos-aarch64"));
    assert_eq!(release_asset_name(HostOs::Mac, HostArch::X8664).as_deref(), Some("json-path-lsp-macos-x86_64"));
    assert_eq!(release_asset_name(HostOs::Linux, HostArch::Aarch64).as_deref(), Some("json-path-lsp-linux-aarch64"));
    assert_eq!(release_asset_name(HostOs::Linux, HostArch::X8664).as_deref(), Some("json-path-lsp-linux-x86_64"));
    assert_eq!(
        release_asset_name(HostOs::Windows, HostArch::Aarch64).as_deref(),
        Some("json-path-lsp-windows-aarch64.exe")
    );
    assert_eq!(
        release_asset_name(HostOs::Windows, HostArch::X8664).as_deref(),
        Some("json-path-lsp-windows-x86_64.exe")
    );
    assert_eq!(release_asset_name(HostOs::Linux, HostArch::X86), None);
}

#[test]
fn binary_on_path_is_used() {
    match binary_step(Some("/usr/bin/json-path-lsp".into()), None, HostOs::Linux, HostArch::X8664) {
        BinaryStep::Run(path) => assert_eq!(path, "/usr/bin/json-path-lsp"),
        _ => panic!("expected the binary on the path"),
    }
}

#[test]
fn missing_binary_asks_for_the_release() {
    assert!(matches!(
        binary_step(None, None, HostOs::Mac, HostArch::Aarch64),
        BinaryStep::FetchLatestRelease
    ));
}

#[test]
fn platform_asset_is_downloaded() {
    let assets = vec![asset("json-path-lsp-macos-aarch64"), asset("json-path-lsp-linux-x86_64")];
    match binary_step(None, Some(Ok(assets)), HostOs::Linux, HostArch::X8664) {
        BinaryStep::Download { url, file } => {
            assert_eq!(url, "https://example.invalid/json-path-lsp-linux-x86_64");
            assert_eq!(file, "json-path-lsp-linux-x86_64");
        }
        _ => panic!("expected a download"),
    }
}

#[test]
fn download_failures() {
    match binary_step(None, Some(Err("rate limited".into())), HostOs::Linux, HostArch::X8664) {
        BinaryStep::Fail(error) => assert_eq!(error, "rate limited"),
        _ => panic!("expected a failure"),
    }
    match binary_step(None, Some(Ok(vec![asset("other")])), HostOs::Windows, HostArch::X8664) {
        BinaryStep::Fail(error) => {
            assert_eq!(error, "the latest release has no asset `json-path-lsp-windows-x86_64.exe`")
        }
        _ => panic!("expected a failure"),
    }
    match binary_step(None, Some(Ok(vec![])), HostOs::Linux, HostArch::X86) {
        BinaryStep::Fail(error) => assert_eq!(error, "json-path-lsp has no release for this platform"),
        _ => panic!("expected a failure"),
    }
}

#[test]
fn server_name_is_recognised() {
    assert!(is_json_path_server("json-path-lsp"));
    assert!(!is_json_path_server("json-path"));
}
