//! How the editor extension starts the language server.
use vstd::prelude::*;
use crate::settings::{
    bool_text, owned, pairs_view, CopyJsonPathSettings, NON_QUOTED_KEY_REGEX_VAR,
    PATH_SEPARATOR_VAR, PREFIX_SEPARATOR_VAR, PUT_FILE_NAME_IN_PATH_VAR,
};
use crate::text::{push_str, str_equals};

verus! {

/// The name of the language server, and of its binary.
pub const LANGUAGE_SERVER_NAME: &'static str = "json-path-lsp";

/// The program to run, its arguments and its environment.
pub struct ServerCommand {
    pub command: String,
    pub args: Vec<String>,
    pub env: Vec<(String, String)>,
}

/// The environment that hands `settings` to the language server.
pub open spec fn settings_env(settings: CopyJsonPathSettings) -> Seq<(Seq<char>, Seq<char>)> {
    seq![
        (NON_QUOTED_KEY_REGEX_VAR@, settings.non_quoted_key_regex@),
        (PUT_FILE_NAME_IN_PATH_VAR@, bool_text(settings.put_file_name_in_path)),
        (PREFIX_SEPARATOR_VAR@, settings.prefix_separator@),
        (PATH_SEPARATOR_VAR@, settings.path_separator@),
    ]
}

/// Whether `language_server_id` names this language server.
pub fn is_json_path_server(language_server_id: &str) -> (yes: bool)
    ensures
        yes == (language_server_id@ == LANGUAGE_SERVER_NAME@),
{
    str_equals(language_server_id, LANGUAGE_SERVER_NAME)
}

/// The command that starts the language server `language_server_id`: only
/// `json-path-lsp` is known, and it runs `binary` (the binary found on the path or
/// downloaded, or why there is none) with no arguments and the settings in its environment.
pub fn language_server_command(
    language_server_id: &str,
    binary: Result<String, String>,
    settings: &CopyJsonPathSettings,
) -> (res: Result<ServerCommand, String>)
    ensures
        language_server_id@ != LANGUAGE_SERVER_NAME@ ==> (res matches Err(e) && e@
            == "unknown language server: "@ + language_server_id@),
        language_server_id@ == LANGUAGE_SERVER_NAME@ ==> (match binary {
            Ok(path) => res matches Ok(command) && command.command@ == path@
                && command.args@.len() == 0 && pairs_view(command.env@) == settings_env(*settings),
            Err(error) => res matches Err(e) && e@ == error@,
        }),
{
    if !is_json_path_server(language_server_id) {
        let mut e = String::new();
        push_str(&mut e, "unknown language server: ");
        push_str(&mut e, language_server_id);
        assert(e@ =~= "unknown language server: "@ + language_server_id@);
        return Err(e);
    }
    match binary {
        Ok(command) => Ok(ServerCommand { command, args: Vec::new(), env: settings.env() }),
        Err(error) => Err(error),
    }
}

/// The operating systems that Zed reports.
#[derive(PartialEq, Eq, Structural, Clone, Copy)]
pub enum HostOs {
    Mac,
    Linux,
    Windows,
}

/// The architectures that Zed reports.
#[derive(PartialEq, Eq, Structural, Clone, Copy)]
pub enum HostArch {
    Aarch64,
    X86,
    X8664,
}

/// The name of the release asset that holds the language server for a platform; releases
/// carry none for 32-bit x86.
pub open spec fn asset_name_spec(os: HostOs, arch: HostArch) -> Option<Seq<char>> {
    match (os, arch) {
        (HostOs::Mac, HostArch::Aarch64) => Some("json-path-lsp-macos-aarch64"@),
        (HostOs::Mac, HostArch::X8664) => Some("json-path-lsp-macos-x86_64"@),
        (HostOs::Linux, HostArch::Aarch64) => Some("json-path-lsp-linux-aarch64"@),
        (HostOs::Linux, HostArch::X8664) => Some("json-path-lsp-linux-x86_64"@),
        (HostOs::Windows, HostArch::Aarch64) => Some("json-path-lsp-windows-aarch64.exe"@),
        (HostOs::Windows, HostArch::X8664) => Some("json-path-lsp-windows-x86_64.exe"@),
        (_, HostArch::X86) => None,
    }
}

/// The name of the release asset that holds the language server for `os` and `arch`.
pub fn release_asset_name(os: HostOs, arch: HostArch) -> (name: Option<String>)
    ensures
        (match asset_name_spec(os, arch) {
            Some(expected) => name matches Some(found) && found@ == expected,
            None => name is None,
        }),
{
    match (os, arch) {
        (HostOs::Mac, HostArch::Aarch64) => Some(owned("json-path-lsp-macos-aarch64")),
        (HostOs::Mac, HostArch::X8664) => Some(owned("json-path-lsp-macos-x86_64")),
        (HostOs::Linux, HostArch::Aarch64) => Some(owned("json-path-lsp-linux-aarch64")),
        (HostOs::Linux, HostArch::X8664) => Some(owned("json-path-lsp-linux-x86_64")),
        (HostOs::Windows, HostArch::Aarch64) => Some(owned("json-path-lsp-windows-aarch64.exe")),
        (HostOs::Windows, HostArch::X8664) => Some(owned("json-path-lsp-windows-x86_64.exe")),
        (_, HostArch::X86) => None,
    }
}

/// An asset of a GitHub release: its name and where to download it.
pub struct ReleaseAsset {
    pub name: String,
    pub download_url: String,
}

/// What to do next to have a language server binary.
pub enum BinaryStep {
    /// Run the binary at this path.
    Run(String),
    /// Ask for the latest GitHub release and its assets.
    FetchLatestRelease,
    /// Download `url` to the file `file`, make it executable and run it.
    Download { url: String, file: String },
    /// There is no binary; the error says why.
    Fail(String),
}

/// The first asset at or after `i` named `name`.
pub open spec fn asset_index(assets: Seq<ReleaseAsset>, name: Seq<char>, i: int) -> Option<int>
    decreases assets.len() - i,
{
    if !(0 <= i < assets.len()) {
        None
    } else if assets[i].name@ == name {
        Some(i)
    } else {
        asset_index(assets, name, i + 1)
    }
}

/// The error when a platform has no release asset.
pub open spec fn unsupported_platform_message() -> Seq<char> {
    "json-path-lsp has no release for this platform"@
}

/// The error when the latest release lacks the platform's asset.
pub open spec fn missing_asset_message(name: Seq<char>) -> Seq<char> {
    "the latest release has no asset `"@ + name + "`"@
}

/// The next step towards a language server binary: the binary found on the path when
/// there is one; else the latest release, once it is known; else its asset for this
/// platform, downloaded under the asset's name.
pub fn binary_step(
    found: Option<String>,
    release: Option<Result<Vec<ReleaseAsset>, String>>,
    os: HostOs,
    arch: HostArch,
) -> (step: BinaryStep)
    ensures
        (match found {
            Some(path) => step matches BinaryStep::Run(p) && p@ == path@,
            None => match release {
                None => step is FetchLatestRelease,
                Some(Err(error)) => step matches BinaryStep::Fail(e) && e@ == error@,
                Some(Ok(assets)) => match asset_name_spec(os, arch) {
                    None => step matches BinaryStep::Fail(e) && e@ == unsupported_platform_message(),
                    Some(name) => match asset_index(assets@, name, 0) {
                        Some(i) => step matches BinaryStep::Download { url, file } && url@
                            == assets@[i].download_url@ && file@ == name,
                        None => step matches BinaryStep::Fail(e) && e@ == missing_asset_message(name),
                    },
                },
            },
        }),
{
    if let Some(path) = found {
        return BinaryStep::Run(path);
    }
    let assets = match release {
        None => return BinaryStep::FetchLatestRelease,
        Some(Err(error)) => return BinaryStep::Fail(error),
        Some(Ok(assets)) => assets,
    };
    let name = match release_asset_name(os, arch) {
        Some(name) => name,
        None => return BinaryStep::Fail(owned("json-path-lsp has no release for this platform")),
    };
    let mut i: usize = 0;
    while i < assets.len()
        invariant
            i <= assets@.len(),
            found is None,
            release == Some(Ok::<Vec<ReleaseAsset>, String>(assets)),
            asset_name_spec(os, arch) == Some(name@),
            asset_index(assets@, name@, 0) == asset_index(assets@, name@, i as int),
        decreases assets@.len() - i,
    {
        if str_equals(assets[i].name.as_str(), name.as_str()) {
            let url = assets[i].download_url.clone();
            return BinaryStep::Download { url, file: name };
        }
        i = i + 1;
    }
    let mut e = String::new();
    push_str(&mut e, "the latest release has no asset `");
    push_str(&mut e, name.as_str());
    push_str(&mut e, "`");
    assert(e@ =~= missing_asset_message(name@));
    BinaryStep::Fail(e)
}

} // verus!
