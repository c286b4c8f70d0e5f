//! How the copied path is written: the settings and where they come from.
use vstd::prelude::*;
use crate::text::{push_str, str_equals};

verus! {

/// The regex of keys that are written without quotes, unless configured otherwise.
pub const DEFAULT_NON_QUOTED_KEY_REGEX: &'static str = "^[a-zA-Z$_][a-zA-Z\\d$_]*$";

/// The separator between path parts, unless configured otherwise.
pub const DEFAULT_PATH_SEPARATOR: &'static str = ".";

/// The separator between the file name and the path, unless configured otherwise.
pub const DEFAULT_PREFIX_SEPARATOR: &'static str = ":";

/// The environment variable that carries `nonQuotedKeyRegex`.
pub const NON_QUOTED_KEY_REGEX_VAR: &'static str = "JSON_PATH_NON_QUOTED_KEY_REGEX";

/// The environment variable that carries `putFileNameInPath`.
pub const PUT_FILE_NAME_IN_PATH_VAR: &'static str = "JSON_PATH_PUT_FILE_NAME_IN_PATH";

/// The environment variable that carries `prefixSeparator`.
pub const PREFIX_SEPARATOR_VAR: &'static str = "JSON_PATH_PREFIX_SEPARATOR";

/// The environment variable that carries `pathSeparator`.
pub const PATH_SEPARATOR_VAR: &'static str = "JSON_PATH_PATH_SEPARATOR";

/// How the copied key path is written.
pub struct CopyJsonPathSettings {
    /// Keys that this regex matches are written bare; the others are quoted in brackets.
    pub non_quoted_key_regex: String,
    /// Whether the file name comes before the path.
    pub put_file_name_in_path: bool,
    /// Between the file name and the path.
    pub prefix_separator: String,
    /// Between the parts of the path.
    pub path_separator: String,
}

/// The values that the editor's settings hold for the four settings, each where it is
/// present with the expected JSON type.
pub struct LspSettingValues {
    pub non_quoted_key_regex: Option<String>,
    pub put_file_name_in_path: Option<bool>,
    pub prefix_separator: Option<String>,
    pub path_separator: Option<String>,
}

/// A configured text, unless it is absent or empty.
pub open spec fn text_or_default(value: Option<String>, default: Seq<char>) -> Seq<char> {
    match value {
        Some(text) => if text@.len() > 0 {
            text@
        } else {
            default
        },
        None => default,
    }
}

/// "true" or "false".
pub open spec fn bool_text(value: bool) -> Seq<char> {
    if value {
        "true"@
    } else {
        "false"@
    }
}

/// The characters of each pair of strings.
pub open spec fn pairs_view(pairs: Seq<(String, String)>) -> Seq<(Seq<char>, Seq<char>)> {
    pairs.map_values(|pair: (String, String)| (pair.0@, pair.1@))
}

/// The text of a string setting: the value when it is present and not empty, else
/// `default`.
pub fn string_setting(value: Option<String>, default: &str) -> (text: String)
    ensures
        text@ == text_or_default(value, default@),
{
    match value {
        Some(text) => {
            if text.as_str().is_empty() {
                let mut d = String::new();
                push_str(&mut d, default);
                assert(d@ =~= default@);
                d
            } else {
                text
            }
        },
        None => {
            let mut d = String::new();
            push_str(&mut d, default);
            assert(d@ =~= default@);
            d
        },
    }
}

/// The value of a boolean setting, or `default` when it is absent.
pub fn bool_setting(value: Option<bool>, default: bool) -> (setting: bool)
    ensures
        setting == match value {
            Some(v) => v,
            None => default,
        },
{
    match value {
        Some(v) => v,
        None => default,
    }
}

/// The text of a setting read from an environment variable: the variable's value when it
/// is set and not empty, else `default`.
pub fn env_string(value: Option<String>, default: &str) -> (text: String)
    ensures
        text@ == text_or_default(value, default@),
{
    string_setting(value, default)
}

impl CopyJsonPathSettings {
    /// The settings from the values of the four environment variables (each `None` when
    /// unset): empty or unset texts take their defaults, and the file name is put in the
    /// path only when its variable is exactly `true`.
    pub fn from_env_values(
        non_quoted_key_regex: Option<String>,
        put_file_name_in_path: Option<String>,
        prefix_separator: Option<String>,
        path_separator: Option<String>,
    ) -> (settings: Self)
        ensures
            settings.non_quoted_key_regex@ == text_or_default(
                non_quoted_key_regex,
                DEFAULT_NON_QUOTED_KEY_REGEX@,
            ),
            settings.put_file_name_in_path == (match put_file_name_in_path {
                Some(text) => text@ == "true"@,
                None => false,
            }),
            settings.prefix_separator@ == text_or_default(prefix_separator, DEFAULT_PREFIX_SEPARATOR@),
            settings.path_separator@ == text_or_default(path_separator, DEFAULT_PATH_SEPARATOR@),
    {
        let put = match &put_file_name_in_path {
            Some(text) => str_equals(text.as_str(), "true"),
            None => false,
        };
        CopyJsonPathSettings {
            non_quoted_key_regex: env_string(non_quoted_key_regex, DEFAULT_NON_QUOTED_KEY_REGEX),
            put_file_name_in_path: put,
            prefix_separator: env_string(prefix_separator, DEFAULT_PREFIX_SEPARATOR),
            path_separator: env_string(path_separator, DEFAULT_PATH_SEPARATOR),
        }
    }

    /// The settings from the values found in the editor's settings for the language
    /// server: empty or missing texts take their defaults, a missing flag is `false`.
    pub fn from_lsp_settings(values: LspSettingValues) -> (settings: Self)
        ensures
            settings.non_quoted_key_regex@ == text_or_default(
                values.non_quoted_key_regex,
                DEFAULT_NON_QUOTED_KEY_REGEX@,
            ),
            settings.put_file_name_in_path == (match values.put_file_name_in_path {
                Some(v) => v,
                None => false,
            }),
            settings.prefix_separator@ == text_or_default(
                values.prefix_separator,
                DEFAULT_PREFIX_SEPARATOR@,
            ),
            settings.path_separator@ == text_or_default(values.path_separator, DEFAULT_PATH_SEPARATOR@),
    {
        CopyJsonPathSettings {
            non_quoted_key_regex: string_setting(
                values.non_quoted_key_regex,
                DEFAULT_NON_QUOTED_KEY_REGEX,
            ),
            put_file_name_in_path: bool_setting(values.put_file_name_in_path, false),
            prefix_separator: string_setting(values.prefix_separator, DEFAULT_PREFIX_SEPARATOR),
            path_separator: string_setting(values.path_separator, DEFAULT_PATH_SEPARATOR),
        }
    }

    /// The four environment variables that hand these settings to the language server, with
    /// their values.
    pub fn env(&self) -> (vars: Vec<(String, String)>)
        ensures
            pairs_view(vars@) == seq![
                (NON_QUOTED_KEY_REGEX_VAR@, self.non_quoted_key_regex@),
                (PUT_FILE_NAME_IN_PATH_VAR@, bool_text(self.put_file_name_in_path)),
                (PREFIX_SEPARATOR_VAR@, self.prefix_separator@),
                (PATH_SEPARATOR_VAR@, self.path_separator@),
            ],
    {
        let mut vars: Vec<(String, String)> = Vec::new();
        vars.push((owned(NON_QUOTED_KEY_REGEX_VAR), self.non_quoted_key_regex.clone()));
        let flag = if self.put_file_name_in_path {
            owned("true")
        } else {
            owned("false")
        };
        vars.push((owned(PUT_FILE_NAME_IN_PATH_VAR), flag));
        vars.push((owned(PREFIX_SEPARATOR_VAR), self.prefix_separator.clone()));
        vars.push((owned(PATH_SEPARATOR_VAR), self.path_separator.clone()));
        assert(pairs_view(vars@) =~= seq![
            (NON_QUOTED_KEY_REGEX_VAR@, self.non_quoted_key_regex@),
            (PUT_FILE_NAME_IN_PATH_VAR@, bool_text(self.put_file_name_in_path)),
            (PREFIX_SEPARATOR_VAR@, self.prefix_separator@),
            (PATH_SEPARATOR_VAR@, self.path_separator@),
        ]);
        vars
    }
}

/// An owned copy of a text.
pub fn owned(text: &str) -> (copy: String)
    ensures
        copy@ == text@,
{
    let mut copy = String::new();
    push_str(&mut copy, text);
    assert(copy@ =~= text@);
    copy
}

} // verus!
