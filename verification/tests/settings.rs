use json_path::{
    bool_setting, env_string, file_name, language_server_command, string_setting,
    CopyJsonPathSettings, LspSettingValues, DEFAULT_NON_QUOTED_KEY_REGEX,
};

#[test]
fn default_regex_is_the_documented_one() {
    assert_eq!(DEFAULT_NON_QUOTED_KEY_REGEX, r"^[a-zA-Z$_][a-zA-Z\d$_]*$");
}

#[test]
fn empty_values_take_defaults() {
    let settings = CopyJsonPathSettings::from_env_values(None, None, Some(String::new()), None);
    assert_eq!(settings.non_quoted_key_regex, DEFAULT_NON_QUOTED_KEY_REGEX);
    assert!(!settings.put_file_name_in_path);
    assert_eq!(settings.prefix_separator, ":");
    assert_eq!(settings.path_separator, ".");
}

#[test]
fn only_true_puts_file_name() {
    let yes = CopyJsonPathSettings::from_env_values(None, Some("true".into()), None, None);
    assert!(yes.put_file_name_in_path);
    let no = CopyJsonPathSettings::from_env_values(None, Some("TRUE".into()), None, None);
    assert!(!no.put_file_name_in_path);
}

#[test]
fn env_round_trip() {
    let settings = CopyJsonPathSettings {
        non_quoted_key_regex: "^x$".to_string(),
        put_file_name_in_path: true,
        prefix_separator: " | ".to_string(),
        path_separator: "/".to_string(),
    };
    let env = settings.env();
    assert_eq!(
        env,
        vec![
            ("JSON_PATH_NON_QUOTED_KEY_REGEX".to_string(), "^x$".to_string()),
            ("JSON_PATH_PUT_FILE_NAME_IN_PATH".to_string(), "true".to_string()),
            ("JSON_PATH_PREFIX_SEPARATOR".to_string(), " | ".to_string()),
            ("JSON_PATH_PATH_SEPARATOR".to_string(), "/".to_string()),
        ]
    );
    let back = CopyJsonPathSettings::from_env_values(
        Some(env[0].1.clone()),
        Some(env[1].1.clone()),
        Some(env[2].1.clone()),
        Some(env[3].1.clone()),
    );
    assert_eq!(back.non_quoted_key_regex, settings.non_quoted_key_regex);
    assert_eq!(back.put_file_name_in_path, settings.put_file_name_in_path);
    assert_eq!(back.prefix_separator, settings.prefix_separator);
    assert_eq!(back.path_separator, settings.path_separator);
}

#[test]
fn false_flag_is_written_false() {
    let settings = CopyJsonPathSettings::from_env_values(None, None, None, None);
    assert_eq!(settings.env()[1].1, "false");
}

#[test]
fn lsp_settings_fill_gaps() {
    let settings = CopyJsonPathSettings::from_lsp_settings(LspSettingValues {
        non_quoted_key_regex: Some(String::new()),
        put_file_name_in_path: Some(true),
        prefix_separator: None,
        path_separator: Some("/".into()),
    });
    assert_eq!(settings.non_quoted_key_regex, DEFAULT_NON_QUOTED_KEY_REGEX);
    assert!(settings.put_file_name_in_path);
    assert_eq!(settings.prefix_separator, ":");
    assert_eq!(settings.path_separator, "/");
}

#[test]
fn setting_helpers() {
    assert_eq!(string_setting(Some("a".into()), "d"), "a");
    assert_eq!(string_setting(Some(String::new()), "d"), "d");
    assert_eq!(string_setting(None, "d"), "d");
    assert_eq!(env_string(Some("v".into()), "d"), "v");
    assert!(bool_setting(Some(true), false));
    assert!(!bool_setting(None, false));
    assert!(bool_setting(None, true));
}

#[test]
fn file_names() {
    assert_eq!(file_name("a/b/c.json"), Some("c.json"));
    assert_eq!(file_name("a/b/"), Some("b"));
    assert_eq!(file_name("dir\\x.json"), Some("x.json"));
    assert_eq!(file_name("plain"), Some("plain"));
    assert_eq!(file_name("/"), None);
    assert_eq!(file_name(""), None);
    assert_eq!(file_name("a\\"), None);
    assert_eq!(file_name("d/\u{e9}t\u{e9}.json//"), Some("\u{e9}t\u{e9}.json"));
}

#[test]
fn server_command_for_known_server() {
    let settings = CopyJsonPathSettings::from_env_values(None, None, None, None);
    let command =
        language_server_command("json-path-lsp", Ok("/bin/json-path-lsp".into()), &settings)
            .ok()
            .unwrap();
    assert_eq!(command.command, "/bin/json-path-lsp");
    assert!(command.args.is_empty());
    assert_eq!(command.env.len(), 4);
    assert_eq!(command.env[3].1, ".");
}

#[test]
fn server_command_errors() {
    let settings = CopyJsonPathSettings::from_env_values(None, None, None, None);
    assert_eq!(
        language_server_command("other", Ok("x".into()), &settings).err(),
        Some("unknown language server: other".to_string())
    );
    assert_eq!(
        language_server_command("json-path-lsp", Err("no binary".into()), &settings).err(),
        Some("no binary".to_string())
    );
}
