use json_path::{
    decode_message, message_id, response_value, JsonValue, LspRequest, LspResponse,
};

fn request(body: &str) -> Option<LspRequest> {
    decode_message(body.as_bytes()).expect("a JSON body").1
}

fn text(s: &str) -> JsonValue {
    JsonValue::Str(s.to_string())
}

fn entry(key: &str, value: JsonValue) -> (String, JsonValue) {
    (key.to_string(), value)
}

#[test]
fn did_change_takes_the_last_change() {
    let body = r#"{"jsonrpc":"2.0","method":"textDocument/didChange","params":{"textDocument":{"uri":"file:///a.json"},"contentChanges":[{"text":"old"},{"text":"new"}]}}"#;
    match request(body) {
        Some(LspRequest::DidChange { uri, text }) => {
            assert_eq!(uri.as_deref(), Some("file:///a.json"));
            assert_eq!(text.as_deref(), Some("new"));
        }
        _ => panic!("expected didChange"),
    }
}

#[test]
fn did_open_reads_uri_and_text() {
    let body = r#"{"method":"textDocument/didOpen","params":{"textDocument":{"uri":"u","text":"{}","version":1}}}"#;
    match request(body) {
        Some(LspRequest::DidOpen { uri, text }) => {
            assert_eq!(uri.as_deref(), Some("u"));
            assert_eq!(text.as_deref(), Some("{}"));
        }
        _ => panic!("expected didOpen"),
    }
    match request(r#"{"method":"textDocument/didOpen","params":{"textDocument":{"uri":3}}}"#) {
        Some(LspRequest::DidOpen { uri: None, text: None }) => {}
        _ => panic!("expected didOpen without fields"),
    }
}

#[test]
fn message_without_string_method_is_skipped() {
    assert!(request(r#"{"id":1,"result":null}"#).is_none());
    assert!(request(r#"{"method":5}"#).is_none());
    assert!(request("[1,2]").is_none());
}

#[test]
fn body_that_is_not_json_is_an_error() {
    assert!(decode_message(b"{\"method\":").is_err());
}

#[test]
fn code_action_reads_start_position() {
    let body = r#"{"id":2,"method":"textDocument/codeAction","params":{"textDocument":{"uri":"u"},"range":{"start":{"line":3,"character":7},"end":{"line":3,"character":7}}}}"#;
    match request(body) {
        Some(LspRequest::CodeAction { uri, line, character }) => {
            assert_eq!(uri.as_deref(), Some("u"));
            assert_eq!(line, Some(3));
            assert_eq!(character, Some(7));
        }
        _ => panic!("expected codeAction"),
    }
    let body = r#"{"method":"textDocument/codeAction","params":{"textDocument":{"uri":"u"},"range":{"start":{"line":-1,"character":1.5}}}}"#;
    match request(body) {
        Some(LspRequest::CodeAction { line: None, character: None, .. }) => {}
        _ => panic!("expected codeAction without positions"),
    }
}

#[test]
fn execute_command_reads_first_argument() {
    let body = r#"{"id":3,"method":"workspace/executeCommand","params":{"command":"jsonPath.copyKeyPath","arguments":["a.b","c"]}}"#;
    match request(body) {
        Some(LspRequest::ExecuteCommand { command, argument }) => {
            assert_eq!(command.as_deref(), Some("jsonPath.copyKeyPath"));
            assert_eq!(argument.as_deref(), Some("a.b"));
        }
        _ => panic!("expected executeCommand"),
    }
    let body = r#"{"method":"workspace/executeCommand","params":{"command":"x","arguments":{"0":"y"}}}"#;
    match request(body) {
        Some(LspRequest::ExecuteCommand { argument, .. }) => assert_eq!(argument.as_deref(), Some("y")),
        _ => panic!("expected executeCommand"),
    }
}

#[test]
fn other_methods_note_the_id() {
    assert!(matches!(request(r#"{"id":"x","method":"foo"}"#), Some(LspRequest::Other { has_id: true })));
    assert!(matches!(request(r#"{"method":"foo"}"#), Some(LspRequest::Other { has_id: false })));
    assert!(matches!(request(r#"{"id":1,"method":"exit"}"#), Some(LspRequest::Exit)));
}

#[test]
fn id_is_carried_back() {
    let (message, _) = decode_message(br#"{"id":7,"method":"shutdown"}"#).unwrap();
    assert_eq!(message_id(&message), Some(&JsonValue::Number(Some(7), "7".to_string())));
    let (message, _) = decode_message(br#"{"id":"abc","method":"shutdown"}"#).unwrap();
    assert_eq!(message_id(&message), Some(&text("abc")));
    let (message, _) = decode_message(br#"{"method":"initialized"}"#).unwrap();
    assert_eq!(message_id(&message), None);
}

#[test]
fn copy_action_has_title_kind_and_command() {
    let expected = JsonValue::Array(vec![JsonValue::Object(vec![
        entry("title", text("JSONPath: Copy key path")),
        entry("kind", text("refactor")),
        entry(
            "command",
            JsonValue::Object(vec![
                entry("title", text("JSONPath: Copy key path")),
                entry("command", text("jsonPath.copyKeyPath")),
                entry("arguments", JsonValue::Array(vec![text("a[1].k")])),
            ]),
        ),
    ])]);
    assert_eq!(response_value(LspResponse::CopyKeyPathAction("a[1].k".to_string())), expected);
}

#[test]
fn other_responses() {
    assert_eq!(response_value(LspResponse::Null), JsonValue::Null);
    assert_eq!(response_value(LspResponse::NoActions), JsonValue::Array(vec![]));
    let expected = JsonValue::Object(vec![entry(
        "capabilities",
        JsonValue::Object(vec![
            entry(
                "textDocumentSync",
                JsonValue::Object(vec![
                    entry("openClose", JsonValue::Bool(true)),
                    entry("change", JsonValue::Number(Some(1), "1".to_string())),
                ]),
            ),
            entry("codeActionProvider", JsonValue::Bool(true)),
            entry(
                "executeCommandProvider",
                JsonValue::Object(vec![entry("commands", JsonValue::Array(vec![text("jsonPath.copyKeyPath")]))]),
            ),
        ]),
    )]);
    assert_eq!(response_value(LspResponse::Capabilities), expected);
}
