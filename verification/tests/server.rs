use json_path::{
    copy_to_clipboard, method_kind, ClipboardPlatform, ClipboardStep, CopyJsonPathSettings,
    JsonPathLsp, LspAction, LspRequest, LspResponse, MethodKind,
};

fn settings() -> CopyJsonPathSettings {
    CopyJsonPathSettings::from_env_values(None, None, None, None)
}

const URI: &str = "file:///tmp/a.json";

#[test]
fn open_document_gives_code_action() {
    let mut server = JsonPathLsp::new();
    server.did_open(
        Some(URI.to_string()),
        Some("{\n  \"a\": [\"q\", { \"k\": 1 }, 1]\n}".to_string()),
    );
    assert_eq!(
        server.code_actions(Some(URI.to_string()), Some(1), Some(16), &settings()),
        Some("a[1].k".to_string())
    );
}

#[test]
fn changed_document_is_read_back() {
    let mut server = JsonPathLsp::new();
    server.did_open(Some(URI.to_string()), Some("{\"a\": 1}".to_string()));
    server.did_change(Some(URI.to_string()), Some("{\"b\": 1}".to_string()));
    assert_eq!(
        server.code_actions(Some(URI.to_string()), Some(0), Some(6), &settings()),
        Some("b".to_string())
    );
}

#[test]
fn closed_document_has_no_action() {
    let mut server = JsonPathLsp::new();
    server.did_open(Some(URI.to_string()), Some("{\"a\": 1}".to_string()));
    server.did_close(Some(URI.to_string()));
    assert_eq!(server.code_actions(Some(URI.to_string()), Some(0), Some(6), &settings()), None);
}

#[test]
fn missing_fields_change_nothing() {
    let mut server = JsonPathLsp::new();
    server.did_open(Some(URI.to_string()), None);
    assert_eq!(server.code_actions(Some(URI.to_string()), Some(0), Some(0), &settings()), None);
    server.did_open(Some(URI.to_string()), Some("[1]".to_string()));
    assert_eq!(server.code_actions(Some(URI.to_string()), None, Some(0), &settings()), None);
    assert_eq!(
        server.code_actions(Some(URI.to_string()), Some(0), Some(1), &settings()),
        Some("[0]".to_string())
    );
}

#[test]
fn invalid_json_has_no_action() {
    let mut server = JsonPathLsp::new();
    server.did_open(Some(URI.to_string()), Some("{".to_string()));
    assert_eq!(server.code_actions(Some(URI.to_string()), Some(0), Some(0), &settings()), None);
}

#[test]
fn execute_command_copies_first_argument() {
    let server = JsonPathLsp::new();
    assert_eq!(
        server.execute_command(Some("jsonPath.copyKeyPath".into()), Some("a.b".into())),
        Some("a.b".to_string())
    );
    assert_eq!(server.execute_command(Some("other".into()), Some("a.b".into())), None);
    assert_eq!(server.execute_command(Some("jsonPath.copyKeyPath".into()), None), None);
}

#[test]
fn methods_are_told_apart() {
    assert!(matches!(method_kind("initialize"), MethodKind::Initialize));
    assert!(matches!(method_kind("initialized"), MethodKind::Initialized));
    assert!(matches!(method_kind("shutdown"), MethodKind::Shutdown));
    assert!(matches!(method_kind("exit"), MethodKind::Exit));
    assert!(matches!(method_kind("textDocument/didOpen"), MethodKind::DidOpen));
    assert!(matches!(method_kind("textDocument/didChange"), MethodKind::DidChange));
    assert!(matches!(method_kind("textDocument/didClose"), MethodKind::DidClose));
    assert!(matches!(method_kind("textDocument/codeAction"), MethodKind::CodeAction));
    assert!(matches!(method_kind("workspace/executeCommand"), MethodKind::ExecuteCommand));
    assert!(matches!(method_kind("textDocument/hover"), MethodKind::Other));
}

#[test]
fn handle_walks_a_session() {
    let mut server = JsonPathLsp::new();
    let s = settings();
    assert!(matches!(
        server.handle(LspRequest::Initialize, &s),
        LspAction::Reply(LspResponse::Capabilities)
    ));
    assert!(matches!(server.handle(LspRequest::Initialized, &s), LspAction::Ignore));
    assert!(matches!(
        server.handle(
            LspRequest::DidOpen { uri: Some(URI.into()), text: Some("{\"k\": [0]}".into()) },
            &s
        ),
        LspAction::Ignore
    ));
    match server.handle(
        LspRequest::CodeAction { uri: Some(URI.into()), line: Some(0), character: Some(8) },
        &s,
    ) {
        LspAction::Reply(LspResponse::CopyKeyPathAction(path)) => assert_eq!(path, "k[0]"),
        _ => panic!("expected a code action"),
    }
    match server.handle(
        LspRequest::ExecuteCommand {
            command: Some("jsonPath.copyKeyPath".into()),
            argument: Some("k[0]".into()),
        },
        &s,
    ) {
        LspAction::CopyThenReplyNull(text) => assert_eq!(text, "k[0]"),
        _ => panic!("expected a copy"),
    }
    assert!(matches!(
        server.handle(LspRequest::Other { has_id: true }, &s),
        LspAction::Reply(LspResponse::Null)
    ));
    assert!(matches!(server.handle(LspRequest::Other { has_id: false }, &s), LspAction::Ignore));
    assert!(matches!(
        server.handle(LspRequest::Shutdown, &s),
        LspAction::Reply(LspResponse::Null)
    ));
    assert!(matches!(server.handle(LspRequest::Exit, &s), LspAction::Stop));
}

#[test]
fn code_action_without_document_is_empty() {
    let mut server = JsonPathLsp::new();
    assert!(matches!(
        server.handle(
            LspRequest::CodeAction { uri: Some(URI.into()), line: Some(0), character: Some(0) },
            &settings()
        ),
        LspAction::Reply(LspResponse::NoActions)
    ));
}

fn run_command(step: ClipboardStep) -> (String, Vec<String>) {
    match step {
        ClipboardStep::Run(command) => (command.program, command.args),
        _ => panic!("expected a command"),
    }
}

#[test]
fn unix_tries_programs_in_turn() {
    assert_eq!(run_command(copy_to_clipboard(ClipboardPlatform::Unix, &[])), ("wl-copy".into(), vec![]));
    assert_eq!(
        run_command(copy_to_clipboard(ClipboardPlatform::Unix, &[false])),
        ("xclip".into(), vec!["-selection".to_string(), "clipboard".to_string()])
    );
    assert_eq!(
        run_command(copy_to_clipboard(ClipboardPlatform::Unix, &[false, false])),
        ("xsel".into(), vec!["--clipboard".to_string(), "--input".to_string()])
    );
    assert!(matches!(copy_to_clipboard(ClipboardPlatform::Unix, &[false, true]), ClipboardStep::Copied));
    match copy_to_clipboard(ClipboardPlatform::Unix, &[false, false, false]) {
        ClipboardStep::NotFound(message) => {
            assert_eq!(message, "no clipboard command found: expected wl-copy, xclip, or xsel")
        },
        _ => panic!("expected not found"),
    }
}

#[test]
fn macos_and_windows_run_one_program() {
    assert_eq!(run_command(copy_to_clipboard(ClipboardPlatform::MacOs, &[])), ("pbcopy".into(), vec![]));
    assert_eq!(run_command(copy_to_clipboard(ClipboardPlatform::Windows, &[])), ("clip".into(), vec![]));
    assert!(matches!(
        copy_to_clipboard(ClipboardPlatform::MacOs, &[false]),
        ClipboardStep::ReturnLastOutcome
    ));
    match copy_to_clipboard(ClipboardPlatform::Unsupported, &[]) {
        ClipboardStep::Unsupported(message) => {
            assert_eq!(message, "clipboard is not supported on this target")
        },
        _ => panic!("expected unsupported"),
    }
}

#[test]
fn run_answers_each_request_until_exit() {
    let s = settings();
    let mut server = JsonPathLsp::new();
    let requests = vec![
        LspRequest::Initialize,
        LspRequest::Initialized,
        LspRequest::DidOpen { uri: Some(URI.into()), text: Some("{\"a\": 1}".into()) },
        LspRequest::CodeAction { uri: Some(URI.into()), line: Some(0), character: Some(2) },
        LspRequest::Other { has_id: false },
        LspRequest::Other { has_id: true },
        LspRequest::Shutdown,
        LspRequest::Exit,
        LspRequest::Initialize,
    ];
    let mut replies = 0;
    let mut handled = 0;
    for request in requests {
        handled += 1;
        match server.handle(request, &s) {
            LspAction::Stop => break,
            LspAction::Reply(_) | LspAction::CopyThenReplyNull(_) => replies += 1,
            LspAction::Ignore => {},
        }
    }
    assert_eq!(handled, 8);
    assert_eq!(replies, 4);
    assert!(server.is_open(URI));
}
