//! The decisions of the language server: which messages it answers and how, the open
//! documents it keeps, and the clipboard commands it tries.
use vstd::prelude::*;
use vstd::hash_map::StringHashMap;
use crate::json_text::json_document_error;
use crate::report::{json_key_path_report, optional_text, report_spec};
use crate::settings::{owned, CopyJsonPathSettings};
use crate::text::str_equals;

verus! {

/// The command behind the code action.
pub const COPY_KEY_PATH_COMMAND: &'static str = "jsonPath.copyKeyPath";

/// The messages that the server tells apart by their method.
pub enum MethodKind {
    Initialize,
    Initialized,
    Shutdown,
    Exit,
    DidOpen,
    DidChange,
    DidClose,
    CodeAction,
    ExecuteCommand,
    Other,
}

/// The kind of a message with method `method`.
pub open spec fn method_kind_spec(method: Seq<char>) -> MethodKind {
    if method == "initialize"@ {
        MethodKind::Initialize
    } else if method == "initialized"@ {
        MethodKind::Initialized
    } else if method == "shutdown"@ {
        MethodKind::Shutdown
    } else if method == "exit"@ {
        MethodKind::Exit
    } else if method == "textDocument/didOpen"@ {
        MethodKind::DidOpen
    } else if method == "textDocument/didChange"@ {
        MethodKind::DidChange
    } else if method == "textDocument/didClose"@ {
        MethodKind::DidClose
    } else if method == "textDocument/codeAction"@ {
        MethodKind::CodeAction
    } else if method == "workspace/executeCommand"@ {
        MethodKind::ExecuteCommand
    } else {
        MethodKind::Other
    }
}

/// The kind of a message, by its method.
pub fn method_kind(method: &str) -> (kind: MethodKind)
    ensures
        kind == method_kind_spec(method@),
{
    if str_equals(method, "initialize") {
        MethodKind::Initialize
    } else if str_equals(method, "initialized") {
        MethodKind::Initialized
    } else if str_equals(method, "shutdown") {
        MethodKind::Shutdown
    } else if str_equals(method, "exit") {
        MethodKind::Exit
    } else if str_equals(method, "textDocument/didOpen") {
        MethodKind::DidOpen
    } else if str_equals(method, "textDocument/didChange") {
        MethodKind::DidChange
    } else if str_equals(method, "textDocument/didClose") {
        MethodKind::DidClose
    } else if str_equals(method, "textDocument/codeAction") {
        MethodKind::CodeAction
    } else if str_equals(method, "workspace/executeCommand") {
        MethodKind::ExecuteCommand
    } else {
        MethodKind::Other
    }
}

/// A message with what the server reads of it; a field is `None` where the message lacks it
/// or holds another JSON type there.
pub enum LspRequest {
    Initialize,
    Initialized,
    Shutdown,
    Exit,
    /// `params.textDocument.uri` and `params.textDocument.text`.
    DidOpen { uri: Option<String>, text: Option<String> },
    /// `params.textDocument.uri` and the `text` of the last of `params.contentChanges`.
    DidChange { uri: Option<String>, text: Option<String> },
    /// `params.textDocument.uri`.
    DidClose { uri: Option<String> },
    /// `params.textDocument.uri` and `params.range.start` (0-based line and character).
    CodeAction { uri: Option<String>, line: Option<usize>, character: Option<usize> },
    /// `params.command` and `params.arguments[0]`.
    ExecuteCommand { command: Option<String>, argument: Option<String> },
    /// Any other method; `has_id` when the message carries an id.
    Other { has_id: bool },
}

/// The result that a reply carries.
pub enum LspResponse {
    /// The server's capabilities.
    Capabilities,
    /// `null`.
    Null,
    /// No code action.
    NoActions,
    /// The one code action, which copies this key path.
    CopyKeyPathAction(String),
}

/// What the server does with a message.
pub enum LspAction {
    /// Reply with this result.
    Reply(LspResponse),
    /// Copy the text to the clipboard, then reply `null`.
    CopyThenReplyNull(String),
    /// Nothing.
    Ignore,
    /// Stop reading messages.
    Stop,
}

/// The language server's state: the open documents by URI, and whether shutdown was asked.
pub struct JsonPathLsp {
    documents: StringHashMap<String>,
    shutdown_requested: bool,
}

impl JsonPathLsp {
    /// The text of each open document, by URI.
    pub closed spec fn documents(&self) -> Map<Seq<char>, Seq<char>> {
        self.documents@.map_values(|text: String| text@)
    }

    /// Whether the client asked the server to shut down.
    pub closed spec fn shutdown_asked(&self) -> bool {
        self.shutdown_requested
    }

    /// A server with no open documents.
    pub fn new() -> (server: Self)
        ensures
            server.documents() == Map::<Seq<char>, Seq<char>>::empty(),
            !server.shutdown_asked(),
    {
        let server = JsonPathLsp { documents: StringHashMap::new(), shutdown_requested: false };
        assert(server.documents() =~= Map::<Seq<char>, Seq<char>>::empty());
        server
    }

    /// Whether the document `uri` is open.
    pub fn is_open(&self, uri: &str) -> (open: bool)
        ensures
            open == self.documents().contains_key(uri@),
    {
        self.documents.contains_key(uri)
    }

    /// Records an opened document, when the message holds both its URI and its text.
    pub fn did_open(&mut self, uri: Option<String>, text: Option<String>)
        ensures
            final(self).shutdown_asked() == old(self).shutdown_asked(),
            final(self).documents() == (match (uri, text) {
                (Some(uri), Some(text)) => old(self).documents().insert(uri@, text@),
                _ => old(self).documents(),
            }),
    {
        if let (Some(uri), Some(text)) = (uri, text) {
            self.documents.insert(uri, text);
            assert(self.documents() =~= old(self).documents().insert(uri@, text@));
        }
    }

    /// Records the new text of a changed document, when the message holds its URI and the
    /// text of its last change.
    pub fn did_change(&mut self, uri: Option<String>, text: Option<String>)
        ensures
            final(self).shutdown_asked() == old(self).shutdown_asked(),
            final(self).documents() == (match (uri, text) {
                (Some(uri), Some(text)) => old(self).documents().insert(uri@, text@),
                _ => old(self).documents(),
            }),
    {
        if let (Some(uri), Some(text)) = (uri, text) {
            self.documents.insert(uri, text);
            assert(self.documents() =~= old(self).documents().insert(uri@, text@));
        }
    }

    /// Forgets a closed document, when the message holds its URI.
    pub fn did_close(&mut self, uri: Option<String>)
        ensures
            final(self).shutdown_asked() == old(self).shutdown_asked(),
            final(self).documents() == (match uri {
                Some(uri) => old(self).documents().remove(uri@),
                None => old(self).documents(),
            }),
    {
        if let Some(uri) = uri {
            self.documents.remove(uri.as_str());
            assert(self.documents() =~= old(self).documents().remove(uri@));
        }
    }

    /// The key path that the code action copies: for an open document with the cursor at
    /// the 0-based `line` and `character`, the report at row `line + 1` and column
    /// `character + 1`, when that report succeeds.
    pub fn code_actions(
        &self,
        uri: Option<String>,
        line: Option<usize>,
        character: Option<usize>,
        settings: &CopyJsonPathSettings,
    ) -> (key_path: Option<String>)
        requires
            positions_fit(self.documents(), uri, line, character),
        ensures
            optional_text(key_path) == action_path(self.documents(), uri, line, character, *settings),
    {
        let uri = match uri {
            Some(uri) => uri,
            None => return None,
        };
        let source = match self.documents.get(uri.as_str()) {
            Some(source) => source,
            None => return None,
        };
        let line = match line {
            Some(line) => line,
            None => return None,
        };
        let character = match character {
            Some(character) => character,
            None => return None,
        };
        match json_key_path_report(uri.as_str(), source.as_str(), line + 1, character + 1, settings) {
            Ok(key_path) => Some(key_path),
            Err(_) => None,
        }
    }

    /// The text that the copy command puts on the clipboard: its first argument, when the
    /// command is the copy command.
    pub fn execute_command(&self, command: Option<String>, argument: Option<String>) -> (text: Option<String>)
        ensures
            optional_text(text) == (match (command, argument) {
                (Some(command), Some(argument)) => if command@ == COPY_KEY_PATH_COMMAND@ {
                    Some(argument@)
                } else {
                    None
                },
                _ => None,
            }),
    {
        let command = match command {
            Some(command) => command,
            None => return None,
        };
        if !str_equals(command.as_str(), COPY_KEY_PATH_COMMAND) {
            return None;
        }
        argument
    }

    /// What the server does with one message, and how its state changes.
    pub fn handle(&mut self, request: LspRequest, settings: &CopyJsonPathSettings) -> (action: LspAction)
        requires
            request matches LspRequest::CodeAction { uri, line, character } ==> positions_fit(
                old(self).documents(),
                uri,
                line,
                character,
            ),
        ensures
            (match request {
                LspRequest::Initialize => action == LspAction::Reply(LspResponse::Capabilities)
                    && final(self).documents() == old(self).documents()
                    && final(self).shutdown_asked() == old(self).shutdown_asked(),
                LspRequest::Initialized => action == LspAction::Ignore && final(self).documents()
                    == old(self).documents() && final(self).shutdown_asked() == old(self).shutdown_asked(),
                LspRequest::Shutdown => action == LspAction::Reply(LspResponse::Null)
                    && final(self).documents() == old(self).documents()
                    && final(self).shutdown_asked(),
                LspRequest::Exit => action == LspAction::Stop && final(self).documents() == old(self).documents() && final(self).shutdown_asked() == old(self).shutdown_asked(),
                LspRequest::DidOpen { uri, text } | LspRequest::DidChange { uri, text } => action
                    == LspAction::Ignore && final(self).shutdown_asked() == old(self).shutdown_asked() && final(self).documents() == (match (uri, text) {
                    (Some(uri), Some(text)) => old(self).documents().insert(uri@, text@),
                    _ => old(self).documents(),
                }),
                LspRequest::DidClose { uri } => action == LspAction::Ignore && final(self).shutdown_asked() == old(self).shutdown_asked() && final(self).documents() == (
                match uri {
                    Some(uri) => old(self).documents().remove(uri@),
                    None => old(self).documents(),
                }),
                LspRequest::CodeAction { uri, line, character } => final(self).documents() == old(self).documents() && final(self).shutdown_asked() == old(self).shutdown_asked()
                    && (match action {
                    LspAction::Reply(LspResponse::CopyKeyPathAction(key_path)) => Some(key_path@)
                        == action_path(old(self).documents(), uri, line, character, *settings),
                    LspAction::Reply(LspResponse::NoActions) => None::<Seq<char>> == action_path(
                        old(self).documents(),
                        uri,
                        line,
                        character,
                        *settings,
                    ),
                    _ => false,
                }),
                LspRequest::ExecuteCommand { command, argument } => final(self).documents() == old(self).documents() && final(self).shutdown_asked() == old(self).shutdown_asked()
                    && (match action {
                    LspAction::CopyThenReplyNull(text) => Some(text@) == copied_text(
                        command,
                        argument,
                    ),
                    LspAction::Reply(LspResponse::Null) => None::<Seq<char>> == copied_text(
                        command,
                        argument,
                    ),
                    _ => false,
                }),
                LspRequest::Other { has_id } => action == (if has_id {
                    LspAction::Reply(LspResponse::Null)
                } else {
                    LspAction::Ignore
                }) && final(self).documents() == old(self).documents() && final(self).shutdown_asked() == old(self).shutdown_asked(),
            }),
            final(self).documents() == documents_after(old(self).documents(), request),
            is_reply(action) == answers_request(request),
            (action is Stop) == (request is Exit),
    {
        match request {
            LspRequest::Initialize => LspAction::Reply(LspResponse::Capabilities),
            LspRequest::Initialized => LspAction::Ignore,
            LspRequest::Shutdown => {
                self.shutdown_requested = true;
                LspAction::Reply(LspResponse::Null)
            },
            LspRequest::Exit => LspAction::Stop,
            LspRequest::DidOpen { uri, text } => {
                self.did_open(uri, text);
                LspAction::Ignore
            },
            LspRequest::DidChange { uri, text } => {
                self.did_change(uri, text);
                LspAction::Ignore
            },
            LspRequest::DidClose { uri } => {
                self.did_close(uri);
                LspAction::Ignore
            },
            LspRequest::CodeAction { uri, line, character } => {
                match self.code_actions(uri, line, character, settings) {
                    Some(key_path) => LspAction::Reply(LspResponse::CopyKeyPathAction(key_path)),
                    None => LspAction::Reply(LspResponse::NoActions),
                }
            },
            LspRequest::ExecuteCommand { command, argument } => {
                match self.execute_command(command, argument) {
                    Some(text) => LspAction::CopyThenReplyNull(text),
                    None => LspAction::Reply(LspResponse::Null),
                }
            },
            LspRequest::Other { has_id } => {
                if has_id {
                    LspAction::Reply(LspResponse::Null)
                } else {
                    LspAction::Ignore
                }
            },
        }
    }
}

/// A code action on an open document, with both positions given, adds one to each; that
/// must not overflow.
pub open spec fn positions_fit(
    documents: Map<Seq<char>, Seq<char>>,
    uri: Option<String>,
    line: Option<usize>,
    character: Option<usize>,
) -> bool {
    match (uri, line, character) {
        (Some(uri), Some(line), Some(character)) => documents.contains_key(uri@) ==> line
            < usize::MAX && character < usize::MAX,
        _ => true,
    }
}

/// The key path that a code action copies, as `code_actions` computes it.
pub open spec fn action_path(
    documents: Map<Seq<char>, Seq<char>>,
    uri: Option<String>,
    line: Option<usize>,
    character: Option<usize>,
    settings: CopyJsonPathSettings,
) -> Option<Seq<char>> {
    match (uri, line, character) {
        (Some(uri), Some(line), Some(character)) => if documents.contains_key(uri@) {
            let source = documents[uri@];
            match report_spec(
                uri@,
                source,
                line + 1,
                character + 1,
                settings,
                json_document_error(source),
            ) {
                Ok(text) => Some(text),
                Err(_) => None,
            }
        } else {
            None
        },
        _ => None,
    }
}

/// The text that the copy command puts on the clipboard, as `execute_command` computes it.
pub open spec fn copied_text(command: Option<String>, argument: Option<String>) -> Option<Seq<char>> {
    match (command, argument) {
        (Some(command), Some(argument)) => if command@ == COPY_KEY_PATH_COMMAND@ {
            Some(argument@)
        } else {
            None
        },
        _ => None,
    }
}

/// Whether the server answers a message: `initialize`, `shutdown`, code actions, commands,
/// and any other method that carries an id.
pub open spec fn answers_request(request: LspRequest) -> bool {
    match request {
        LspRequest::Initialize | LspRequest::Shutdown => true,
        LspRequest::CodeAction { .. } | LspRequest::ExecuteCommand { .. } => true,
        LspRequest::Other { has_id } => has_id,
        _ => false,
    }
}

/// Whether the action sends a reply.
pub open spec fn is_reply(action: LspAction) -> bool {
    action is Reply || action is CopyThenReplyNull
}

/// The open documents after a message.
pub open spec fn documents_after(
    documents: Map<Seq<char>, Seq<char>>,
    request: LspRequest,
) -> Map<Seq<char>, Seq<char>> {
    match request {
        LspRequest::DidOpen { uri, text } | LspRequest::DidChange { uri, text } => match (uri, text) {
            (Some(uri), Some(text)) => documents.insert(uri@, text@),
            _ => documents,
        },
        LspRequest::DidClose { uri } => match uri {
            Some(uri) => documents.remove(uri@),
            None => documents,
        },
        _ => documents,
    }
}

} // verus!
