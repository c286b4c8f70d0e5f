//! The JSON of a language server message: a body read into a JSON value, what the server
//! reads of a message, and the JSON of its answers.
use vstd::prelude::*;
use zed_extension_api::serde_json;
use crate::report::optional_text;
use crate::lsp::{method_kind_spec, LspRequest, LspResponse, MethodKind, COPY_KEY_PATH_COMMAND};
use crate::settings::owned;
use crate::text::str_equals;

verus! {

broadcast use vstd::std_specs::vec::group_vec_axioms, vstd::seq::group_seq_axioms;

#[verifier::external_type_specification]
#[verifier::external_body]
pub struct ExSerdeValue(serde_json::Value);

/// A JSON value. A number keeps its value when it is an integer that fits in a `u64`, and
/// its text as serde_json writes it; an object keeps its entries in the order serde_json
/// walks them, each key once.
#[derive(Debug, PartialEq)]
pub enum JsonValue {
    Null,
    Bool(bool),
    Number(Option<u64>, String),
    Str(String),
    Array(Vec<JsonValue>),
    Object(Vec<(String, JsonValue)>),
}

/// A JSON value as mathematical data.
pub enum JsonView {
    Null,
    Bool(bool),
    Number(Option<u64>, Seq<char>),
    Str(Seq<char>),
    Array(Seq<JsonView>),
    Object(Seq<(Seq<char>, JsonView)>),
}

/// A JSON value as data.
pub open spec fn json_view(value: JsonValue) -> JsonView
    decreases value,
{
    match value {
        JsonValue::Null => JsonView::Null,
        JsonValue::Bool(b) => JsonView::Bool(b),
        JsonValue::Number(n, text) => JsonView::Number(n, text@),
        JsonValue::Str(s) => JsonView::Str(s@),
        JsonValue::Array(items) => {
            proof {
                assert(decreases_to!(items => items@));
            }
            JsonView::Array(items_view(items@))
        },
        JsonValue::Object(entries) => {
            proof {
                assert(decreases_to!(entries => entries@));
            }
            JsonView::Object(entries_view(entries@))
        },
    }
}

/// The elements of an array as data.
pub open spec fn items_view(items: Seq<JsonValue>) -> Seq<JsonView>
    decreases items,
{
    if items.len() == 0 {
        Seq::empty()
    } else {
        proof {
            assert(decreases_to!(items => items.subrange(0, items.len() - 1)));
            assert(decreases_to!(items => items[items.len() - 1]));
        }
        items_view(items.subrange(0, items.len() - 1)).push(json_view(items[items.len() - 1]))
    }
}

/// The entries of an object as data.
pub open spec fn entries_view(entries: Seq<(String, JsonValue)>) -> Seq<(Seq<char>, JsonView)>
    decreases entries,
{
    if entries.len() == 0 {
        Seq::empty()
    } else {
        proof {
            assert(decreases_to!(entries => entries.subrange(0, entries.len() - 1)));
            assert(decreases_to!(entries => entries[entries.len() - 1]));
        }
        entries_view(entries.subrange(0, entries.len() - 1)).push(
            (entries[entries.len() - 1].0@, json_view(entries[entries.len() - 1].1)),
        )
    }
}

impl View for JsonValue {
    type V = JsonView;

    open spec fn view(&self) -> JsonView {
        json_view(*self)
    }
}

/// The elements' data, one for one.
pub proof fn lemma_items_view(items: Seq<JsonValue>)
    ensures
        items_view(items).len() == items.len(),
        forall|i: int| 0 <= i < items.len() ==> #[trigger] items_view(items)[i] == json_view(items[i]),
    decreases items.len(),
{
    if items.len() > 0 {
        let init = items.subrange(0, items.len() - 1);
        lemma_items_view(init);
        assert forall|i: int| 0 <= i < items.len() implies #[trigger] items_view(items)[i] == json_view(
            items[i],
        ) by {
            if i < items.len() - 1 {
                assert(init[i] == items[i]);
            }
        }
    }
}

/// The entries' data, one for one.
pub proof fn lemma_entries_view(entries: Seq<(String, JsonValue)>)
    ensures
        entries_view(entries).len() == entries.len(),
        forall|i: int|
            0 <= i < entries.len() ==> #[trigger] entries_view(entries)[i] == (
                entries[i].0@,
                json_view(entries[i].1),
            ),
    decreases entries.len(),
{
    if entries.len() > 0 {
        let init = entries.subrange(0, entries.len() - 1);
        lemma_entries_view(init);
        assert forall|i: int| 0 <= i < entries.len() implies #[trigger] entries_view(entries)[i] == (
            entries[i].0@,
            json_view(entries[i].1),
        ) by {
            if i < entries.len() - 1 {
                assert(init[i] == entries[i]);
            }
        }
    }
}

/// The value of the first entry with key `key`.
pub open spec fn entry_value(entries: Seq<(Seq<char>, JsonView)>, key: Seq<char>) -> Option<JsonView>
    decreases entries.len(),
{
    if entries.len() == 0 {
        None
    } else if entries[0].0 == key {
        Some(entries[0].1)
    } else {
        entry_value(entries.drop_first(), key)
    }
}

/// The member `key` of an object (`serde_json::Value::get`); nothing for another value.
pub open spec fn member(value: Option<JsonView>, key: Seq<char>) -> Option<JsonView> {
    match value {
        Some(JsonView::Object(entries)) => entry_value(entries, key),
        _ => None,
    }
}

/// The step `0` of a JSON pointer: the first element of an array, the member `0` of an
/// object; nothing for another value.
pub open spec fn first_step(value: Option<JsonView>) -> Option<JsonView> {
    match value {
        Some(JsonView::Array(items)) => if items.len() > 0 {
            Some(items[0])
        } else {
            None
        },
        Some(JsonView::Object(entries)) => entry_value(entries, "0"@),
        _ => None,
    }
}

/// The last element of an array; nothing for another value or an empty array.
pub open spec fn last_element(value: Option<JsonView>) -> Option<JsonView> {
    match value {
        Some(JsonView::Array(items)) => if items.len() > 0 {
            Some(items.last())
        } else {
            None
        },
        _ => None,
    }
}

/// The text of a string (`as_str`); nothing for another value.
pub open spec fn string_of(value: Option<JsonView>) -> Option<Seq<char>> {
    match value {
        Some(JsonView::Str(s)) => Some(s),
        _ => None,
    }
}

/// A number that fits in a `u64` (`as_u64`), taken as a `usize`; nothing for another value.
pub open spec fn position_of(value: Option<JsonView>) -> Option<usize> {
    match value {
        Some(JsonView::Number(Some(n), _)) => Some(n as usize),
        _ => None,
    }
}

/// The member `key` of a value, when it is an object.
fn object_member<'a>(value: &'a JsonValue, key: &str) -> (found: Option<&'a JsonValue>)
    ensures
        (match found {
            Some(f) => member(Some(value@), key@) == Some(f@),
            None => member(Some(value@), key@) is None,
        }),
{
    match value {
        JsonValue::Object(entries) => {
            let ghost view = entries_view(entries@);
            proof {
                lemma_entries_view(entries@);
                assert(view.subrange(0, view.len() as int) =~= view);
                assert(value@ == JsonView::Object(view));
            }
            let mut i: usize = 0;
            while i < entries.len()
                invariant
                    i <= entries@.len(),
                    view == entries_view(entries@),
                    value@ == JsonView::Object(view),
                    view.len() == entries@.len(),
                    forall|j: int|
                        0 <= j < entries@.len() ==> #[trigger] view[j] == (entries@[j].0@, json_view(entries@[j].1)),
                    entry_value(view, key@) == entry_value(view.subrange(i as int, view.len() as int), key@),
                decreases entries@.len() - i,
            {
                let ghost rest = view.subrange(i as int, view.len() as int);
                assert(rest[0] == view[i as int]);
                if str_equals(entries[i].0.as_str(), key) {
                    assert(value@ == JsonView::Object(view));
                    assert(entry_value(rest, key@) == Some(rest[0].1));
                    return Some(&entries[i].1);
                }
                assert(rest.drop_first() =~= view.subrange(i + 1, view.len() as int));
                i = i + 1;
            }
            assert(value@ == JsonView::Object(view));
            assert(view.subrange(i as int, view.len() as int).len() == 0);
            None
        },
        _ => None,
    }
}

/// The step `0` of a JSON pointer.
fn first_step_in<'a>(value: &'a JsonValue) -> (found: Option<&'a JsonValue>)
    ensures
        (match found {
            Some(f) => first_step(Some(value@)) == Some(f@),
            None => first_step(Some(value@)) is None,
        }),
{
    match value {
        JsonValue::Array(items) => {
            proof {
                lemma_items_view(items@);
            }
            if items.len() > 0 {
                Some(&items[0])
            } else {
                None
            }
        },
        JsonValue::Object(_) => object_member(value, "0"),
        _ => None,
    }
}

/// The last element of an array.
fn last_element_in<'a>(value: &'a JsonValue) -> (found: Option<&'a JsonValue>)
    ensures
        (match found {
            Some(f) => last_element(Some(value@)) == Some(f@),
            None => last_element(Some(value@)) is None,
        }),
{
    match value {
        JsonValue::Array(items) => {
            proof {
                lemma_items_view(items@);
            }
            if items.len() > 0 {
                Some(&items[items.len() - 1])
            } else {
                None
            }
        },
        _ => None,
    }
}

/// A value that may be missing, as data.
pub open spec fn optional_view(value: Option<&JsonValue>) -> Option<JsonView> {
    match value {
        Some(v) => Some(v@),
        None => None,
    }
}

/// The member `key` of the value, when there is one and it is an object.
pub fn member_of<'a>(value: Option<&'a JsonValue>, key: &str) -> (found: Option<&'a JsonValue>)
    ensures
        optional_view(found) == member(optional_view(value), key@),
{
    match value {
        Some(v) => object_member(v, key),
        None => None,
    }
}

/// The step `0` of a JSON pointer from the value, when there is one.
pub fn first_step_of<'a>(value: Option<&'a JsonValue>) -> (found: Option<&'a JsonValue>)
    ensures
        optional_view(found) == first_step(optional_view(value)),
{
    match value {
        Some(v) => first_step_in(v),
        None => None,
    }
}

/// The last element of the value, when there is one and it is a non-empty array.
pub fn last_element_of<'a>(value: Option<&'a JsonValue>) -> (found: Option<&'a JsonValue>)
    ensures
        optional_view(found) == last_element(optional_view(value)),
{
    match value {
        Some(v) => last_element_in(v),
        None => None,
    }
}

/// The text of the value, when there is one and it is a string.
pub fn string_value(value: Option<&JsonValue>) -> (text: Option<String>)
    ensures
        optional_text(text) == string_of(optional_view(value)),
{
    match value {
        Some(JsonValue::Str(s)) => Some(s.clone()),
        _ => None,
    }
}

/// The value as a `usize`, when there is one and it is a number that fits in a `u64`.
pub fn position_value(value: Option<&JsonValue>) -> (position: Option<usize>)
    ensures
        position == position_of(optional_view(value)),
{
    match value {
        Some(JsonValue::Number(Some(n), _)) => Some(*n as usize),
        _ => None,
    }
}

/// A message as the server reads it, as data.
pub enum RequestView {
    Initialize,
    Initialized,
    Shutdown,
    Exit,
    DidOpen { uri: Option<Seq<char>>, text: Option<Seq<char>> },
    DidChange { uri: Option<Seq<char>>, text: Option<Seq<char>> },
    DidClose { uri: Option<Seq<char>> },
    CodeAction { uri: Option<Seq<char>>, line: Option<usize>, character: Option<usize> },
    ExecuteCommand { command: Option<Seq<char>>, argument: Option<Seq<char>> },
    Other { has_id: bool },
}

impl View for LspRequest {
    type V = RequestView;

    open spec fn view(&self) -> RequestView {
        match *self {
            LspRequest::Initialize => RequestView::Initialize,
            LspRequest::Initialized => RequestView::Initialized,
            LspRequest::Shutdown => RequestView::Shutdown,
            LspRequest::Exit => RequestView::Exit,
            LspRequest::DidOpen { uri, text } => RequestView::DidOpen {
                uri: optional_text(uri),
                text: optional_text(text),
            },
            LspRequest::DidChange { uri, text } => RequestView::DidChange {
                uri: optional_text(uri),
                text: optional_text(text),
            },
            LspRequest::DidClose { uri } => RequestView::DidClose { uri: optional_text(uri) },
            LspRequest::CodeAction { uri, line, character } => RequestView::CodeAction {
                uri: optional_text(uri),
                line,
                character,
            },
            LspRequest::ExecuteCommand { command, argument } => RequestView::ExecuteCommand {
                command: optional_text(command),
                argument: optional_text(argument),
            },
            LspRequest::Other { has_id } => RequestView::Other { has_id },
        }
    }
}

/// A request that may be missing, as data.
pub open spec fn optional_request(request: Option<LspRequest>) -> Option<RequestView> {
    match request {
        Some(r) => Some(r@),
        None => None,
    }
}

/// What the server reads of a message: nothing when `method` is not a string; else, by the
/// method, the fields that it uses. A document's `params.textDocument.uri` and `text`; the
/// `text` of the last of `params.contentChanges`; `params.range.start.line` and `character`
/// as numbers that fit in a `u64`; `params.command` and `params.arguments/0`; and for any
/// other method whether the message has an `id`.
pub open spec fn request_spec(message: JsonView) -> Option<RequestView> {
    let m = Some(message);
    let params = member(m, "params"@);
    let document = member(params, "textDocument"@);
    match string_of(member(m, "method"@)) {
        None => None,
        Some(method) => Some(
            match method_kind_spec(method) {
                MethodKind::Initialize => RequestView::Initialize,
                MethodKind::Initialized => RequestView::Initialized,
                MethodKind::Shutdown => RequestView::Shutdown,
                MethodKind::Exit => RequestView::Exit,
                MethodKind::DidOpen => RequestView::DidOpen {
                    uri: string_of(member(document, "uri"@)),
                    text: string_of(member(document, "text"@)),
                },
                MethodKind::DidChange => RequestView::DidChange {
                    uri: string_of(member(document, "uri"@)),
                    text: string_of(member(last_element(member(params, "contentChanges"@)), "text"@)),
                },
                MethodKind::DidClose => RequestView::DidClose { uri: string_of(member(document, "uri"@)) },
                MethodKind::CodeAction => {
                    let start = member(member(params, "range"@), "start"@);
                    RequestView::CodeAction {
                        uri: string_of(member(document, "uri"@)),
                        line: position_of(member(start, "line"@)),
                        character: position_of(member(start, "character"@)),
                    }
                },
                MethodKind::ExecuteCommand => RequestView::ExecuteCommand {
                    command: string_of(member(params, "command"@)),
                    argument: string_of(first_step(member(params, "arguments"@))),
                },
                MethodKind::Other => RequestView::Other { has_id: member(m, "id"@) is Some },
            },
        ),
    }
}

/// What the server reads of a message, or nothing when its `method` is not a string.
pub fn request_from_value(message: &JsonValue) -> (request: Option<LspRequest>)
    ensures
        optional_request(request) == request_spec(message@),
{
    let m = Some(message);
    let method = match string_value(member_of(m, "method")) {
        Some(method) => method,
        None => return None,
    };
    let params = member_of(m, "params");
    let document = member_of(params, "textDocument");
    let request = match crate::lsp::method_kind(method.as_str()) {
        MethodKind::Initialize => LspRequest::Initialize,
        MethodKind::Initialized => LspRequest::Initialized,
        MethodKind::Shutdown => LspRequest::Shutdown,
        MethodKind::Exit => LspRequest::Exit,
        MethodKind::DidOpen => LspRequest::DidOpen {
            uri: string_value(member_of(document, "uri")),
            text: string_value(member_of(document, "text")),
        },
        MethodKind::DidChange => LspRequest::DidChange {
            uri: string_value(member_of(document, "uri")),
            text: string_value(member_of(last_element_of(member_of(params, "contentChanges")), "text")),
        },
        MethodKind::DidClose => LspRequest::DidClose { uri: string_value(member_of(document, "uri")) },
        MethodKind::CodeAction => {
            let start = member_of(member_of(params, "range"), "start");
            LspRequest::CodeAction {
                uri: string_value(member_of(document, "uri")),
                line: position_value(member_of(start, "line")),
                character: position_value(member_of(start, "character")),
            }
        },
        MethodKind::ExecuteCommand => LspRequest::ExecuteCommand {
            command: string_value(member_of(params, "command")),
            argument: string_value(first_step_of(member_of(params, "arguments"))),
        },
        MethodKind::Other => LspRequest::Other { has_id: member_of(m, "id").is_some() },
    };
    Some(request)
}

/// The `id` of a message, when it has one: the reply carries it back.
pub fn message_id<'a>(message: &'a JsonValue) -> (id: Option<&'a JsonValue>)
    ensures
        optional_view(id) == member(Some(message@), "id"@),
{
    member_of(Some(message), "id")
}

/// What `serde_json::from_slice::<serde_json::Value>` makes of a body: the value it reads,
/// as data, or the message of the error it returns.
pub uninterp spec fn json_body(body: Seq<u8>) -> Result<JsonView, Seq<char>>;

/// Reads a body with `serde_json::from_slice::<serde_json::Value>`; an error comes back as
/// its message. The contract claims only that the outcome is `json_body` of the bytes: which
/// bodies serde_json reads, and as what, is not restated.
#[verifier::external_body]
fn parse_json_body(body: &[u8]) -> (res: Result<JsonValue, String>)
    ensures
        (match json_body(body@) {
            Ok(value) => res matches Ok(found) && found@ == value,
            Err(message) => res matches Err(e) && e@ == message,
        }),
{
    match serde_json::from_slice::<serde_json::Value>(body) {
        Ok(value) => Ok(json_value_of(&value)),
        Err(error) => Err(error.to_string()),
    }
}

/// Turns a `serde_json::Value` into a `JsonValue` one for one, for `parse_json_body`: a
/// number into `as_u64` and its text, an object into its entries in the map's order.
#[verifier::external_body]
fn json_value_of(value: &serde_json::Value) -> JsonValue {
    match value {
        serde_json::Value::Null => JsonValue::Null,
        serde_json::Value::Bool(b) => JsonValue::Bool(*b),
        serde_json::Value::Number(n) => JsonValue::Number(n.as_u64(), n.to_string()),
        serde_json::Value::String(s) => JsonValue::Str(s.clone()),
        serde_json::Value::Array(items) => JsonValue::Array(items.iter().map(json_value_of).collect()),
        serde_json::Value::Object(map) => JsonValue::Object(
            map.iter().map(|(key, item)| (key.clone(), json_value_of(item))).collect(),
        ),
    }
}

/// Reads a message body: the JSON value, and what the server reads of it (nothing when its
/// `method` is not a string); or the error of a body that is not JSON.
pub fn decode_message(body: &[u8]) -> (res: Result<(JsonValue, Option<LspRequest>), String>)
    ensures
        (match json_body(body@) {
            Ok(value) => res matches Ok((message, request)) && message@ == value && optional_request(
                request,
            ) == request_spec(value),
            Err(error) => res matches Err(e) && e@ == error,
        }),
{
    match parse_json_body(body) {
        Ok(message) => {
            let request = request_from_value(&message);
            Ok((message, request))
        },
        Err(error) => Err(error),
    }
}

/// The title of the code action and of its command.
pub const ACTION_TITLE: &'static str = "JSONPath: Copy key path";

/// The kind of the code action.
pub const ACTION_KIND: &'static str = "refactor";

/// The capabilities that the server announces: whole-document sync with open and close
/// notices, code actions, and the copy command.
pub open spec fn capabilities_view() -> JsonView {
    JsonView::Object(
        seq![
            (
                "capabilities"@,
                JsonView::Object(
                    seq![
                        (
                            "textDocumentSync"@,
                            JsonView::Object(
                                seq![
                                    ("openClose"@, JsonView::Bool(true)),
                                    ("change"@, JsonView::Number(Some(1u64), "1"@)),
                                ],
                            ),
                        ),
                        ("codeActionProvider"@, JsonView::Bool(true)),
                        (
                            "executeCommandProvider"@,
                            JsonView::Object(
                                seq![
                                    (
                                        "commands"@,
                                        JsonView::Array(seq![JsonView::Str(COPY_KEY_PATH_COMMAND@)]),
                                    ),
                                ],
                            ),
                        ),
                    ],
                ),
            ),
        ],
    )
}

/// The one code action, which runs the copy command on the key path.
pub open spec fn copy_action_view(key_path: Seq<char>) -> JsonView {
    JsonView::Array(
        seq![
            JsonView::Object(
                seq![
                    ("title"@, JsonView::Str(ACTION_TITLE@)),
                    ("kind"@, JsonView::Str(ACTION_KIND@)),
                    (
                        "command"@,
                        JsonView::Object(
                            seq![
                                ("title"@, JsonView::Str(ACTION_TITLE@)),
                                ("command"@, JsonView::Str(COPY_KEY_PATH_COMMAND@)),
                                ("arguments"@, JsonView::Array(seq![JsonView::Str(key_path)])),
                            ],
                        ),
                    ),
                ],
            ),
        ],
    )
}

/// The result that a reply carries, as JSON.
pub open spec fn response_spec(response: LspResponse) -> JsonView {
    match response {
        LspResponse::Capabilities => capabilities_view(),
        LspResponse::Null => JsonView::Null,
        LspResponse::NoActions => JsonView::Array(Seq::empty()),
        LspResponse::CopyKeyPathAction(key_path) => copy_action_view(key_path@),
    }
}

fn text_value(text: &str) -> (value: JsonValue)
    ensures
        value@ == JsonView::Str(text@),
{
    JsonValue::Str(owned(text))
}

fn entry(key: &str, value: JsonValue) -> (e: (String, JsonValue))
    ensures
        e.0@ == key@,
        e.1@ == value@,
{
    (owned(key), value)
}

fn array_of(items: Vec<JsonValue>) -> (value: JsonValue)
    ensures
        value@ == JsonView::Array(Seq::new(items@.len(), |i: int| items@[i]@)),
{
    proof {
        lemma_items_view(items@);
        assert(items_view(items@) =~= Seq::new(items@.len(), |i: int| items@[i]@));
    }
    JsonValue::Array(items)
}

fn object_of(entries: Vec<(String, JsonValue)>) -> (value: JsonValue)
    ensures
        value@ == JsonView::Object(Seq::new(entries@.len(), |i: int| (entries@[i].0@, entries@[i].1@))),
{
    proof {
        lemma_entries_view(entries@);
        assert(entries_view(entries@) =~= Seq::new(
            entries@.len(),
            |i: int| (entries@[i].0@, entries@[i].1@),
        ));
    }
    JsonValue::Object(entries)
}

fn array1(item: JsonValue) -> (value: JsonValue)
    ensures
        value@ == JsonView::Array(seq![item@]),
{
    let ghost v = item@;
    let mut items = Vec::new();
    items.push(item);
    let value = array_of(items);
    assert(Seq::new(items@.len(), |i: int| items@[i]@) =~= seq![v]);
    value
}

fn object1(k1: &str, v1: JsonValue) -> (value: JsonValue)
    ensures
        value@ == JsonView::Object(seq![(k1@, v1@)]),
{
    let ghost a = v1@;
    let mut entries = Vec::new();
    entries.push(entry(k1, v1));
    let value = object_of(entries);
    assert(Seq::new(entries@.len(), |i: int| (entries@[i].0@, entries@[i].1@)) =~= seq![(k1@, a)]);
    value
}

fn object2(k1: &str, v1: JsonValue, k2: &str, v2: JsonValue) -> (value: JsonValue)
    ensures
        value@ == JsonView::Object(seq![(k1@, v1@), (k2@, v2@)]),
{
    let ghost a = v1@;
    let ghost b = v2@;
    let mut entries = Vec::new();
    entries.push(entry(k1, v1));
    entries.push(entry(k2, v2));
    let value = object_of(entries);
    assert(Seq::new(entries@.len(), |i: int| (entries@[i].0@, entries@[i].1@)) =~= seq![(k1@, a), (k2@, b)]);
    value
}

fn object3(k1: &str, v1: JsonValue, k2: &str, v2: JsonValue, k3: &str, v3: JsonValue) -> (value: JsonValue)
    ensures
        value@ == JsonView::Object(seq![(k1@, v1@), (k2@, v2@), (k3@, v3@)]),
{
    let ghost a = v1@;
    let ghost b = v2@;
    let ghost c = v3@;
    let mut entries = Vec::new();
    entries.push(entry(k1, v1));
    entries.push(entry(k2, v2));
    entries.push(entry(k3, v3));
    let value = object_of(entries);
    assert(Seq::new(entries@.len(), |i: int| (entries@[i].0@, entries@[i].1@)) =~= seq![
        (k1@, a),
        (k2@, b),
        (k3@, c),
    ]);
    value
}

fn capabilities() -> (value: JsonValue)
    ensures
        value@ == capabilities_view(),
{
    let sync = object2("openClose", JsonValue::Bool(true), "change", JsonValue::Number(Some(1), owned("1")));
    let commands = object1("commands", array1(text_value(COPY_KEY_PATH_COMMAND)));
    let inner = object3(
        "textDocumentSync",
        sync,
        "codeActionProvider",
        JsonValue::Bool(true),
        "executeCommandProvider",
        commands,
    );
    object1("capabilities", inner)
}

fn copy_action(key_path: String) -> (value: JsonValue)
    ensures
        value@ == copy_action_view(key_path@),
{
    let command = object3(
        "title",
        text_value(ACTION_TITLE),
        "command",
        text_value(COPY_KEY_PATH_COMMAND),
        "arguments",
        array1(JsonValue::Str(key_path)),
    );
    let action = object3("title", text_value(ACTION_TITLE), "kind", text_value(ACTION_KIND), "command", command);
    array1(action)
}

/// The result that a reply carries, as JSON: the capabilities, `null`, no actions, or the
/// one action titled "JSONPath: Copy key path" of kind "refactor" that runs the copy
/// command on the key path.
pub fn response_value(response: LspResponse) -> (value: JsonValue)
    ensures
        value@ == response_spec(response),
{
    match response {
        LspResponse::Capabilities => capabilities(),
        LspResponse::Null => JsonValue::Null,
        LspResponse::NoActions => {
            let items: Vec<JsonValue> = Vec::new();
            let value = array_of(items);
            assert(Seq::new(items@.len(), |i: int| items@[i]@) =~= Seq::<JsonView>::empty());
            value
        },
        LspResponse::CopyKeyPathAction(key_path) => copy_action(key_path),
    }
}

} // verus!
