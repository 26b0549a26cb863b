//! The gateway protocol: requests, answers and the calls that wait for them.
use vstd::prelude::*;
use vstd::string::*;

use crate::config::OpenClawConfig;
use crate::json::{
    bool_in, distinct_names, distinct_names_in_field, field, field_is_found, field_of, json_parse,
    json_parse_bytes, json_text, marked, marks_tell_names_apart, parse_bytes, parse_text,
    plain_within, render, text_in, u64_in, Json, JsonTree, NumberModel, ObjectBuilder,
};
use crate::sessions::text_or_empty;
use crate::text::{
    closes, concat, concat3, decimal, decimal_has_digits, decimal_injective, decimal_string, joined,
    joined_injective, numeral_stands_for_its_number, numeral_value, occurs, optional_text, owned,
    same_text, stands_at, trim, trimmed, trimming_leaves_the_middle, white_space,
};

verus! {

/// The seconds after which an answer is no longer awaited.
pub const CALL_TIMEOUT_SECS: u64 = 10;

// ---------------------------------------------------------------------------
// Errors
// ---------------------------------------------------------------------------
/// Why a gateway operation failed.
#[derive(Debug)]
pub enum GatewayError {
    EmptyUrl,
    EmptyMessage,
    TextPayload,
    BinaryPayload,
    ControlFrame,
    RequestFailed { method: String, error: String },
}

impl GatewayError {
    /// The text of the error.
    pub open spec fn text(&self) -> Seq<char> {
        match self {
            GatewayError::EmptyUrl => "openclaw gateway url is empty"@,
            GatewayError::EmptyMessage => "cannot send an empty message"@,
            GatewayError::TextPayload => "failed to decode text websocket payload"@,
            GatewayError::BinaryPayload => "failed to decode binary websocket payload"@,
            GatewayError::ControlFrame => "received non-JSON websocket control frame"@,
            GatewayError::RequestFailed { method, error } => "gateway request failed for "@
                + method@ + ": "@ + error@,
        }
    }

    /// The text of the error.
    pub fn message(&self) -> (r: String)
        ensures
            r@ == self.text(),
    {
        match self {
            GatewayError::EmptyUrl => owned("openclaw gateway url is empty"),
            GatewayError::EmptyMessage => owned("cannot send an empty message"),
            GatewayError::TextPayload => owned("failed to decode text websocket payload"),
            GatewayError::BinaryPayload => owned("failed to decode binary websocket payload"),
            GatewayError::ControlFrame => owned("received non-JSON websocket control frame"),
            GatewayError::RequestFailed { method, error } => {
                let mut r = concat3("gateway request failed for ", method.as_str(), ": ");
                r.append(error.as_str());
                r
            },
        }
    }
}

// ---------------------------------------------------------------------------
// The client
// ---------------------------------------------------------------------------
/// The settings of a gateway client.
#[derive(Debug, Clone)]
pub struct OpenClawGatewayClient {
    config: OpenClawConfig,
}

/// The text, unless it is empty.
pub open spec fn unless_empty(s: Seq<char>) -> Option<Seq<char>> {
    if s.len() == 0 {
        None
    } else {
        Some(s)
    }
}

/// The view of an optional string slice.
pub open spec fn slice_view(s: Option<&str>) -> Option<Seq<char>> {
    match s {
        Some(t) => Some(t@),
        None => None,
    }
}

impl OpenClawGatewayClient {
    /// The settings.
    pub closed spec fn settings(&self) -> OpenClawConfig {
        self.config
    }

    /// A client with the given settings.
    pub fn new(config: OpenClawConfig) -> (client: Self)
        ensures
            client.settings() == config,
    {
        OpenClawGatewayClient { config }
    }

    /// Where the gateway is.
    pub fn gateway_url(&self) -> (url: &str)
        ensures
            url@ == self.settings().gateway_url@,
    {
        self.config.gateway_url.as_str()
    }

    /// The session key that was set, if any.
    pub fn session_key(&self) -> (r: Option<&str>)
        ensures
            slice_view(r) == unless_empty(self.settings().session_key@),
            match r {
                Some(key) => key@ == self.settings().session_key@ && key@.len() > 0,
                None => self.settings().session_key@.len() == 0,
            },
    {
        if self.config.session_key.as_str().is_empty() {
            None
        } else {
            Some(self.config.session_key.as_str())
        }
    }

    /// The session filter that was set, if any.
    pub fn session_filter(&self) -> (r: Option<&str>)
        ensures
            slice_view(r) == unless_empty(self.settings().session_filter@),
            match r {
                Some(filter) => filter@ == self.settings().session_filter@ && filter@.len() > 0,
                None => self.settings().session_filter@.len() == 0,
            },
    {
        if self.config.session_filter.as_str().is_empty() {
            None
        } else {
            Some(self.config.session_filter.as_str())
        }
    }

    /// Checks that there is a gateway to connect to.
    pub fn describe_connectivity(&self) -> (r: Result<(), GatewayError>)
        ensures
            match r {
                Ok(_) => self.settings().gateway_url@.len() > 0,
                Err(e) => e is EmptyUrl && self.settings().gateway_url@.len() == 0,
            },
    {
        if self.config.gateway_url.as_str().is_empty() {
            return Err(GatewayError::EmptyUrl);
        }
        Ok(())
    }
}

// ---------------------------------------------------------------------------
// Messages on the wire
// ---------------------------------------------------------------------------
/// A message as it came over the connection.
#[derive(Debug)]
pub enum WireMessage {
    Text(String),
    Binary(Vec<u8>),
    /// A ping, a pong, a close or a raw frame.
    Control,
}

/// The document that a message holds, if it holds one.
pub open spec fn document_in(message: WireMessage) -> Option<JsonTree> {
    match message {
        WireMessage::Text(text) => json_parse(text@),
        WireMessage::Binary(bytes) => json_parse_bytes(bytes@),
        WireMessage::Control => None,
    }
}

/// The error for a message that holds no document.
pub open spec fn unreadable(message: WireMessage) -> GatewayError {
    match message {
        WireMessage::Text(_) => GatewayError::TextPayload,
        WireMessage::Binary(_) => GatewayError::BinaryPayload,
        WireMessage::Control => GatewayError::ControlFrame,
    }
}

/// Reads the JSON document that a message holds.
pub fn parse_json_message(message: &WireMessage) -> (r: Result<Json, GatewayError>)
    ensures
        match r {
            Ok(json) => document_in(*message) == Some(json@) && distinct_names(json@),
            Err(error) => document_in(*message) is None && error == unreadable(*message),
        },
        match (*message, r) {
            (WireMessage::Text(text), Ok(json)) => json_parse(text@) == Some(json@),
            (WireMessage::Text(text), Err(error)) => {
                json_parse(text@) is None && error is TextPayload
            },
            (WireMessage::Binary(bytes), Ok(json)) => json_parse_bytes(bytes@) == Some(json@),
            (WireMessage::Binary(bytes), Err(error)) => {
                json_parse_bytes(bytes@) is None && error is BinaryPayload
            },
            (WireMessage::Control, r) => r matches Err(error) && error is ControlFrame,
        },
{
    match message {
        WireMessage::Text(text) => match parse_text(text.as_str()) {
            Some(json) => Ok(json),
            None => Err(GatewayError::TextPayload),
        },
        WireMessage::Binary(bytes) => match parse_bytes(bytes.as_slice()) {
            Some(json) => Ok(json),
            None => Err(GatewayError::BinaryPayload),
        },
        WireMessage::Control => Err(GatewayError::ControlFrame),
    }
}

/// The answer to a call.
#[derive(Debug)]
pub struct RpcResponse {
    pub ok: bool,
    pub payload: Option<Json>,
    pub error: Option<Json>,
}

/// What the answer to a call holds.
pub struct ResponseModel {
    pub ok: bool,
    pub payload: Option<JsonTree>,
    pub error: Option<JsonTree>,
}

/// The document that an optional value holds.
pub open spec fn optional_tree(json: Option<Json>) -> Option<JsonTree> {
    match json {
        Some(j) => Some(j@),
        None => None,
    }
}

impl View for RpcResponse {
    type V = ResponseModel;

    open spec fn view(&self) -> ResponseModel {
        ResponseModel {
            ok: self.ok,
            payload: optional_tree(self.payload),
            error: optional_tree(self.error),
        }
    }
}

/// The documents of an answer have no doubled names.
pub open spec fn response_wf(response: ResponseModel) -> bool {
    &&& response.payload matches Some(tree) ==> distinct_names(tree)
    &&& response.error matches Some(tree) ==> distinct_names(tree)
}

impl RpcResponse {
    /// The answer to a call whose connection stopped.
    pub fn stopped(reason: &str) -> (r: RpcResponse)
        ensures
            r@ == (ResponseModel {
                ok: false,
                payload: None,
                error: Some(JsonTree::Text(reason@)),
            }),
            response_wf(r@),
    {
        RpcResponse { ok: false, payload: None, error: Some(Json::text(reason)) }
    }
}

/// What a document from the gateway is.
#[derive(Debug)]
pub enum GatewayFrame {
    /// The answer to the call with that identifier.
    Response { id: String, response: RpcResponse },
    /// An event of that name.
    Event(String),
    /// Something else of that type.
    Other(String),
}

/// What a document from the gateway is.
pub enum FrameModel {
    Response { id: Seq<char>, response: ResponseModel },
    Event(Seq<char>),
    Other(Seq<char>),
}

impl View for GatewayFrame {
    type V = FrameModel;

    open spec fn view(&self) -> FrameModel {
        match self {
            GatewayFrame::Response { id, response } => FrameModel::Response {
                id: id@,
                response: response@,
            },
            GatewayFrame::Event(name) => FrameModel::Event(name@),
            GatewayFrame::Other(kind) => FrameModel::Other(kind@),
        }
    }
}

/// The truth value under a name; a missing one is false.
pub open spec fn flag(tree: JsonTree, name: Seq<char>) -> bool {
    bool_in(field(tree, name)) == Some(true)
}

/// How a document from the gateway is understood.
pub open spec fn frame_of(tree: JsonTree) -> FrameModel {
    let kind = text_or_empty(text_in(field(tree, "type"@)));
    if kind == "res"@ {
        FrameModel::Response {
            id: text_or_empty(text_in(field(tree, "id"@))),
            response: ResponseModel {
                ok: flag(tree, "ok"@),
                payload: field(tree, "payload"@),
                error: field(tree, "error"@),
            },
        }
    } else if kind == "event"@ {
        FrameModel::Event(
            match text_in(field(tree, "event"@)) {
                Some(name) => name,
                None => "unknown"@,
            },
        )
    } else {
        FrameModel::Other(kind)
    }
}

/// The truth value under a name; a missing one is false.
pub fn flag_of(json: &Json, name: &str) -> (r: bool)
    ensures
        r == flag(json@, name@),
{
    match json.get(name) {
        Some(inner) => match inner.as_bool() {
            Some(b) => b,
            None => false,
        },
        None => false,
    }
}

/// The text under a name, or the empty text.
pub fn text_or_default(json: &Json, name: &str) -> (r: String)
    ensures
        r@ == text_or_empty(text_in(field(json@, name@))),
{
    match json.text_field(name) {
        Some(s) => s,
        None => String::new(),
    }
}

/// Tells what a document from the gateway is.
pub fn classify_frame(value: Json) -> (frame: GatewayFrame)
    ensures
        frame@ == frame_of(value@),
        distinct_names(value@) && frame@ is Response ==> response_wf(frame@->response),
{
    let kind = text_or_default(&value, "type");
    if same_text(kind.as_str(), "res") {
        let id = text_or_default(&value, "id");
        let ok = flag_of(&value, "ok");
        proof {
            reveal_strlit("payload");
            reveal_strlit("error");
            assert("payload"@.len() != "error"@.len());
            if distinct_names(value@) {
                distinct_names_in_field(value@, "payload"@);
                distinct_names_in_field(value@, "error"@);
            }
        }
        let (payload, error) = value.take_two("payload", "error");
        return GatewayFrame::Response { id, response: RpcResponse { ok, payload, error } };
    }
    if same_text(kind.as_str(), "event") {
        let name = match value.text_field("event") {
            Some(name) => name,
            None => owned("unknown"),
        };
        return GatewayFrame::Event(name);
    }
    GatewayFrame::Other(kind)
}

// ---------------------------------------------------------------------------
// Calls
// ---------------------------------------------------------------------------
/// The request frame of a call.
pub open spec fn request_tree(
    id: Seq<char>,
    method: Seq<char>,
    params: JsonTree,
) -> JsonTree {
    JsonTree::Object(
        seq![
            ("type"@, JsonTree::Text("req"@)),
            ("id"@, JsonTree::Text(id)),
            ("method"@, JsonTree::Text(method)),
            ("params"@, params),
        ],
    )
}

/// The request frame of a call.
pub fn rpc_request(id: &str, method: &str, params: Json) -> (json: Json)
    requires
        distinct_names(params@),
    ensures
        json@ == request_tree(id@, method@, params@),
        distinct_names(json@),
{
    proof {
        reveal_strlit("type");
        reveal_strlit("id");
        reveal_strlit("method");
        reveal_strlit("params");
        marked("type"@);
        marked("id"@);
        marked("method"@);
        marked("params"@);
    }
    let mut builder = ObjectBuilder::new();
    builder.put_text("type", "req");
    builder.put_text("id", id);
    builder.put_text("method", method);
    builder.put("params", params);
    let json = builder.build();
    assert(json@->Object_0 =~= request_tree(id@, method@, params@)->Object_0);
    json
}

/// The document, or the JSON string "unknown error" where there is none.
pub open spec fn error_or_unknown(error: Option<JsonTree>) -> JsonTree {
    match error {
        Some(tree) => tree,
        None => JsonTree::Text("unknown error"@),
    }
}

/// The text of an error document.
pub fn error_text(error: Option<Json>) -> (r: String)
    requires
        optional_tree(error) matches Some(tree) ==> distinct_names(tree),
    ensures
        r@ == json_text(error_or_unknown(optional_tree(error))),
{
    match error {
        Some(json) => render(json),
        None => render(Json::text("unknown error")),
    }
}

/// What a call returns for its answer: the payload, or null where there is none,
/// or else the error.
pub fn call_outcome(method: &str, response: RpcResponse) -> (r: Result<Json, GatewayError>)
    requires
        response_wf(response@),
    ensures
        match r {
            Ok(payload) => {
                &&& response@.ok
                &&& payload@ == (match response@.payload {
                    Some(tree) => tree,
                    None => JsonTree::Null,
                })
                &&& distinct_names(payload@)
            },
            Err(GatewayError::RequestFailed { method: failed, error }) => {
                &&& !response@.ok
                &&& failed@ == method@
                &&& error@ == json_text(error_or_unknown(response@.error))
            },
            Err(_) => false,
        },
{
    if response.ok {
        match response.payload {
            Some(payload) => Ok(payload),
            None => Ok(Json::Null),
        }
    } else {
        Err(
            GatewayError::RequestFailed {
                method: owned(method),
                error: error_text(response.error),
            },
        )
    }
}

/// The low 64 bits of a number of milliseconds.
pub fn unix_ms(millis: u128) -> (ms: u64)
    ensures
        ms == millis % 0x1_0000_0000_0000_0000,
{
    (millis % 0x1_0000_0000_0000_0000) as u64
}

/// The parameters of a call without parameters.
fn no_params() -> (json: Json)
    ensures
        json@ == JsonTree::Object(Seq::empty()),
        distinct_names(json@),
{
    ObjectBuilder::new().build()
}

/// The parameters that send a message.
pub open spec fn chat_send_tree(
    session_key: Seq<char>,
    message: Seq<char>,
    idempotency_key: Seq<char>,
    deliver: bool,
) -> JsonTree {
    JsonTree::Object(
        seq![
            ("sessionKey"@, JsonTree::Text(session_key)),
            ("message"@, JsonTree::Text(message)),
            ("idempotencyKey"@, JsonTree::Text(idempotency_key)),
            ("deliver"@, JsonTree::Bool(deliver)),
        ],
    )
}

/// The message to send, without surrounding white space; a blank one is refused.
pub fn outgoing_message(message: &str) -> (r: Result<String, GatewayError>)
    ensures
        match r {
            Ok(text) => text@ == trimmed(message@) && text@.len() > 0,
            Err(e) => e is EmptyMessage && trimmed(message@).len() == 0,
        },
{
    let body = trim(message);
    if body.is_empty() {
        return Err(GatewayError::EmptyMessage);
    }
    Ok(owned(body))
}

/// The parameters that send a message.
fn chat_send_params(
    session_key: &str,
    message: &str,
    idempotency_key: &str,
    deliver: bool,
) -> (json: Json)
    ensures
        json@ == chat_send_tree(session_key@, message@, idempotency_key@, deliver),
        distinct_names(json@),
{
    proof {
        reveal_strlit("sessionKey");
        reveal_strlit("message");
        reveal_strlit("idempotencyKey");
        reveal_strlit("deliver");
        marked("sessionKey"@);
        marked("message"@);
        marked("idempotencyKey"@);
        marked("deliver"@);
    }
    let mut builder = ObjectBuilder::new();
    builder.put_text("sessionKey", session_key);
    builder.put_text("message", message);
    builder.put_text("idempotencyKey", idempotency_key);
    builder.put("deliver", Json::Bool(deliver));
    let json = builder.build();
    assert(json@->Object_0 =~= chat_send_tree(
        session_key@,
        message@,
        idempotency_key@,
        deliver,
    )->Object_0);
    json
}

/// The parameters that ask for the messages of a session.
pub open spec fn sessions_get_tree(key: Seq<char>, limit: u64) -> JsonTree {
    JsonTree::Object(
        seq![
            ("key"@, JsonTree::Text(key)),
            ("limit"@, JsonTree::Number(NumberModel::Unsigned(limit))),
        ],
    )
}

/// The parameters that ask for the messages of a session.
fn sessions_get_params(key: &str, limit: u64) -> (json: Json)
    ensures
        json@ == sessions_get_tree(key@, limit),
        distinct_names(json@),
{
    proof {
        reveal_strlit("key");
        reveal_strlit("limit");
        marked("key"@);
        marked("limit"@);
    }
    let mut builder = ObjectBuilder::new();
    builder.put_text("key", key);
    builder.put("limit", Json::unsigned(limit));
    let json = builder.build();
    assert(json@->Object_0 =~= sessions_get_tree(key@, limit)->Object_0);
    json
}

/// A call to the gateway.
#[derive(Debug)]
pub struct GatewayCall {
    pub method: String,
    pub params: Json,
}

impl GatewayCall {
    /// Asks which sessions there are.
    pub fn list_sessions() -> (call: Self)
        ensures
            call.method@ == "sessions.list"@,
            call.params@ == JsonTree::Object(Seq::empty()),
            distinct_names(call.params@),
            plain_within(call.params@, 126),
    {
        GatewayCall { method: owned("sessions.list"), params: no_params() }
    }

    /// Sends a message to a session.
    pub fn send_message(
        session_key: &str,
        message: &str,
        idempotency_key: &str,
        deliver: bool,
    ) -> (call: Self)
        ensures
            call.method@ == "chat.send"@,
            text_in(field(call.params@, "sessionKey"@)) == Some(session_key@),
            text_in(field(call.params@, "message"@)) == Some(message@),
            text_in(field(call.params@, "idempotencyKey"@)) == Some(idempotency_key@),
            bool_in(field(call.params@, "deliver"@)) == Some(deliver),
            call.params@ == chat_send_tree(session_key@, message@, idempotency_key@, deliver),
            distinct_names(call.params@),
            plain_within(call.params@, 126),
    {
        let params = chat_send_params(session_key, message, idempotency_key, deliver);
        proof {
            sent_parameters_are_as_given(session_key@, message@, idempotency_key@, deliver);
        }
        assert forall|i: int| 0 <= i < 4 implies plain_within(
            (#[trigger] params@->Object_0[i]).1,
            125,
        ) by {}
        GatewayCall { method: owned("chat.send"), params }
    }

    /// Asks for the last messages of a session.
    pub fn session_messages(session_key: &str, limit: u64) -> (call: Self)
        ensures
            call.method@ == "sessions.get"@,
            text_in(field(call.params@, "key"@)) == Some(session_key@),
            u64_in(field(call.params@, "limit"@)) == Some(limit),
            call.params@ == sessions_get_tree(session_key@, limit),
            distinct_names(call.params@),
            plain_within(call.params@, 126),
    {
        let params = sessions_get_params(session_key, limit);
        proof {
            history_is_asked_for_as_given(session_key@, limit);
        }
        assert forall|i: int| 0 <= i < 2 implies plain_within(
            (#[trigger] params@->Object_0[i]).1,
            125,
        ) by {}
        GatewayCall { method: owned("sessions.get"), params }
    }
}

/// What the gateway says of a message that was sent.
#[derive(Debug, Clone)]
pub struct SendMessageAck {
    pub status: Option<String>,
    pub run_id: Option<String>,
    pub message_seq: Option<u64>,
}

/// Reads what the gateway says of a message that was sent.
pub fn ack_from_payload(payload: &Json) -> (ack: SendMessageAck)
    ensures
        optional_text(ack.status) == text_in(field(payload@, "status"@)),
        optional_text(ack.run_id) == text_in(field(payload@, "runId"@)),
        ack.message_seq == u64_in(field(payload@, "messageSeq"@)),
{
    SendMessageAck {
        status: payload.text_field("status"),
        run_id: payload.text_field("runId"),
        message_seq: match payload.get("messageSeq") {
            Some(json) => json.as_u64(),
            None => None,
        },
    }
}

// ---------------------------------------------------------------------------
// Calls that wait for their answers
// ---------------------------------------------------------------------------
/// The identifier of the call with that number.
pub open spec fn request_id(number: u64) -> Seq<char> {
    "req-"@ + decimal(number as nat)
}

/// The key by which the gateway recognises a message that is sent twice.
pub open spec fn idempotency_key(now_ms: u64, number: u64) -> Seq<char> {
    "openclaw-listen-"@ + decimal(now_ms as nat) + "-"@ + decimal(number as nat)
}

/// The number after `number`, from the largest back to zero.
pub open spec fn number_after(number: u64) -> u64 {
    if number == u64::MAX {
        0
    } else {
        (number + 1) as u64
    }
}

/// No two of the calls share an identifier.
pub open spec fn ids_differ<T>(calls: Seq<(Seq<char>, T)>) -> bool {
    forall|i: int, j: int|
        0 <= i < j < calls.len() ==> (#[trigger] calls[i]).0 != (#[trigger] calls[j]).0
}

/// What waits for the answer with that identifier.
pub open spec fn waiter<T>(calls: Seq<(Seq<char>, T)>, id: Seq<char>) -> Option<T>
    decreases calls.len(),
{
    if calls.len() == 0 {
        None
    } else if calls.first().0 == id {
        Some(calls.first().1)
    } else {
        waiter(calls.drop_first(), id)
    }
}

/// The calls without the one of that identifier.
pub open spec fn without_call<T>(
    calls: Seq<(Seq<char>, T)>,
    id: Seq<char>,
) -> Seq<(Seq<char>, T)>
    decreases calls.len(),
{
    if calls.len() == 0 {
        calls
    } else if calls.first().0 == id {
        calls.drop_first()
    } else {
        seq![calls.first()] + without_call(calls.drop_first(), id)
    }
}

/// The calls with one more, in place of an earlier one of the same identifier.
pub open spec fn with_call<T>(
    calls: Seq<(Seq<char>, T)>,
    id: Seq<char>,
    ticket: T,
) -> Seq<(Seq<char>, T)>
    decreases calls.len(),
{
    if calls.len() == 0 {
        seq![(id, ticket)]
    } else if calls.first().0 == id {
        seq![(id, ticket)] + calls.drop_first()
    } else {
        seq![calls.first()] + with_call(calls.drop_first(), id, ticket)
    }
}

/// The identifier is that of a number below `next`.
pub open spec fn has_number_below(id: Seq<char>, next: u64) -> bool {
    exists|number: u64| number < next && id == #[trigger] request_id(number)
}

/// Every call that waits was numbered below the counter.
pub open spec fn numbered_below<T>(calls: Seq<(Seq<char>, T)>, next: u64) -> bool {
    forall|i: int| 0 <= i < calls.len() ==> has_number_below((#[trigger] calls[i]).0, next)
}

/// The frame that sends a message, where `next` is the number of the next call: the
/// message goes without surrounding white space.
pub open spec fn message_frame(
    session_key: Seq<char>,
    message: Seq<char>,
    now_ms: u64,
    deliver: bool,
    next: u64,
) -> JsonTree {
    request_tree(
        request_id(number_after(next)),
        "chat.send"@,
        chat_send_tree(session_key, trimmed(message), idempotency_key(now_ms, next), deliver),
    )
}

/// What is left waiting after a document came from the gateway, and the answer that
/// it brought with what waited for it. Only an answer to a call that waits changes
/// anything.
pub open spec fn answered<T>(calls: Seq<(Seq<char>, T)>, tree: JsonTree) -> (
    Seq<(Seq<char>, T)>,
    Option<(T, ResponseModel)>,
) {
    match frame_of(tree) {
        FrameModel::Response { id, response } => (
            without_call(calls, id),
            match waiter(calls, id) {
                Some(ticket) => Some((ticket, response)),
                None => None,
            },
        ),
        _ => (calls, None),
    }
}

/// An answer with what waited for it.
pub open spec fn answer_view<T>(answer: Option<(T, RpcResponse)>) -> Option<(T, ResponseModel)> {
    match answer {
        Some((ticket, response)) => Some((ticket, response@)),
        None => None,
    }
}

/// The calls that wait for their answers, and the counter that numbers them.
pub struct CallTable<T> {
    next: u64,
    waiting: Vec<(String, T)>,
}

impl<T> CallTable<T> {
    /// The number of the next call.
    pub closed spec fn next(&self) -> u64 {
        self.next
    }

    /// The calls that wait, with what waits for each.
    pub closed spec fn calls(&self) -> Seq<(Seq<char>, T)> {
        self.waiting@.map_values(|c: (String, T)| (c.0@, c.1))
    }

    /// No two of the calls share an identifier.
    pub open spec fn wf(&self) -> bool {
        ids_differ(self.calls())
    }

    /// Every call that waits was numbered below the counter. This holds of a new table
    /// and is kept until the counter has gone through all its numbers.
    pub open spec fn numbered(&self) -> bool {
        numbered_below(self.calls(), self.next())
    }

    /// A table without calls, whose first call has number one.
    pub fn new() -> (table: Self)
        ensures
            table.wf(),
            table.numbered(),
            table.next() == 1,
            table.calls() == Seq::<(Seq<char>, T)>::empty(),
    {
        let table = CallTable { next: 1, waiting: Vec::new() };
        assert(table.calls() =~= Seq::empty());
        table
    }

    /// Takes the next number.
    fn take_number(&mut self) -> (number: u64)
        ensures
            number == old(self).next(),
            final(self).next() == number_after(old(self).next()),
            final(self).calls() == old(self).calls(),
            old(self).numbered() && old(self).next() < u64::MAX ==> final(self).numbered(),
    {
        let number: u64 = self.next;
        self.next = if number == u64::MAX {
            0
        } else {
            number + 1
        };
        proof {
            if old(self).numbered() && number < u64::MAX {
                lemma_numbered_further(self.calls(), number, self.next);
            }
        }
        number
    }

    /// The position of the call with that identifier.
    fn position(&self, id: &str) -> (r: Option<usize>)
        ensures
            match r {
                Some(at) => {
                    &&& at < self.calls().len()
                    &&& self.calls()[at as int].0 == id@
                    &&& forall|k: int| 0 <= k < at ==> (#[trigger] self.calls()[k]).0 != id@
                },
                None => forall|k: int|
                    0 <= k < self.calls().len() ==> (#[trigger] self.calls()[k]).0 != id@,
            },
    {
        let mut i: usize = 0;
        while i < self.waiting.len()
            invariant
                i <= self.waiting@.len(),
                self.calls().len() == self.waiting@.len(),
                forall|k: int| 0 <= k < i ==> (#[trigger] self.calls()[k]).0 != id@,
            decreases self.waiting@.len() - i,
        {
            assert(self.calls()[i as int].0 == self.waiting@[i as int].0@);
            if same_text(self.waiting[i].0.as_str(), id) {
                return Some(i);
            }
            i += 1;
        }
        None
    }

    /// Starts a call: `ticket` waits for the answer with the returned identifier.
    pub fn begin(&mut self, ticket: T) -> (id: String)
        requires
            old(self).wf(),
        ensures
            id@ == request_id(old(self).next()),
            final(self).next() == number_after(old(self).next()),
            final(self).calls() == with_call(old(self).calls(), id@, ticket),
            final(self).wf(),
            old(self).numbered() && old(self).next() < u64::MAX ==> {
                &&& final(self).numbered()
                &&& final(self).calls() == old(self).calls().push((id@, ticket))
            },
    {
        let ghost waiting = self.calls();
        let number: u64 = self.take_number();
        let numeral = decimal_string(number);
        let id = concat("req-", numeral.as_str());
        let ghost before = self.calls();
        match self.position(id.as_str()) {
            Some(at) => {
                self.waiting.set(at, (owned(id.as_str()), ticket));
                assert(self.calls() =~= before.update(at as int, (id@, ticket)));
                proof {
                    lemma_call_at(before, id@, ticket, at as int);
                }
            },
            None => {
                self.waiting.push((owned(id.as_str()), ticket));
                assert(self.calls() =~= before.push((id@, ticket)));
                proof {
                    lemma_no_call(before, id@, ticket);
                }
            },
        }
        proof {
            if old(self).numbered() && number < u64::MAX {
                new_call_displaces_none(waiting, number, ticket);
            }
        }
        id
    }

    /// Starts a call: `ticket` waits for its answer. The returned text is the request
    /// frame.
    pub fn start(&mut self, call: GatewayCall, ticket: T) -> (frame: String)
        requires
            old(self).wf(),
            distinct_names(call.params@),
        ensures
            frame@ == json_text(
                request_tree(request_id(old(self).next()), call.method@, call.params@),
            ),
            plain_within(call.params@, 126) ==> {
                &&& json_parse(frame@) == Some(
                    request_tree(request_id(old(self).next()), call.method@, call.params@),
                )
                &&& json_parse(frame@) matches Some(sent)
                &&& text_in(field(sent, "id"@)) == Some(request_id(old(self).next()))
                &&& text_in(field(sent, "method"@)) == Some(call.method@)
                &&& field(sent, "params"@) == Some(call.params@)
            },
            final(self).next() == number_after(old(self).next()),
            final(self).calls() == with_call(
                old(self).calls(),
                request_id(old(self).next()),
                ticket,
            ),
            final(self).wf(),
            old(self).numbered() && old(self).next() < u64::MAX ==> final(self).numbered(),
    {
        let id = self.begin(ticket);
        let ghost params = call.params@;
        let request = rpc_request(id.as_str(), call.method.as_str(), call.params);
        proof {
            if plain_within(params, 126) {
                assert forall|i: int| 0 <= i < 4 implies plain_within(
                    (#[trigger] request@->Object_0[i]).1,
                    126,
                ) by {}
                assert(plain_within(request@, 127));
                requests_say_what_they_ask(id@, call.method@, params);
            }
        }
        render(request)
    }

    /// The key for the next message that is sent.
    pub fn next_idempotency_key(&mut self, now_ms: u64) -> (key: String)
        ensures
            key@ == idempotency_key(now_ms, old(self).next()),
            final(self).next() == number_after(old(self).next()),
            final(self).calls() == old(self).calls(),
            old(self).numbered() && old(self).next() < u64::MAX ==> final(self).numbered(),
    {
        let number: u64 = self.take_number();
        let time = decimal_string(now_ms);
        let numeral = decimal_string(number);
        let mut key = concat3("openclaw-listen-", time.as_str(), "-");
        key.append(numeral.as_str());
        key
    }

    /// Starts the call that sends a message: `ticket` waits for its answer. The
    /// returned text is the request frame. A blank message is refused, and nothing
    /// changes then.
    pub fn start_message(
        &mut self,
        session_key: &str,
        message: &str,
        now_ms: u64,
        deliver: bool,
        ticket: T,
    ) -> (r: Result<String, GatewayError>)
        requires
            old(self).wf(),
        ensures
            final(self).wf(),
            match r {
                Ok(frame) => {
                    let tree = message_frame(
                        session_key@,
                        message@,
                        now_ms,
                        deliver,
                        old(self).next(),
                    );
                    &&& trimmed(message@).len() > 0
                    &&& frame@ == json_text(tree)
                    &&& json_parse(frame@) == Some(tree)
                    &&& json_parse(frame@) matches Some(sent)
                    &&& text_in(field(sent, "method"@)) == Some("chat.send"@)
                    &&& text_in(field(sent, "id"@)) == Some(
                        request_id(number_after(old(self).next())),
                    )
                    &&& text_in(field_of(field(sent, "params"@), "sessionKey"@)) == Some(
                        session_key@,
                    )
                    &&& text_in(field_of(field(sent, "params"@), "message"@)) == Some(
                        trimmed(message@),
                    )
                    &&& bool_in(field_of(field(sent, "params"@), "deliver"@)) == Some(deliver)
                    &&& final(self).next() == number_after(number_after(old(self).next()))
                    &&& final(self).calls() == with_call(
                        old(self).calls(),
                        request_id(number_after(old(self).next())),
                        ticket,
                    )
                },
                Err(error) => {
                    &&& trimmed(message@).len() == 0
                    &&& error is EmptyMessage
                    &&& final(self).next() == old(self).next()
                    &&& final(self).calls() == old(self).calls()
                },
            },
            old(self).numbered() && old(self).next() < u64::MAX - 1 ==> final(self).numbered(),
    {
        proof {
            lemma_message_frame(session_key@, message@, now_ms, deliver, self.next());
        }
        let body = outgoing_message(message)?;
        let key = self.next_idempotency_key(now_ms);
        let call = GatewayCall::send_message(session_key, body.as_str(), key.as_str(), deliver);
        Ok(self.start(call, ticket))
    }

    /// Ends the call with that identifier and hands out what waits for it.
    pub fn resolve(&mut self, id: &str) -> (ticket: Option<T>)
        requires
            old(self).wf(),
        ensures
            ticket == waiter(old(self).calls(), id@),
            final(self).calls() == without_call(old(self).calls(), id@),
            final(self).next() == old(self).next(),
            final(self).wf(),
            old(self).numbered() ==> final(self).numbered(),
    {
        let ghost before = self.calls();
        proof {
            if self.numbered() {
                lemma_numbered_without(before, self.next(), id@);
            }
        }
        match self.position(id) {
            Some(at) => {
                let (_, ticket) = self.waiting.remove(at);
                assert(self.calls() =~= before.remove(at as int));
                proof {
                    lemma_call_at(before, id@, ticket, at as int);
                }
                Some(ticket)
            },
            None => {
                proof {
                    lemma_waits_for_none(before, id@);
                }
                None
            },
        }
    }

    /// Takes in a document from the gateway: an answer ends its call and goes to
    /// what waits for it, and everything else is ignored.
    pub fn dispatch(&mut self, value: Json) -> (r: Option<(T, RpcResponse)>)
        requires
            old(self).wf(),
            distinct_names(value@),
        ensures
            final(self).wf(),
            final(self).next() == old(self).next(),
            old(self).numbered() ==> final(self).numbered(),
            (final(self).calls(), answer_view(r)) == answered(old(self).calls(), value@),
            r matches Some((_, response)) ==> response_wf(response@),
    {
        match classify_frame(value) {
            GatewayFrame::Response { id, response } => match self.resolve(id.as_str()) {
                Some(ticket) => Some((ticket, response)),
                None => None,
            },
            _ => None,
        }
    }

    /// Takes in a message from the gateway. One that holds no document is reported and
    /// leaves every call waiting, so that reading can go on; any other is dispatched.
    pub fn receive(&mut self, message: &WireMessage) -> (r: Result<
        Option<(T, RpcResponse)>,
        GatewayError,
    >)
        requires
            old(self).wf(),
        ensures
            final(self).wf(),
            final(self).next() == old(self).next(),
            old(self).numbered() ==> final(self).numbered(),
            match (document_in(*message), r) {
                (Some(tree), Ok(answer)) => {
                    &&& (final(self).calls(), answer_view(answer)) == answered(
                        old(self).calls(),
                        tree,
                    )
                    &&& answer matches Some((_, response)) ==> response_wf(response@)
                },
                (None, Err(error)) => {
                    &&& final(self).calls() == old(self).calls()
                    &&& error == unreadable(*message)
                },
                _ => false,
            },
    {
        match parse_json_message(message) {
            Ok(value) => Ok(self.dispatch(value)),
            Err(error) => Err(error),
        }
    }

    /// Ends every call and hands out what waits for them.
    pub fn drain(&mut self) -> (tickets: Vec<T>)
        ensures
            tickets@ == old(self).calls().map_values(|c: (Seq<char>, T)| c.1),
            final(self).calls() == Seq::<(Seq<char>, T)>::empty(),
            final(self).next() == old(self).next(),
            final(self).wf(),
            final(self).numbered(),
    {
        let mut waiting: Vec<(String, T)> = Vec::new();
        std::mem::swap(&mut waiting, &mut self.waiting);
        assert(self.calls() =~= Seq::empty());
        let ghost given = waiting@;
        let mut tickets: Vec<T> = Vec::new();
        for call in iter: waiting
            invariant
                iter.seq() == given,
                tickets@.len() == iter.index(),
                forall|k: int| 0 <= k < tickets@.len() ==> tickets@[k] == given[k].1,
        {
            let (_, ticket) = call;
            tickets.push(ticket);
        }
        assert(tickets@ =~= old(self).calls().map_values(|c: (Seq<char>, T)| c.1));
        tickets
    }
}

proof fn lemma_call_at<T>(calls: Seq<(Seq<char>, T)>, id: Seq<char>, ticket: T, at: int)
    requires
        0 <= at < calls.len(),
        calls[at].0 == id,
        forall|k: int| 0 <= k < at ==> (#[trigger] calls[k]).0 != id,
    ensures
        waiter(calls, id) == Some(calls[at].1),
        without_call(calls, id) == calls.remove(at),
        with_call(calls, id, ticket) == calls.update(at, (id, ticket)),
    decreases at,
{
    if at > 0 {
        let rest = calls.drop_first();
        assert(calls[0].0 != id);
        assert forall|k: int| 0 <= k < at - 1 implies (#[trigger] rest[k]).0 != id by {
            assert(rest[k] == calls[k + 1]);
        }
        lemma_call_at(rest, id, ticket, at - 1);
        assert(without_call(calls, id) =~= calls.remove(at));
        assert(with_call(calls, id, ticket) =~= calls.update(at, (id, ticket)));
    } else {
        assert(calls.drop_first() =~= calls.remove(0));
        assert(with_call(calls, id, ticket) =~= calls.update(0, (id, ticket)));
    }
}

proof fn lemma_waits_for_none<T>(calls: Seq<(Seq<char>, T)>, id: Seq<char>)
    requires
        forall|k: int| 0 <= k < calls.len() ==> (#[trigger] calls[k]).0 != id,
    ensures
        waiter(calls, id) is None,
        without_call(calls, id) == calls,
    decreases calls.len(),
{
    if calls.len() > 0 {
        let rest = calls.drop_first();
        assert(calls[0].0 != id);
        assert forall|k: int| 0 <= k < rest.len() implies (#[trigger] rest[k]).0 != id by {
            assert(rest[k] == calls[k + 1]);
        }
        lemma_waits_for_none(rest, id);
        assert(without_call(calls, id) =~= calls);
    }
}

proof fn lemma_no_call<T>(calls: Seq<(Seq<char>, T)>, id: Seq<char>, ticket: T)
    requires
        forall|k: int| 0 <= k < calls.len() ==> (#[trigger] calls[k]).0 != id,
    ensures
        with_call(calls, id, ticket) == calls.push((id, ticket)),
    decreases calls.len(),
{
    if calls.len() > 0 {
        let rest = calls.drop_first();
        assert(calls[0].0 != id);
        assert forall|k: int| 0 <= k < rest.len() implies (#[trigger] rest[k]).0 != id by {
            assert(rest[k] == calls[k + 1]);
        }
        lemma_no_call(rest, id, ticket);
    }
    assert(with_call(calls, id, ticket) =~= calls.push((id, ticket)));
}

proof fn lemma_numbered_further<T>(calls: Seq<(Seq<char>, T)>, next: u64, later: u64)
    requires
        numbered_below(calls, next),
        next <= later,
    ensures
        numbered_below(calls, later),
{
    assert forall|i: int| 0 <= i < calls.len() implies has_number_below(
        (#[trigger] calls[i]).0,
        later,
    ) by {
        assert(has_number_below(calls[i].0, next));
    }
}

proof fn lemma_numbered_without<T>(calls: Seq<(Seq<char>, T)>, next: u64, id: Seq<char>)
    requires
        numbered_below(calls, next),
    ensures
        numbered_below(without_call(calls, id), next),
{
    lemma_without_is_part(calls, id);
    let after = without_call(calls, id);
    assert forall|i: int| 0 <= i < after.len() implies has_number_below(
        (#[trigger] after[i]).0,
        next,
    ) by {
        assert(calls.contains(after[i]));
        let k = choose|k: int| 0 <= k < calls.len() && calls[k] == after[i];
        assert(has_number_below(calls[k].0, next));
    }
}

proof fn lemma_without_is_part<T>(calls: Seq<(Seq<char>, T)>, id: Seq<char>)
    ensures
        forall|i: int|
            0 <= i < without_call(calls, id).len() ==> calls.contains(
                #[trigger] without_call(calls, id)[i],
            ),
    decreases calls.len(),
{
    if calls.len() > 0 {
        let rest = calls.drop_first();
        lemma_without_is_part(rest, id);
        let after = without_call(calls, id);
        assert forall|i: int| 0 <= i < after.len() implies calls.contains(
            #[trigger] after[i],
        ) by {
            if calls.first().0 == id {
                assert(after[i] == calls[i + 1]);
            } else if i == 0 {
                assert(after[i] == calls[0]);
            } else {
                assert(after[i] == without_call(rest, id)[i - 1]);
                let k = choose|k: int| 0 <= k < rest.len() && rest[k] == after[i];
                assert(calls[k + 1] == after[i]);
            }
        }
    }
}

// ---------------------------------------------------------------------------
// Laws
// ---------------------------------------------------------------------------
/// Calls of different numbers have different identifiers, and messages of
/// different numbers have different idempotency keys, whenever they are sent.
pub proof fn numbers_are_told_apart(a: u64, b: u64, first_ms: u64, second_ms: u64)
    requires
        a != b,
    ensures
        request_id(a) != request_id(b),
        idempotency_key(first_ms, a) != idempotency_key(second_ms, b),
{
    if request_id(a) == request_id(b) {
        assert(request_id(a).skip("req-"@.len() as int) =~= decimal(a as nat));
        assert(request_id(b).skip("req-"@.len() as int) =~= decimal(b as nat));
        decimal_injective(a as nat, b as nat);
    }
    if idempotency_key(first_ms, a) == idempotency_key(second_ms, b) {
        let first = seq![decimal(first_ms as nat), decimal(a as nat)];
        let second = seq![decimal(second_ms as nat), decimal(b as nat)];
        lemma_key_is_joined(first_ms, a);
        lemma_key_is_joined(second_ms, b);
        assert forall|i: int| 0 <= i < first.len() implies !(#[trigger] first[i]).contains(
            '-',
        ) by {
            decimal_has_digits(first_ms as nat);
            decimal_has_digits(a as nat);
        }
        assert forall|i: int| 0 <= i < second.len() implies !(#[trigger] second[i]).contains(
            '-',
        ) by {
            decimal_has_digits(second_ms as nat);
            decimal_has_digits(b as nat);
        }
        joined_injective(first, second, '-');
        assert(first[1] == second[1]);
        decimal_injective(a as nat, b as nat);
    }
}

proof fn lemma_key_is_joined(now_ms: u64, number: u64)
    ensures
        idempotency_key(now_ms, number).skip("openclaw-listen-"@.len() as int) == joined(
            seq![decimal(now_ms as nat), decimal(number as nat)],
            seq!['-'],
        ),
{
    reveal_strlit("-");
    let parts = seq![decimal(now_ms as nat), decimal(number as nat)];
    assert("-"@ =~= seq!['-']);
    assert(parts.drop_last() =~= seq![decimal(now_ms as nat)]);
    assert(joined(parts.drop_last(), seq!['-']) == parts[0]);
    assert(joined(parts, seq!['-']) == parts[0] + seq!['-'] + parts[1]);
    assert(idempotency_key(now_ms, number).skip("openclaw-listen-"@.len() as int)
        =~= parts[0] + seq!['-'] + parts[1]);
}

/// A call that was started is found by its identifier, and what waits for any
/// other identifier is not disturbed.
pub proof fn begun_call_is_found<T>(
    calls: Seq<(Seq<char>, T)>,
    id: Seq<char>,
    ticket: T,
    other: Seq<char>,
)
    ensures
        waiter(with_call(calls, id, ticket), id) == Some(ticket),
        other != id ==> waiter(with_call(calls, id, ticket), other) == waiter(calls, other),
    decreases calls.len(),
{
    let after = with_call(calls, id, ticket);
    if calls.len() == 0 {
        assert(after.first() == (id, ticket));
        assert(after.drop_first() =~= calls);
    } else if calls.first().0 == id {
        assert(after.first() == (id, ticket));
        assert(after.drop_first() =~= calls.drop_first());
    } else {
        begun_call_is_found(calls.drop_first(), id, ticket, other);
        assert(after.first() == calls.first());
        assert(after.drop_first() =~= with_call(calls.drop_first(), id, ticket));
    }
}

/// An answer is handed out once: after it nothing waits for its identifier any
/// more, and what waits for any other identifier is not disturbed.
pub proof fn answer_is_handed_out_once<T>(
    calls: Seq<(Seq<char>, T)>,
    id: Seq<char>,
    other: Seq<char>,
)
    requires
        ids_differ(calls),
    ensures
        waiter(without_call(calls, id), id) is None,
        other != id ==> waiter(without_call(calls, id), other) == waiter(calls, other),
    decreases calls.len(),
{
    if calls.len() > 0 {
        let rest = calls.drop_first();
        let after = without_call(calls, id);
        assert forall|i: int, j: int| 0 <= i < j < rest.len() implies (#[trigger] rest[i]).0 != (
        #[trigger] rest[j]).0 by {
            assert(rest[i] == calls[i + 1]);
            assert(rest[j] == calls[j + 1]);
        }
        if calls.first().0 == id {
            assert forall|k: int| 0 <= k < rest.len() implies (#[trigger] rest[k]).0 != id by {
                assert(rest[k] == calls[k + 1]);
                assert(calls[0].0 != calls[k + 1].0);
            }
            lemma_waits_for_none(rest, id);
        } else {
            answer_is_handed_out_once(rest, id, other);
            assert(after.first() == calls.first());
            assert(after.drop_first() =~= without_call(rest, id));
        }
    }
}

/// Until the counter has gone through all its numbers, a new call never takes the
/// place of one that still waits.
pub proof fn new_call_displaces_none<T>(calls: Seq<(Seq<char>, T)>, next: u64, ticket: T)
    requires
        numbered_below(calls, next),
        next < u64::MAX,
    ensures
        with_call(calls, request_id(next), ticket) == calls.push((request_id(next), ticket)),
        numbered_below(with_call(calls, request_id(next), ticket), number_after(next)),
{
    let id = request_id(next);
    assert forall|k: int| 0 <= k < calls.len() implies (#[trigger] calls[k]).0 != id by {
        assert(has_number_below(calls[k].0, next));
        let number = choose|number: u64|
            number < next && calls[k].0 == #[trigger] request_id(number);
        numbers_are_told_apart(number, next, 0, 0);
    }
    lemma_no_call(calls, id, ticket);
    let after = with_call(calls, id, ticket);
    assert forall|i: int| 0 <= i < after.len() implies has_number_below(
        (#[trigger] after[i]).0,
        number_after(next),
    ) by {
        if i < calls.len() {
            assert(after[i] == calls[i]);
            assert(has_number_below(calls[i].0, next));
        } else {
            assert(after[i].0 == request_id(next));
        }
    }
}

/// A request says which call it is, what it asks for and with which parameters.
pub proof fn requests_say_what_they_ask(id: Seq<char>, method: Seq<char>, params: JsonTree)
    ensures
        text_in(field(request_tree(id, method, params), "type"@)) == Some("req"@),
        text_in(field(request_tree(id, method, params), "id"@)) == Some(id),
        text_in(field(request_tree(id, method, params), "method"@)) == Some(method),
        field(request_tree(id, method, params), "params"@) == Some(params),
{
    reveal_strlit("type");
    reveal_strlit("id");
    reveal_strlit("method");
    reveal_strlit("params");
    let fields = request_tree(id, method, params)->Object_0;
    marks_tell_names_apart(fields);
    field_is_found(fields, 0);
    field_is_found(fields, 1);
    field_is_found(fields, 2);
    field_is_found(fields, 3);
}

/// The parameters that send a message hold the session, the message, the key and the
/// flag as they were given.
pub proof fn sent_parameters_are_as_given(
    session_key: Seq<char>,
    message: Seq<char>,
    key: Seq<char>,
    deliver: bool,
)
    ensures
        ({
            let params = chat_send_tree(session_key, message, key, deliver);
            &&& text_in(field(params, "sessionKey"@)) == Some(session_key)
            &&& text_in(field(params, "message"@)) == Some(message)
            &&& text_in(field(params, "idempotencyKey"@)) == Some(key)
            &&& bool_in(field(params, "deliver"@)) == Some(deliver)
        }),
{
    reveal_strlit("sessionKey");
    reveal_strlit("message");
    reveal_strlit("idempotencyKey");
    reveal_strlit("deliver");
    let fields = chat_send_tree(session_key, message, key, deliver)->Object_0;
    marks_tell_names_apart(fields);
    field_is_found(fields, 0);
    field_is_found(fields, 1);
    field_is_found(fields, 2);
    field_is_found(fields, 3);
}

/// A message is sent as it was given, every character of it, but for the white space
/// around it: whatever white space surrounds a text, the frame carries that text, to the
/// session that was named and with the flag that was given.
pub proof fn messages_are_sent_as_given(
    session_key: Seq<char>,
    before: Seq<char>,
    text: Seq<char>,
    after: Seq<char>,
    now_ms: u64,
    deliver: bool,
    next: u64,
)
    requires
        forall|i: int| 0 <= i < before.len() ==> white_space(#[trigger] before[i]),
        forall|i: int| 0 <= i < after.len() ==> white_space(#[trigger] after[i]),
        text.len() > 0,
        !white_space(text[0]),
        !white_space(text[text.len() - 1]),
    ensures
        ({
            let frame = message_frame(
                session_key,
                before + text + after,
                now_ms,
                deliver,
                next,
            );
            let params = field(frame, "params"@);
            &&& text_in(field(frame, "type"@)) == Some("req"@)
            &&& text_in(field(frame, "method"@)) == Some("chat.send"@)
            &&& text_in(field_of(params, "sessionKey"@)) == Some(session_key)
            &&& text_in(field_of(params, "message"@)) == Some(text)
            &&& bool_in(field_of(params, "deliver"@)) == Some(deliver)
        }),
{
    let message = before + text + after;
    trimming_leaves_the_middle(before, text, after);
    lemma_message_frame(session_key, message, now_ms, deliver, next);
}

proof fn lemma_message_frame(
    session_key: Seq<char>,
    message: Seq<char>,
    now_ms: u64,
    deliver: bool,
    next: u64,
)
    ensures
        ({
            let frame = message_frame(session_key, message, now_ms, deliver, next);
            let params = field(frame, "params"@);
            &&& text_in(field(frame, "type"@)) == Some("req"@)
            &&& text_in(field(frame, "id"@)) == Some(request_id(number_after(next)))
            &&& text_in(field(frame, "method"@)) == Some("chat.send"@)
            &&& text_in(field_of(params, "sessionKey"@)) == Some(session_key)
            &&& text_in(field_of(params, "message"@)) == Some(trimmed(message))
            &&& text_in(field_of(params, "idempotencyKey"@)) == Some(
                idempotency_key(now_ms, next),
            )
            &&& bool_in(field_of(params, "deliver"@)) == Some(deliver)
        }),
{
    let key = idempotency_key(now_ms, next);
    let params = chat_send_tree(session_key, trimmed(message), key, deliver);
    requests_say_what_they_ask(request_id(number_after(next)), "chat.send"@, params);
    sent_parameters_are_as_given(session_key, trimmed(message), key, deliver);
}

/// The request for the messages of a session names that session and as many messages as
/// are wanted.
pub proof fn history_is_asked_for_as_given(key: Seq<char>, limit: u64)
    ensures
        text_in(field(sessions_get_tree(key, limit), "key"@)) == Some(key),
        u64_in(field(sessions_get_tree(key, limit), "limit"@)) == Some(limit),
{
    reveal_strlit("key");
    reveal_strlit("limit");
    let fields = sessions_get_tree(key, limit)->Object_0;
    marks_tell_names_apart(fields);
    field_is_found(fields, 0);
    field_is_found(fields, 1);
}

/// A document of the type `res` is an answer: it says to which call, whether that
/// succeeded, and with which payload or error. One of the type `event` is an event of
/// the name that it gives. Anything else is of the type that it gives.
pub proof fn frames_are_what_their_type_says(tree: JsonTree)
    ensures
        ({
            let kind = match field(tree, "type"@) {
                Some(JsonTree::Text(text)) => text,
                _ => Seq::empty(),
            };
            &&& kind == "res"@ ==> frame_of(tree) == (FrameModel::Response {
                id: match field(tree, "id"@) {
                    Some(JsonTree::Text(id)) => id,
                    _ => Seq::empty(),
                },
                response: ResponseModel {
                    ok: field(tree, "ok"@) == Some(JsonTree::Bool(true)),
                    payload: field(tree, "payload"@),
                    error: field(tree, "error"@),
                },
            })
            &&& kind == "event"@ ==> frame_of(tree) == FrameModel::Event(
                match field(tree, "event"@) {
                    Some(JsonTree::Text(name)) => name,
                    _ => "unknown"@,
                },
            )
            &&& kind != "res"@ && kind != "event"@ ==> frame_of(tree) == FrameModel::Other(kind)
        }),
{
    reveal_strlit("res");
    reveal_strlit("event");
    assert("res"@.len() != "event"@.len());
}

/// An answer goes to the call that waits for it: whatever waits under the identifier
/// that it names gets its success, its payload and its error, and waits no longer; every
/// other call goes on waiting. An answer that no call waits for, and a document that is
/// no answer, change nothing.
pub proof fn answers_reach_their_calls<T>(calls: Seq<(Seq<char>, T)>, tree: JsonTree, at: int)
    requires
        ids_differ(calls),
    ensures
        field(tree, "type"@) == Some(JsonTree::Text("res"@)) && 0 <= at < calls.len() && field(
            tree,
            "id"@,
        ) == Some(JsonTree::Text(calls[at].0)) ==> {
            &&& answered(calls, tree).0 == calls.remove(at)
            &&& answered(calls, tree).1 == Some(
                (
                    calls[at].1,
                    ResponseModel {
                        ok: field(tree, "ok"@) == Some(JsonTree::Bool(true)),
                        payload: field(tree, "payload"@),
                        error: field(tree, "error"@),
                    },
                ),
            )
        },
        (forall|k: int|
            0 <= k < calls.len() ==> field(tree, "id"@) != Some(
                JsonTree::Text((#[trigger] calls[k]).0),
            ) && calls[k].0.len() > 0) ==> answered(calls, tree) == (
            calls,
            None::<(T, ResponseModel)>,
        ),
        field(tree, "type"@) != Some(JsonTree::Text("res"@)) ==> answered(calls, tree) == (
            calls,
            None::<(T, ResponseModel)>,
        ),
{
    reveal_strlit("res");
    reveal_strlit("event");
    assert("res"@.len() == 3);
    frames_are_what_their_type_says(tree);
    if field(tree, "type"@) != Some(JsonTree::Text("res"@)) {
        assert(Seq::<char>::empty() != "res"@);
    }
    if 0 <= at < calls.len() {
        assert forall|k: int| 0 <= k < at implies (#[trigger] calls[k]).0 != calls[at].0 by {
            assert(calls[k].0 != calls[at].0);
        }
        lemma_call_at(calls, calls[at].0, calls[at].1, at);
    }
    if forall|k: int|
        0 <= k < calls.len() ==> field(tree, "id"@) != Some(JsonTree::Text((#[trigger] calls[k]).0))
            && calls[k].0.len() > 0 {
        if let FrameModel::Response { id, response } = frame_of(tree) {
            assert forall|k: int| 0 <= k < calls.len() implies (#[trigger] calls[k]).0 != id by {}
            lemma_waits_for_none(calls, id);
        }
    }
}

/// A call that begins waits behind the others, or in the place of one of the same
/// identifier; one that ends leaves its place, and nothing else changes.
pub proof fn calls_are_found_by_identifier<T>(
    calls: Seq<(Seq<char>, T)>,
    id: Seq<char>,
    ticket: T,
    at: int,
)
    requires
        ids_differ(calls),
    ensures
        0 <= at < calls.len() && calls[at].0 == id ==> {
            &&& waiter(calls, id) == Some(calls[at].1)
            &&& without_call(calls, id) == calls.remove(at)
            &&& with_call(calls, id, ticket) == calls.update(at, (id, ticket))
        },
        (forall|k: int| 0 <= k < calls.len() ==> (#[trigger] calls[k]).0 != id) ==> {
            &&& waiter(calls, id) is None
            &&& without_call(calls, id) == calls
            &&& with_call(calls, id, ticket) == calls.push((id, ticket))
        },
{
    if 0 <= at < calls.len() && calls[at].0 == id {
        assert forall|k: int| 0 <= k < at implies (#[trigger] calls[k]).0 != id by {
            assert(calls[k].0 != calls[at].0);
        }
        lemma_call_at(calls, id, ticket, at);
    }
    if forall|k: int| 0 <= k < calls.len() ==> (#[trigger] calls[k]).0 != id {
        lemma_waits_for_none(calls, id);
        lemma_no_call(calls, id, ticket);
    }
}

/// A call is identified by its number, and a message by the time at which it is sent and
/// its number, all spelled out in decimal digits. Numbers follow one another and start
/// again from zero behind the last.
pub proof fn identifiers_spell_their_numbers(now_ms: u64, number: u64)
    ensures
        request_id(number).len() > 4,
        request_id(number).take(4) == seq!['r', 'e', 'q', '-'],
        numeral_value(request_id(number).skip(4)) == number,
        ({
            let key = idempotency_key(now_ms, number);
            let time = decimal(now_ms as nat).len() as int;
            &&& key.take(16) == "openclaw-listen-"@
            &&& numeral_value(key.subrange(16, 16 + time)) == now_ms
            &&& key[16 + time] == '-'
            &&& numeral_value(key.skip(17 + time)) == number
        }),
        number_after(number) == (number + 1) % 0x1_0000_0000_0000_0000,
{
    reveal_strlit("req-");
    reveal_strlit("openclaw-listen-");
    reveal_strlit("-");
    numeral_stands_for_its_number(now_ms as nat);
    numeral_stands_for_its_number(number as nat);
    assert("req-"@ =~= seq!['r', 'e', 'q', '-']);
    assert("-"@ =~= seq!['-']);
    assert("openclaw-listen-"@.len() == 16);
    let (time, numeral) = (decimal(now_ms as nat), decimal(number as nat));
    lemma_parts("req-"@, numeral, Seq::empty(), Seq::empty());
    assert("req-"@ + numeral + Seq::empty() + Seq::empty() =~= request_id(number));
    lemma_parts("openclaw-listen-"@, time, "-"@, numeral);
}

proof fn lemma_parts(a: Seq<char>, b: Seq<char>, c: Seq<char>, d: Seq<char>)
    ensures
        ({
            let whole = a + b + c + d;
            let (p, q, r) = (a.len() as int, a.len() + b.len(), a.len() + b.len() + c.len());
            &&& whole.take(p) == a
            &&& whole.subrange(p, q as int) == b
            &&& whole.skip(r as int) == d
            &&& c.len() > 0 ==> whole[q as int] == c[0]
            &&& c.len() == 0 && d.len() == 0 ==> whole.skip(p) == b
            &&& whole.len() == r + d.len()
        }),
{
    let whole = a + b + c + d;
    let (p, q, r) = (a.len() as int, a.len() + b.len(), a.len() + b.len() + c.len());
    assert(whole.take(p) =~= a);
    assert(whole.subrange(p, q as int) =~= b);
    assert(whole.skip(r as int) =~= d);
    if c.len() == 0 && d.len() == 0 {
        assert(whole.skip(p) =~= b);
    }
}

/// A failed call says which one it was and ends with the error that the gateway gave,
/// and an error that is missing is an unknown one.
pub proof fn failures_carry_their_error(error: GatewayError, tree: JsonTree)
    ensures
        error matches GatewayError::RequestFailed { method, error: cause } ==> {
            &&& closes(error.text(), cause@)
            &&& occurs(error.text(), " "@ + method@ + ": "@)
            &&& error.text().len() == 29 + method@.len() + cause@.len()
        },
        error_or_unknown(Some(tree)) == tree,
        error_or_unknown(None) == JsonTree::Text("unknown error"@),
{
    if let GatewayError::RequestFailed { method, error: cause } = error {
        reveal_strlit("gateway request failed for ");
        reveal_strlit(": ");
        reveal_strlit(" ");
        let text = error.text();
        let named = " "@ + method@ + ": "@;
        assert(text.subrange(26, 26int + named.len()) =~= named);
        assert(stands_at(text, named, 26));
        assert(text.subrange(text.len() - cause@.len(), text.len() as int) =~= cause@);
    }
}

/// An answer holds whether the call succeeded, its payload and its error, a document from
/// the gateway what it is, and what is handed out both the answer and what waited for it.
pub proof fn answers_hold_their_parts<T>(response: RpcResponse, json: Json, text: &str, ticket: T)
    ensures
        response@.ok == response.ok,
        response.payload matches Some(payload) ==> response@.payload == Some(payload@),
        response.payload is None ==> response@.payload is None,
        response.error matches Some(error) ==> response@.error == Some(error@),
        response.error is None ==> response@.error is None,
        optional_tree(Some(json)) == Some(json@),
        optional_tree(None) is None,
        slice_view(Some(text)) == Some(text@),
        slice_view(None) is None,
        answer_view(Some((ticket, response))) == Some((ticket, response@)),
        answer_view(None::<(T, RpcResponse)>) is None,
{
}

/// A message on the wire holds the document that its text or its bytes are, and a control
/// frame holds none.
pub proof fn messages_hold_their_document(text: String, bytes: Vec<u8>)
    ensures
        document_in(WireMessage::Text(text)) == json_parse(text@),
        document_in(WireMessage::Binary(bytes)) == json_parse_bytes(bytes@),
        document_in(WireMessage::Control) is None,
        unreadable(WireMessage::Text(text)) is TextPayload,
        unreadable(WireMessage::Binary(bytes)) is BinaryPayload,
        unreadable(WireMessage::Control) is ControlFrame,
        unless_empty(text@) is None <==> text@.len() == 0,
        text@.len() > 0 ==> unless_empty(text@) == Some(text@),
{
}

} // verus!
