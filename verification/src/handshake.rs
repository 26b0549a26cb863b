//! Connecting to the gateway: the signed handshake and the approval of a device
//! that is not paired yet.
use vstd::prelude::*;
use vstd::string::*;
use vstd::utf8::encode_utf8;

use crate::config::OpenClawConfig;
use crate::encoding::base64url;
use crate::gateway::{
    error_or_unknown, error_text, flag, flag_of, parse_json_message, request_tree,
    requests_say_what_they_ask, rpc_request, WireMessage,
};
use crate::identity::{
    ed25519_signature, signature_payload, signed_text_spells_its_fields, DeviceIdentity,
    PayloadModel, SignatureParams,
};
use crate::json::{
    distinct_names, distinct_names_in_field, field, field_in, field_is_found, field_of,
    first_field_of_a_name_counts, json_parse,
    json_parse_bytes, json_text, mark, marked, marks_tell_names_apart, names_differ, text_array,
    text_in, u64_in, Json, JsonTree, NumberModel, ObjectBuilder,
};
use crate::sessions::text_or_empty;
use crate::text::{
    closes, concat, concat3, decimal, joined, joining_puts_separators_between,
    occurring_is_standing_between, occurs, optional_text, owned, stands_at, trim, trimmed, views,
};

verus! {

// ---------------------------------------------------------------------------
// The connect request
// ---------------------------------------------------------------------------
/// The version of the gateway protocol.
pub const PROTOCOL_VERSION: u64 = 3;

/// The token to present, where one is set.
pub open spec fn usable_token(token: Seq<char>) -> Option<Seq<char>> {
    if trimmed(token).len() > 0 {
        Some(token)
    } else {
        None
    }
}

/// What the handshake signs.
pub open spec fn connect_payload(
    token: Seq<char>,
    nonce: Seq<char>,
    signed_at_ms: u64,
    platform: Seq<char>,
) -> PayloadModel {
    PayloadModel {
        client_id: "cli"@,
        client_mode: "cli"@,
        role: "operator"@,
        scopes: seq!["operator.read"@, "operator.write"@],
        signed_at_ms,
        token: usable_token(token),
        nonce,
        platform,
        device_family: "server"@,
    }
}

/// How the client describes itself.
pub open spec fn client_tree(
    id: Seq<char>,
    version: Seq<char>,
    platform: Seq<char>,
    mode: Seq<char>,
    display_name: Seq<char>,
) -> JsonTree {
    JsonTree::Object(
        seq![
            ("id"@, JsonTree::Text(id)),
            ("version"@, JsonTree::Text(version)),
            ("platform"@, JsonTree::Text(platform)),
            ("mode"@, JsonTree::Text(mode)),
            ("deviceFamily"@, JsonTree::Text("server"@)),
            ("displayName"@, JsonTree::Text(display_name)),
        ],
    )
}

/// The one field, or no field.
pub open spec fn optional_field(
    name: Seq<char>,
    value: Option<Seq<char>>,
) -> Seq<(Seq<char>, JsonTree)> {
    match value {
        Some(text) => seq![(name, JsonTree::Text(text))],
        None => Seq::empty(),
    }
}

/// The tokens that the client presents.
pub open spec fn auth_tree(
    token: Option<Seq<char>>,
    device_token: Option<Seq<char>>,
) -> JsonTree {
    JsonTree::Object(
        optional_field("token"@, token) + optional_field("deviceToken"@, device_token),
    )
}

/// How the device proves who it is.
pub open spec fn device_tree(
    id: Seq<char>,
    public_key: Seq<char>,
    signature: Seq<char>,
    signed_at_ms: u64,
    nonce: Seq<char>,
) -> JsonTree {
    JsonTree::Object(
        seq![
            ("id"@, JsonTree::Text(id)),
            ("publicKey"@, JsonTree::Text(public_key)),
            ("signature"@, JsonTree::Text(signature)),
            ("signedAt"@, JsonTree::Number(NumberModel::Unsigned(signed_at_ms))),
            ("nonce"@, JsonTree::Text(nonce)),
        ],
    )
}

/// The parameters of a connect request but for the device.
pub open spec fn connect_fields(
    client: JsonTree,
    scopes: Seq<Seq<char>>,
    auth: JsonTree,
    version: Seq<char>,
) -> Seq<(Seq<char>, JsonTree)> {
    seq![
        ("minProtocol"@, JsonTree::Number(NumberModel::Unsigned(PROTOCOL_VERSION))),
        ("maxProtocol"@, JsonTree::Number(NumberModel::Unsigned(PROTOCOL_VERSION))),
        ("client"@, client),
        ("role"@, JsonTree::Text("operator"@)),
        ("scopes"@, text_array(scopes)),
        ("caps"@, JsonTree::Array(Seq::empty())),
        ("commands"@, JsonTree::Array(Seq::empty())),
        ("permissions"@, JsonTree::Object(Seq::empty())),
        ("auth"@, auth),
        ("locale"@, JsonTree::Text("en-GB"@)),
        ("userAgent"@, JsonTree::Text("openclaw-listen/"@ + version)),
    ]
}

/// The signature that goes with a connect request.
pub open spec fn connect_signature(
    identity: DeviceIdentity,
    token: Seq<char>,
    nonce: Seq<char>,
    signed_at_ms: u64,
    platform: Seq<char>,
) -> Seq<char> {
    base64url(
        ed25519_signature(
            identity.secret(),
            encode_utf8(
                signature_payload(
                    identity.device_id@,
                    connect_payload(token, nonce, signed_at_ms, platform),
                ),
            ),
        ),
    )
}

/// The request that opens a session with the gateway.
pub open spec fn connect_tree(
    token: Seq<char>,
    identity: DeviceIdentity,
    nonce: Seq<char>,
    signed_at_ms: u64,
    platform: Seq<char>,
    version: Seq<char>,
) -> JsonTree {
    request_tree(
        "connect-1"@,
        "connect"@,
        JsonTree::Object(
            connect_fields(
                client_tree("cli"@, version, platform, "cli"@, "openclaw-listen"@),
                seq!["operator.read"@, "operator.write"@],
                auth_tree(usable_token(token), optional_text(identity.device_token)),
                version,
            ).push(
                (
                    "device"@,
                    device_tree(
                        identity.device_id@,
                        identity.public_key_base64url@,
                        connect_signature(identity, token, nonce, signed_at_ms, platform),
                        signed_at_ms,
                        nonce,
                    ),
                ),
            ),
        ),
    )
}

/// The scopes that an approval needs.
pub open spec fn approval_scopes() -> Seq<Seq<char>> {
    seq![
        "operator.admin"@,
        "operator.pairing"@,
        "operator.read"@,
        "operator.write"@,
        "operator.talk.secrets"@,
    ]
}

/// The request that opens a session in which a device can be approved.
pub open spec fn approval_connect_tree(
    token: Seq<char>,
    platform: Seq<char>,
    version: Seq<char>,
) -> JsonTree {
    request_tree(
        "connect-approve-1"@,
        "connect"@,
        JsonTree::Object(
            connect_fields(
                client_tree(
                    "gateway-client"@,
                    version,
                    platform,
                    "backend"@,
                    "openclaw-listen-pairing"@,
                ),
                approval_scopes(),
                auth_tree(Some(token), None),
                version,
            ),
        ),
    )
}

/// The request that approves a device.
pub open spec fn approve_tree(request_id: Seq<char>) -> JsonTree {
    request_tree(
        "approve-1"@,
        "device.pair.approve"@,
        JsonTree::Object(seq![("requestId"@, JsonTree::Text(request_id))]),
    )
}

fn client_description(
    id: &str,
    version: &str,
    platform: &str,
    mode: &str,
    display_name: &str,
) -> (json: Json)
    ensures
        json@ == client_tree(id@, version@, platform@, mode@, display_name@),
        distinct_names(json@),
{
    proof {
        reveal_strlit("id");
        reveal_strlit("version");
        reveal_strlit("platform");
        reveal_strlit("mode");
        reveal_strlit("deviceFamily");
        reveal_strlit("displayName");
        marked("id"@);
        marked("version"@);
        marked("platform"@);
        marked("mode"@);
        marked("deviceFamily"@);
        marked("displayName"@);
    }
    let mut builder = ObjectBuilder::new();
    builder.put_text("id", id);
    builder.put_text("version", version);
    builder.put_text("platform", platform);
    builder.put_text("mode", mode);
    builder.put_text("deviceFamily", "server");
    builder.put_text("displayName", display_name);
    let json = builder.build();
    assert(json@->Object_0 =~= client_tree(
        id@,
        version@,
        platform@,
        mode@,
        display_name@,
    )->Object_0);
    json
}

fn auth_description(token: Option<&str>, device_token: &Option<String>) -> (json: Json)
    ensures
        json@ == auth_tree(
            match token {
                Some(t) => Some(t@),
                None => None,
            },
            optional_text(*device_token),
        ),
        distinct_names(json@),
{
    proof {
        reveal_strlit("token");
        reveal_strlit("deviceToken");
        marked("token"@);
        marked("deviceToken"@);
    }
    let mut builder = ObjectBuilder::new();
    if let Some(token) = token {
        builder.put_text("token", token);
    }
    if let Some(device_token) = device_token {
        builder.put_text("deviceToken", device_token.as_str());
    }
    let json = builder.build();
    assert(json@->Object_0 =~= auth_tree(
        match token {
            Some(t) => Some(t@),
            None => None,
        },
        optional_text(*device_token),
    )->Object_0);
    json
}

fn device_description(
    identity: &DeviceIdentity,
    signature: &str,
    signed_at_ms: u64,
    nonce: &str,
) -> (json: Json)
    ensures
        json@ == device_tree(
            identity.device_id@,
            identity.public_key_base64url@,
            signature@,
            signed_at_ms,
            nonce@,
        ),
        distinct_names(json@),
{
    proof {
        reveal_strlit("id");
        reveal_strlit("publicKey");
        reveal_strlit("signature");
        reveal_strlit("signedAt");
        reveal_strlit("nonce");
        marked("id"@);
        marked("publicKey"@);
        marked("signature"@);
        marked("signedAt"@);
        marked("nonce"@);
    }
    let mut builder = ObjectBuilder::new();
    builder.put_text("id", identity.device_id.as_str());
    builder.put_text("publicKey", identity.public_key_base64url.as_str());
    builder.put_text("signature", signature);
    builder.put("signedAt", Json::unsigned(signed_at_ms));
    builder.put_text("nonce", nonce);
    let json = builder.build();
    assert(json@->Object_0 =~= device_tree(
        identity.device_id@,
        identity.public_key_base64url@,
        signature@,
        signed_at_ms,
        nonce@,
    )->Object_0);
    json
}

/// The marks of the names in a connect request, which tell them apart.
proof fn lemma_connect_names()
    ensures
        mark("minProtocol"@) == (11nat, 'm', 'i'),
        mark("maxProtocol"@) == (11nat, 'm', 'a'),
        mark("client"@) == (6nat, 'c', 'l'),
        mark("role"@) == (4nat, 'r', 'o'),
        mark("scopes"@) == (6nat, 's', 'c'),
        mark("caps"@) == (4nat, 'c', 'a'),
        mark("commands"@) == (8nat, 'c', 'o'),
        mark("permissions"@) == (11nat, 'p', 'e'),
        mark("auth"@) == (4nat, 'a', 'u'),
        mark("locale"@) == (6nat, 'l', 'o'),
        mark("userAgent"@) == (9nat, 'u', 's'),
        mark("device"@) == (6nat, 'd', 'e'),
{
    reveal_strlit("minProtocol");
    reveal_strlit("maxProtocol");
    reveal_strlit("client");
    reveal_strlit("role");
    reveal_strlit("scopes");
    reveal_strlit("caps");
    reveal_strlit("commands");
    reveal_strlit("permissions");
    reveal_strlit("auth");
    reveal_strlit("locale");
    reveal_strlit("userAgent");
    reveal_strlit("device");
}

fn connect_builder(client: Json, scopes: &Vec<String>, auth: Json, version: &str) -> (builder:
    ObjectBuilder)
    requires
        distinct_names(client@),
        distinct_names(auth@),
    ensures
        builder@ == connect_fields(client@, views(scopes@), auth@, version@),
        distinct_names(JsonTree::Object(builder@)),
{
    proof {
        lemma_connect_names();
    }
    let agent = concat("openclaw-listen/", version);
    let mut builder = ObjectBuilder::new();
    builder.put("minProtocol", Json::unsigned(PROTOCOL_VERSION));
    builder.put("maxProtocol", Json::unsigned(PROTOCOL_VERSION));
    builder.put("client", client);
    builder.put_text("role", "operator");
    builder.put("scopes", Json::texts(scopes));
    builder.put("caps", Json::no_items());
    builder.put("commands", Json::no_items());
    builder.put("permissions", ObjectBuilder::new().build());
    builder.put("auth", auth);
    builder.put_text("locale", "en-GB");
    builder.put_text("userAgent", agent.as_str());
    assert(builder@ =~= connect_fields(client@, views(scopes@), auth@, version@));
    builder
}

/// The token to present, where one is set.
fn token_of(config: &OpenClawConfig) -> (r: Option<&str>)
    ensures
        usable_token(config.gateway_token@) == (match r {
            Some(t) => Some(t@),
            None => None,
        }),
{
    if trim(config.gateway_token.as_str()).is_empty() {
        None
    } else {
        Some(config.gateway_token.as_str())
    }
}

/// The request that opens a session with the gateway, signed by the device.
pub fn build_connect_request(
    config: &OpenClawConfig,
    identity: &DeviceIdentity,
    nonce: &str,
    signed_at_ms: u64,
    platform: &str,
    version: &str,
) -> (json: Json)
    ensures
        json@ == connect_tree(
            config.gateway_token@,
            *identity,
            nonce@,
            signed_at_ms,
            platform@,
            version@,
        ),
        distinct_names(json@),
{
    let mut scopes: Vec<String> = Vec::new();
    scopes.push(owned("operator.read"));
    scopes.push(owned("operator.write"));
    assert(views(scopes@) =~= seq!["operator.read"@, "operator.write"@]);
    let params = SignatureParams {
        client_id: "cli",
        client_mode: "cli",
        role: "operator",
        scopes: &scopes,
        signed_at_ms,
        token: token_of(config),
        nonce,
        platform,
        device_family: "server",
    };
    let payload = identity.build_signature_payload(&params);
    let signature = identity.sign(payload.as_str());
    assert(params@ == connect_payload(config.gateway_token@, nonce@, signed_at_ms, platform@));
    let device = device_description(identity, signature.as_str(), signed_at_ms, nonce);
    let client = client_description("cli", version, platform, "cli", "openclaw-listen");
    let auth = auth_description(token_of(config), &identity.device_token);
    let mut builder = connect_builder(client, &scopes, auth, version);
    proof {
        lemma_connect_names();
    }
    builder.put("device", device);
    rpc_request("connect-1", "connect", builder.build())
}

/// The request that opens a session in which a device can be approved.
pub fn build_approval_connect_request(
    config: &OpenClawConfig,
    platform: &str,
    version: &str,
) -> (json: Json)
    ensures
        json@ == approval_connect_tree(config.gateway_token@, platform@, version@),
        distinct_names(json@),
{
    let mut scopes: Vec<String> = Vec::new();
    scopes.push(owned("operator.admin"));
    scopes.push(owned("operator.pairing"));
    scopes.push(owned("operator.read"));
    scopes.push(owned("operator.write"));
    scopes.push(owned("operator.talk.secrets"));
    assert(views(scopes@) =~= approval_scopes());
    let client = client_description(
        "gateway-client",
        version,
        platform,
        "backend",
        "openclaw-listen-pairing",
    );
    let auth = auth_description(Some(config.gateway_token.as_str()), &None);
    let builder = connect_builder(client, &scopes, auth, version);
    rpc_request("connect-approve-1", "connect", builder.build())
}

/// The request that approves a device.
pub fn build_approve_request(request_id: &str) -> (json: Json)
    ensures
        json@ == approve_tree(request_id@),
        distinct_names(json@),
{
    let mut builder = ObjectBuilder::new();
    builder.put_text("requestId", request_id);
    let params = builder.build();
    assert(params@->Object_0 =~= seq![("requestId"@, JsonTree::Text(request_id@))]);
    rpc_request("approve-1", "device.pair.approve", params)
}

// ---------------------------------------------------------------------------
// What the gateway answers
// ---------------------------------------------------------------------------
/// The nonce of a challenge, or the empty text.
pub open spec fn nonce_in(tree: JsonTree) -> Seq<char> {
    text_or_empty(text_in(field_of(field(tree, "payload"@), "nonce"@)))
}

/// The device token that a greeting hands out.
pub open spec fn granted_token(tree: JsonTree) -> Option<Seq<char>> {
    text_in(field_of(field_of(field(tree, "payload"@), "auth"@), "deviceToken"@))
}

/// The first text, or where there is none, the second.
pub open spec fn first_text(first: Option<Seq<char>>, second: Option<Seq<char>>) -> Option<
    Seq<char>,
> {
    match first {
        Some(text) => Some(text),
        None => second,
    }
}

/// The pairing request that a refusal names.
pub open spec fn pairing_request(tree: JsonTree) -> Option<Seq<char>> {
    first_text(
        text_in(field_of(field_of(field(tree, "error"@), "details"@), "requestId"@)),
        text_in(field_of(field(tree, "payload"@), "requestId"@)),
    )
}

/// The text of the error that a refusal carries.
pub open spec fn refusal(tree: JsonTree) -> Seq<char> {
    json_text(error_or_unknown(field(tree, "error"@)))
}

/// The text under a name of a field, where there is one.
fn nested_text(value: &Json, outer: &str, inner: &str) -> (r: Option<String>)
    ensures
        optional_text(r) == text_in(field_of(field(value@, outer@), inner@)),
{
    match value.get(outer) {
        Some(json) => json.text_field(inner),
        None => None,
    }
}

/// The nonce of a challenge, or the empty text.
pub fn challenge_nonce(challenge: &Json) -> (nonce: String)
    ensures
        nonce@ == nonce_in(challenge@),
{
    match nested_text(challenge, "payload", "nonce") {
        Some(nonce) => nonce,
        None => String::new(),
    }
}

/// The device token that a greeting hands out.
pub fn granted_device_token(hello: &Json) -> (r: Option<String>)
    ensures
        optional_text(r) == granted_token(hello@),
{
    match hello.get("payload") {
        Some(payload) => nested_text(payload, "auth", "deviceToken"),
        None => None,
    }
}

/// The pairing request that a refusal names.
pub fn extract_pairing_request_id(value: &Json) -> (r: Option<String>)
    ensures
        optional_text(r) == pairing_request(value@),
{
    let named = match value.get("error") {
        Some(error) => nested_text(error, "details", "requestId"),
        None => None,
    };
    match named {
        Some(id) => Some(id),
        None => nested_text(value, "payload", "requestId"),
    }
}

/// The text of the error that a refusal carries.
fn refusal_text(answer: Json) -> (r: String)
    requires
        distinct_names(answer@),
    ensures
        r@ == refusal(answer@),
{
    proof {
        distinct_names_in_field(answer@, "error"@);
    }
    error_text(answer.take("error"))
}

// ---------------------------------------------------------------------------
// Connecting, step by step
// ---------------------------------------------------------------------------
/// What is awaited from the gateway.
#[derive(Debug, Clone, Copy, PartialEq, Eq, Structural)]
pub enum ConnectStage {
    /// The challenge on a new connection.
    Challenge,
    /// The answer to the connect request.
    Hello,
    /// The challenge on the connection that is to approve the device.
    ApprovalChallenge,
    /// The answer to the connect request on that connection.
    ApprovalHello,
    /// The answer to the approval.
    ApprovalReply,
}

/// How far connecting has come.
#[derive(Debug)]
pub struct Connecting {
    pub stage: ConnectStage,
    /// The device may still be approved automatically.
    pub may_approve: bool,
    /// The pairing request that is being approved.
    pub request_id: String,
}

/// What came from the gateway.
#[derive(Debug)]
pub enum ConnectEvent {
    Document(Json),
    Closed,
    /// The connection could not be opened, read or written, or held no document.
    Failed(String),
}

/// What to do next.
#[derive(Debug)]
pub enum ConnectAction {
    /// Send the connect request for that nonce and read the answer.
    SendConnect(String),
    /// The session is open; store the device token if there is one.
    Established(Option<String>),
    /// Open a connection for the approval and read its challenge.
    OpenApproval,
    /// Send the connect request of the approval and read the answer.
    SendApprovalConnect,
    /// Send the approval of that pairing request and read the answer.
    SendApprove(String),
    /// Open a new connection and read its challenge.
    Reconnect,
    /// Give up, for that reason.
    Fail(String),
}

/// How far connecting has come.
pub struct ConnectingModel {
    pub stage: ConnectStage,
    pub may_approve: bool,
    pub request_id: Seq<char>,
}

/// What came from the gateway.
pub enum EventModel {
    Document(JsonTree),
    Closed,
    Failed(Seq<char>),
}

/// What to do next.
pub enum ActionModel {
    SendConnect(Seq<char>),
    Established(Option<Seq<char>>),
    OpenApproval,
    SendApprovalConnect,
    SendApprove(Seq<char>),
    Reconnect,
    Fail(Seq<char>),
}

impl View for Connecting {
    type V = ConnectingModel;

    open spec fn view(&self) -> ConnectingModel {
        ConnectingModel {
            stage: self.stage,
            may_approve: self.may_approve,
            request_id: self.request_id@,
        }
    }
}

impl View for ConnectEvent {
    type V = EventModel;

    open spec fn view(&self) -> EventModel {
        match self {
            ConnectEvent::Document(json) => EventModel::Document(json@),
            ConnectEvent::Closed => EventModel::Closed,
            ConnectEvent::Failed(reason) => EventModel::Failed(reason@),
        }
    }
}

impl View for ConnectAction {
    type V = ActionModel;

    open spec fn view(&self) -> ActionModel {
        match self {
            ConnectAction::SendConnect(nonce) => ActionModel::SendConnect(nonce@),
            ConnectAction::Established(token) => ActionModel::Established(optional_text(*token)),
            ConnectAction::OpenApproval => ActionModel::OpenApproval,
            ConnectAction::SendApprovalConnect => ActionModel::SendApprovalConnect,
            ConnectAction::SendApprove(id) => ActionModel::SendApprove(id@),
            ConnectAction::Reconnect => ActionModel::Reconnect,
            ConnectAction::Fail(reason) => ActionModel::Fail(reason@),
        }
    }
}

/// An approval failed for that reason.
pub open spec fn approval_failure(request_id: Seq<char>, reason: Seq<char>) -> ActionModel {
    ActionModel::Fail(
        "device pairing required (requestId="@ + request_id + "); automatic approval failed: "@
            + reason,
    )
}

/// Why an attempt failed whose connection was closed.
pub open spec fn closed_reason(stage: ConnectStage) -> Seq<char> {
    match stage {
        ConnectStage::Challenge => "gateway closed before handshake"@,
        ConnectStage::Hello => "gateway closed during handshake"@,
        ConnectStage::ApprovalChallenge => "gateway closed before pairing approval handshake"@,
        ConnectStage::ApprovalHello => "gateway closed during pairing approval handshake"@,
        ConnectStage::ApprovalReply => "gateway closed during device pairing approval"@,
    }
}

/// The attempt failed for that reason.
pub open spec fn attempt_failure(state: ConnectingModel, reason: Seq<char>) -> ActionModel {
    match state.stage {
        ConnectStage::Challenge => ActionModel::Fail(reason),
        ConnectStage::Hello => ActionModel::Fail(reason),
        _ => approval_failure(state.request_id, reason),
    }
}

/// The next state and action, where `token` is the gateway token that is set.
pub open spec fn connect_next(state: ConnectingModel, event: EventModel, token: Seq<char>) -> (
    ConnectingModel,
    ActionModel,
) {
    match event {
        EventModel::Closed => (state, attempt_failure(state, closed_reason(state.stage))),
        EventModel::Failed(reason) => (state, attempt_failure(state, reason)),
        EventModel::Document(tree) => match state.stage {
            ConnectStage::Challenge => (
                ConnectingModel { stage: ConnectStage::Hello, ..state },
                ActionModel::SendConnect(nonce_in(tree)),
            ),
            ConnectStage::Hello => if flag(tree, "ok"@) {
                (state, ActionModel::Established(granted_token(tree)))
            } else if state.may_approve && pairing_request(tree) is Some {
                let request_id = pairing_request(tree)->Some_0;
                if usable_token(token) is Some {
                    (
                        ConnectingModel {
                            stage: ConnectStage::ApprovalChallenge,
                            may_approve: false,
                            request_id,
                        },
                        ActionModel::OpenApproval,
                    )
                } else {
                    (
                        state,
                        approval_failure(
                            request_id,
                            "cannot auto-approve pairing without a gateway token"@,
                        ),
                    )
                }
            } else {
                (state, ActionModel::Fail("gateway handshake failed: "@ + refusal(tree)))
            },
            ConnectStage::ApprovalChallenge => (
                ConnectingModel { stage: ConnectStage::ApprovalHello, ..state },
                ActionModel::SendApprovalConnect,
            ),
            ConnectStage::ApprovalHello => if flag(tree, "ok"@) {
                (
                    ConnectingModel { stage: ConnectStage::ApprovalReply, ..state },
                    ActionModel::SendApprove(state.request_id),
                )
            } else {
                (
                    state,
                    attempt_failure(
                        state,
                        "pairing approval handshake failed: "@ + refusal(tree),
                    ),
                )
            },
            ConnectStage::ApprovalReply => if flag(tree, "ok"@) {
                (
                    ConnectingModel { stage: ConnectStage::Challenge, ..state },
                    ActionModel::Reconnect,
                )
            } else {
                (
                    state,
                    attempt_failure(state, "device pairing approval failed: "@ + refusal(tree)),
                )
            },
        },
    }
}

/// The failure of an approval.
fn approval_failed(request_id: &str, reason: &str) -> (action: ConnectAction)
    ensures
        action@ == approval_failure(request_id@, reason@),
{
    let mut text = concat3(
        "device pairing required (requestId=",
        request_id,
        "); automatic approval failed: ",
    );
    text.append(reason);
    ConnectAction::Fail(text)
}

/// What a message from the gateway means for connecting.
pub fn connect_event(message: &WireMessage) -> (event: ConnectEvent)
    ensures
        match message {
            WireMessage::Text(text) => match json_parse(text@) {
                Some(tree) => event@ == EventModel::Document(tree),
                None => event@ == EventModel::Failed("failed to decode text websocket payload"@),
            },
            WireMessage::Binary(bytes) => match json_parse_bytes(bytes@) {
                Some(tree) => event@ == EventModel::Document(tree),
                None => event@ == EventModel::Failed("failed to decode binary websocket payload"@),
            },
            WireMessage::Control => event@ == EventModel::Failed(
                "received non-JSON websocket control frame"@,
            ),
        },
        event@ matches EventModel::Document(tree) ==> distinct_names(tree),
{
    match parse_json_message(message) {
        Ok(json) => ConnectEvent::Document(json),
        Err(error) => ConnectEvent::Failed(error.message()),
    }
}

impl Connecting {
    /// Before the first challenge.
    pub fn new() -> (state: Self)
        ensures
            state@.stage == ConnectStage::Challenge,
            state@.may_approve,
            state@.request_id == Seq::<char>::empty(),
    {
        Connecting {
            stage: ConnectStage::Challenge,
            may_approve: true,
            request_id: String::new(),
        }
    }

    /// The failure of an attempt.
    fn failed(&self, reason: &str) -> (action: ConnectAction)
        ensures
            action@ == attempt_failure(self@, reason@),
    {
        match self.stage {
            ConnectStage::Challenge => ConnectAction::Fail(owned(reason)),
            ConnectStage::Hello => ConnectAction::Fail(owned(reason)),
            _ => approval_failed(self.request_id.as_str(), reason),
        }
    }

    /// Takes in what came from the gateway and says what to do next, where `token`
    /// is the gateway token that is set.
    pub fn advance(&mut self, event: ConnectEvent, token: &str) -> (action: ConnectAction)
        requires
            event@ matches EventModel::Document(tree) ==> distinct_names(tree),
        ensures
            (final(self)@, action@) == connect_next(old(self)@, event@, token@),
    {
        match event {
            ConnectEvent::Closed => match self.stage {
                ConnectStage::Challenge => self.failed("gateway closed before handshake"),
                ConnectStage::Hello => self.failed("gateway closed during handshake"),
                ConnectStage::ApprovalChallenge => self.failed(
                    "gateway closed before pairing approval handshake",
                ),
                ConnectStage::ApprovalHello => self.failed(
                    "gateway closed during pairing approval handshake",
                ),
                ConnectStage::ApprovalReply => self.failed(
                    "gateway closed during device pairing approval",
                ),
            },
            ConnectEvent::Failed(reason) => self.failed(reason.as_str()),
            ConnectEvent::Document(answer) => match self.stage {
                ConnectStage::Challenge => {
                    self.stage = ConnectStage::Hello;
                    ConnectAction::SendConnect(challenge_nonce(&answer))
                },
                ConnectStage::Hello => self.greeted(answer, token),
                ConnectStage::ApprovalChallenge => {
                    self.stage = ConnectStage::ApprovalHello;
                    ConnectAction::SendApprovalConnect
                },
                ConnectStage::ApprovalHello => {
                    if flag_of(&answer, "ok") {
                        self.stage = ConnectStage::ApprovalReply;
                        ConnectAction::SendApprove(owned(self.request_id.as_str()))
                    } else {
                        let error = refusal_text(answer);
                        let reason = concat("pairing approval handshake failed: ", error.as_str());
                        self.failed(reason.as_str())
                    }
                },
                ConnectStage::ApprovalReply => {
                    if flag_of(&answer, "ok") {
                        self.stage = ConnectStage::Challenge;
                        ConnectAction::Reconnect
                    } else {
                        let error = refusal_text(answer);
                        let reason = concat("device pairing approval failed: ", error.as_str());
                        self.failed(reason.as_str())
                    }
                },
            },
        }
    }

    /// Takes in the answer to the connect request.
    fn greeted(&mut self, hello: Json, token: &str) -> (action: ConnectAction)
        requires
            old(self)@.stage == ConnectStage::Hello,
            distinct_names(hello@),
        ensures
            (final(self)@, action@) == connect_next(
                old(self)@,
                EventModel::Document(hello@),
                token@,
            ),
    {
        if flag_of(&hello, "ok") {
            return ConnectAction::Established(granted_device_token(&hello));
        }
        if self.may_approve {
            if let Some(request_id) = extract_pairing_request_id(&hello) {
                if trim(token).is_empty() {
                    return approval_failed(
                        request_id.as_str(),
                        "cannot auto-approve pairing without a gateway token",
                    );
                }
                self.stage = ConnectStage::ApprovalChallenge;
                self.may_approve = false;
                self.request_id = request_id;
                return ConnectAction::OpenApproval;
            }
        }
        let error = refusal_text(hello);
        ConnectAction::Fail(concat("gateway handshake failed: ", error.as_str()))
    }
}

// ---------------------------------------------------------------------------
// Laws
// ---------------------------------------------------------------------------
/// A connect request carries what its signature covers: the device, the time and
/// the nonce that it names are those that were signed, and a gateway token is
/// presented and signed exactly where one is set.
pub proof fn request_carries_what_it_signs(
    token: Seq<char>,
    identity: DeviceIdentity,
    nonce: Seq<char>,
    signed_at_ms: u64,
    platform: Seq<char>,
    version: Seq<char>,
)
    ensures
        ({
            let request = connect_tree(token, identity, nonce, signed_at_ms, platform, version);
            let params = field(request, "params"@);
            let device = field_of(params, "device"@);
            let payload = connect_payload(token, nonce, signed_at_ms, platform);
            &&& text_in(field_of(device, "id"@)) == Some(identity.device_id@)
            &&& text_in(field_of(device, "publicKey"@)) == Some(identity.public_key_base64url@)
            &&& u64_in(field_of(device, "signedAt"@)) == Some(payload.signed_at_ms)
            &&& text_in(field_of(device, "nonce"@)) == Some(payload.nonce)
            &&& text_in(field_of(device, "signature"@)) == Some(
                base64url(
                    ed25519_signature(
                        identity.secret(),
                        encode_utf8(signature_payload(identity.device_id@, payload)),
                    ),
                ),
            )
            &&& text_in(field_of(field_of(params, "auth"@), "token"@)) == payload.token
        }),
{
    reveal_strlit("type");
    reveal_strlit("id");
    reveal_strlit("method");
    reveal_strlit("params");
    let request = connect_tree(token, identity, nonce, signed_at_ms, platform, version);
    let fields = request->Object_0;
    assert(names_differ(fields)) by {
        marks_tell_names_apart(fields);
    }
    field_is_found(fields, 3);
    lemma_params_found(token, identity, nonce, signed_at_ms, platform, version);
    lemma_device_found(
        identity.device_id@,
        identity.public_key_base64url@,
        connect_signature(identity, token, nonce, signed_at_ms, platform),
        signed_at_ms,
        nonce,
    );
    lemma_token_found(usable_token(token), optional_text(identity.device_token));
}

proof fn lemma_params_found(
    token: Seq<char>,
    identity: DeviceIdentity,
    nonce: Seq<char>,
    signed_at_ms: u64,
    platform: Seq<char>,
    version: Seq<char>,
)
    ensures
        ({
            let fields = connect_tree(
                token,
                identity,
                nonce,
                signed_at_ms,
                platform,
                version,
            )->Object_0[3].1->Object_0;
            &&& field_in(fields, "device"@) == Some(fields[11].1)
            &&& field_in(fields, "auth"@) == Some(fields[8].1)
        }),
{
    lemma_connect_names();
    let fields = connect_tree(
        token,
        identity,
        nonce,
        signed_at_ms,
        platform,
        version,
    )->Object_0[3].1->Object_0;
    assert(fields.len() == 12);
    assert(fields[11].0 == "device"@);
    assert(fields[8].0 == "auth"@);
    marks_tell_names_apart(fields);
    field_is_found(fields, 11);
    field_is_found(fields, 8);
}

proof fn lemma_device_found(
    id: Seq<char>,
    public_key: Seq<char>,
    signature: Seq<char>,
    signed_at_ms: u64,
    nonce: Seq<char>,
)
    ensures
        ({
            let fields = device_tree(id, public_key, signature, signed_at_ms, nonce)->Object_0;
            &&& field_in(fields, "id"@) == Some(fields[0].1)
            &&& field_in(fields, "publicKey"@) == Some(fields[1].1)
            &&& field_in(fields, "signature"@) == Some(fields[2].1)
            &&& field_in(fields, "signedAt"@) == Some(fields[3].1)
            &&& field_in(fields, "nonce"@) == Some(fields[4].1)
        }),
{
    reveal_strlit("id");
    reveal_strlit("publicKey");
    reveal_strlit("signature");
    reveal_strlit("signedAt");
    reveal_strlit("nonce");
    let fields = device_tree(id, public_key, signature, signed_at_ms, nonce)->Object_0;
    marks_tell_names_apart(fields);
    field_is_found(fields, 0);
    field_is_found(fields, 1);
    field_is_found(fields, 2);
    field_is_found(fields, 3);
    field_is_found(fields, 4);
}

proof fn lemma_token_found(token: Option<Seq<char>>, device_token: Option<Seq<char>>)
    ensures
        text_in(field(auth_tree(token, device_token), "token"@)) == token,
{
    reveal_strlit("token");
    reveal_strlit("deviceToken");
    let fields = auth_tree(token, device_token)->Object_0;
    match token {
        Some(text) => {
            assert(fields[0] == ("token"@, JsonTree::Text(text)));
        },
        None => {
            if device_token is Some {
                assert(fields[0].0 == "deviceToken"@);
                assert(fields.drop_first().len() == 0);
            } else {
                assert(fields.len() == 0);
            }
        },
    }
    reveal_with_fuel(field_in, 3);
}

/// The states that connecting goes through under a sequence of events.
pub open spec fn connecting_after(
    state: ConnectingModel,
    events: Seq<EventModel>,
    token: Seq<char>,
) -> ConnectingModel
    decreases events.len(),
{
    if events.len() == 0 {
        state
    } else {
        connecting_after(
            connect_next(state, events.first(), token).0,
            events.drop_first(),
            token,
        )
    }
}

/// How often an approval is begun under a sequence of events.
pub open spec fn approvals_begun(
    state: ConnectingModel,
    events: Seq<EventModel>,
    token: Seq<char>,
) -> nat
    decreases events.len(),
{
    if events.len() == 0 {
        0
    } else {
        let (next, action) = connect_next(state, events.first(), token);
        let later = approvals_begun(next, events.drop_first(), token);
        if action is OpenApproval {
            later + 1
        } else {
            later
        }
    }
}

/// Whatever the gateway answers, an approval is begun at most once, and never
/// after it may no longer be.
pub proof fn approval_is_begun_once(
    state: ConnectingModel,
    events: Seq<EventModel>,
    token: Seq<char>,
)
    ensures
        approvals_begun(state, events, token) <= 1,
        !state.may_approve ==> approvals_begun(state, events, token) == 0,
        !state.may_approve ==> !connecting_after(state, events, token).may_approve,
    decreases events.len(),
{
    if events.len() > 0 {
        approval_is_begun_once(
            connect_next(state, events.first(), token).0,
            events.drop_first(),
            token,
        );
    }
}

/// An approval is begun only with a token, only for a pairing request that the
/// gateway named when it refused the device, and it is that request that is
/// approved.
pub proof fn approval_has_grounds(state: ConnectingModel, event: EventModel, token: Seq<char>)
    ensures
        connect_next(state, event, token).1 is OpenApproval ==> {
            &&& state.may_approve
            &&& trimmed(token).len() > 0
            &&& event matches EventModel::Document(tree) && !flag(tree, "ok"@)
                && pairing_request(tree) == Some(connect_next(state, event, token).0.request_id)
        },
        connect_next(state, event, token).1 matches ActionModel::SendApprove(id) ==> id
            == state.request_id,
        !(connect_next(state, event, token).1 is OpenApproval) ==> connect_next(
            state,
            event,
            token,
        ).0.request_id == state.request_id,
{
}

/// A session is open only if the gateway agreed to the connect request, and what
/// the gateway refuses for good is answered with its error.
pub proof fn session_needs_consent(state: ConnectingModel, event: EventModel, token: Seq<char>)
    ensures
        connect_next(state, event, token).1 is Established <==> {
            &&& state.stage == ConnectStage::Hello
            &&& event matches EventModel::Document(tree) && flag(tree, "ok"@)
        },
        event matches EventModel::Document(tree) ==> (state.stage == ConnectStage::Hello
            && !state.may_approve && !flag(tree, "ok"@) ==> connect_next(state, event, token).1
            == ActionModel::Fail("gateway handshake failed: "@ + refusal(tree))),
{
}

/// The number of answers that connecting can still take.
pub open spec fn answers_left(state: ConnectingModel) -> nat {
    match state.stage {
        ConnectStage::Challenge => if state.may_approve {
            7
        } else {
            2
        },
        ConnectStage::Hello => if state.may_approve {
            6
        } else {
            1
        },
        ConnectStage::ApprovalChallenge => 5,
        ConnectStage::ApprovalHello => 4,
        ConnectStage::ApprovalReply => 3,
    }
}

/// The action ends connecting.
pub open spec fn is_end(action: ActionModel) -> bool {
    action is Established || action is Fail
}

/// Approving was begun only with the right to begin it used up.
pub open spec fn approval_accounted(state: ConnectingModel) -> bool {
    state.stage == ConnectStage::Challenge || state.stage == ConnectStage::Hello
        || !state.may_approve
}

/// Connecting ends: every answer either ends it or leaves fewer answers to take.
pub proof fn connecting_ends(state: ConnectingModel, event: EventModel, token: Seq<char>)
    requires
        approval_accounted(state),
    ensures
        is_end(connect_next(state, event, token).1) || answers_left(
            connect_next(state, event, token).0,
        ) < answers_left(state),
        approval_accounted(connect_next(state, event, token).0),
{
}

proof fn lemma_connect_fields_found(
    client: JsonTree,
    scopes: Seq<Seq<char>>,
    auth: JsonTree,
    version: Seq<char>,
    device: JsonTree,
)
    ensures
        ({
            let plain = JsonTree::Object(connect_fields(client, scopes, auth, version));
            let whole = JsonTree::Object(
                connect_fields(client, scopes, auth, version).push(("device"@, device)),
            );
            &&& field(plain, "device"@) is None
            &&& field(whole, "device"@) == Some(device)
            &&& connect_params_say(plain, client, scopes, auth, version)
            &&& connect_params_say(whole, client, scopes, auth, version)
        }),
{
    lemma_connect_names();
    let plain = connect_fields(client, scopes, auth, version);
    let whole = plain.push(("device"@, device));
    marks_tell_names_apart(whole);
    marks_tell_names_apart(plain);
    assert(plain.take(11) =~= plain);
    assert(whole.take(11) =~= plain);
    lemma_params_say(plain, client, scopes, auth, version);
    lemma_params_say(whole, client, scopes, auth, version);
    field_is_found(whole, 11);
    assert forall|k: int| 0 <= k < plain.len() implies (#[trigger] plain[k]).0 != "device"@ by {
        assert(mark(plain[k].0) != mark("device"@));
    }
    first_field_of_a_name_counts(plain, "device"@, 0, device);
}

/// The parameters of a connect request hold those values.
spec fn connect_params_say(
    params: JsonTree,
    client: JsonTree,
    scopes: Seq<Seq<char>>,
    auth: JsonTree,
    version: Seq<char>,
) -> bool {
    &&& u64_in(field(params, "minProtocol"@)) == Some(3u64)
    &&& u64_in(field(params, "maxProtocol"@)) == Some(3u64)
    &&& field(params, "client"@) == Some(client)
    &&& text_in(field(params, "role"@)) == Some("operator"@)
    &&& field(params, "scopes"@) == Some(text_array(scopes))
    &&& field(params, "caps"@) == Some(JsonTree::Array(Seq::empty()))
    &&& field(params, "commands"@) == Some(JsonTree::Array(Seq::empty()))
    &&& field(params, "permissions"@) == Some(JsonTree::Object(Seq::empty()))
    &&& field(params, "auth"@) == Some(auth)
    &&& text_in(field(params, "locale"@)) == Some("en-GB"@)
    &&& text_in(field(params, "userAgent"@)) == Some("openclaw-listen/"@ + version)
}

proof fn lemma_params_say(
    fields: Seq<(Seq<char>, JsonTree)>,
    client: JsonTree,
    scopes: Seq<Seq<char>>,
    auth: JsonTree,
    version: Seq<char>,
)
    requires
        names_differ(fields),
        fields.len() >= 11,
        fields.take(11) == connect_fields(client, scopes, auth, version),
    ensures
        connect_params_say(JsonTree::Object(fields), client, scopes, auth, version),
{
    let first = connect_fields(client, scopes, auth, version);
    assert forall|i: int| 0 <= i < 11 implies fields[i] == #[trigger] first[i] by {
        assert(fields.take(11)[i] == fields[i]);
    }
    assert(fields[0] == first[0]);
    assert(fields[1] == first[1]);
    assert(fields[2] == first[2]);
    assert(fields[3] == first[3]);
    assert(fields[4] == first[4]);
    assert(fields[5] == first[5]);
    assert(fields[6] == first[6]);
    assert(fields[7] == first[7]);
    assert(fields[8] == first[8]);
    assert(fields[9] == first[9]);
    assert(fields[10] == first[10]);
    field_is_found(fields, 0);
    field_is_found(fields, 1);
    field_is_found(fields, 2);
    field_is_found(fields, 3);
    field_is_found(fields, 4);
    field_is_found(fields, 5);
    field_is_found(fields, 6);
    field_is_found(fields, 7);
    field_is_found(fields, 8);
    field_is_found(fields, 9);
    field_is_found(fields, 10);
}

proof fn lemma_client_found(
    id: Seq<char>,
    version: Seq<char>,
    platform: Seq<char>,
    mode: Seq<char>,
    display_name: Seq<char>,
)
    ensures
        ({
            let client = client_tree(id, version, platform, mode, display_name);
            &&& text_in(field(client, "id"@)) == Some(id)
            &&& text_in(field(client, "version"@)) == Some(version)
            &&& text_in(field(client, "platform"@)) == Some(platform)
            &&& text_in(field(client, "mode"@)) == Some(mode)
            &&& text_in(field(client, "deviceFamily"@)) == Some("server"@)
            &&& text_in(field(client, "displayName"@)) == Some(display_name)
        }),
{
    reveal_strlit("id");
    reveal_strlit("version");
    reveal_strlit("platform");
    reveal_strlit("mode");
    reveal_strlit("deviceFamily");
    reveal_strlit("displayName");
    let fields = client_tree(id, version, platform, mode, display_name)->Object_0;
    marks_tell_names_apart(fields);
    field_is_found(fields, 0);
    field_is_found(fields, 1);
    field_is_found(fields, 2);
    field_is_found(fields, 3);
    field_is_found(fields, 4);
    field_is_found(fields, 5);
}

proof fn lemma_auth_found(token: Option<Seq<char>>, device_token: Option<Seq<char>>)
    ensures
        ({
            let auth = auth_tree(token, device_token);
            &&& token is None ==> field(auth, "token"@) is None
            &&& token matches Some(text) ==> field(auth, "token"@) == Some(JsonTree::Text(text))
            &&& device_token is None ==> field(auth, "deviceToken"@) is None
            &&& device_token matches Some(text) ==> field(auth, "deviceToken"@) == Some(
                JsonTree::Text(text),
            )
        }),
{
    reveal_strlit("token");
    reveal_strlit("deviceToken");
    let fields = auth_tree(token, device_token)->Object_0;
    let present = optional_field("token"@, token);
    let later = optional_field("deviceToken"@, device_token);
    assert("token"@.len() != "deviceToken"@.len());
    assert(fields.len() == present.len() + later.len());
    if token is Some {
        assert(fields[0] == present[0]);
        first_field_of_a_name_counts(fields, "token"@, 0, JsonTree::Null);
    } else {
        assert(fields =~= later);
        first_field_of_a_name_counts(fields, "token"@, 0, JsonTree::Null);
    }
    if device_token is Some {
        let at = present.len() as int;
        assert(fields[at] == later[0]);
        assert forall|k: int| 0 <= k < at implies (#[trigger] fields[k]).0 != "deviceToken"@ by {
            assert(fields[k] == present[k]);
        }
        first_field_of_a_name_counts(fields, "deviceToken"@, at, JsonTree::Null);
    } else {
        assert(fields =~= present);
        first_field_of_a_name_counts(fields, "deviceToken"@, 0, JsonTree::Null);
    }
}

/// The tokens are presented as they are set, character for character: the gateway token
/// unless it is blank, and the device token where the device has one. Where there is
/// none the request has no such field.
pub proof fn tokens_are_presented_as_set(
    token: Seq<char>,
    identity: DeviceIdentity,
    nonce: Seq<char>,
    signed_at_ms: u64,
    platform: Seq<char>,
    version: Seq<char>,
)
    ensures
        ({
            let request = connect_tree(token, identity, nonce, signed_at_ms, platform, version);
            let auth = field_of(field(request, "params"@), "auth"@);
            &&& trimmed(token).len() > 0 ==> field_of(auth, "token"@) == Some(
                JsonTree::Text(token),
            )
            &&& trimmed(token).len() == 0 ==> field_of(auth, "token"@) is None
            &&& identity.device_token matches Some(device_token) ==> field_of(auth, "deviceToken"@)
                == Some(JsonTree::Text(device_token@))
            &&& identity.device_token is None ==> field_of(auth, "deviceToken"@) is None
            &&& auth matches Some(JsonTree::Object(_))
        }),
{
    lemma_connect_request(token, identity, nonce, signed_at_ms, platform, version);
    lemma_auth_found(usable_token(token), optional_text(identity.device_token));
}

proof fn lemma_connect_request(
    token: Seq<char>,
    identity: DeviceIdentity,
    nonce: Seq<char>,
    signed_at_ms: u64,
    platform: Seq<char>,
    version: Seq<char>,
)
    ensures
        ({
            let request = connect_tree(token, identity, nonce, signed_at_ms, platform, version);
            let params = field(request, "params"@);
            &&& text_in(field(request, "type"@)) == Some("req"@)
            &&& text_in(field(request, "id"@)) == Some("connect-1"@)
            &&& text_in(field(request, "method"@)) == Some("connect"@)
            &&& params is Some
            &&& connect_params_say(
                params->Some_0,
                client_tree("cli"@, version, platform, "cli"@, "openclaw-listen"@),
                seq!["operator.read"@, "operator.write"@],
                auth_tree(usable_token(token), optional_text(identity.device_token)),
                version,
            )
            &&& field_of(params, "device"@) == Some(
                device_tree(
                    identity.device_id@,
                    identity.public_key_base64url@,
                    connect_signature(identity, token, nonce, signed_at_ms, platform),
                    signed_at_ms,
                    nonce,
                ),
            )
        }),
{
    let client = client_tree("cli"@, version, platform, "cli"@, "openclaw-listen"@);
    let scopes = seq!["operator.read"@, "operator.write"@];
    let auth = auth_tree(usable_token(token), optional_text(identity.device_token));
    let device = device_tree(
        identity.device_id@,
        identity.public_key_base64url@,
        connect_signature(identity, token, nonce, signed_at_ms, platform),
        signed_at_ms,
        nonce,
    );
    lemma_connect_fields_found(client, scopes, auth, version, device);
    requests_say_what_they_ask(
        "connect-1"@,
        "connect"@,
        JsonTree::Object(connect_fields(client, scopes, auth, version).push(("device"@, device))),
    );
}

/// The device signs, with its own key, the version of the text, its identifier, the
/// client, the role and the scopes that it asks for, the time, the gateway token as it is
/// set, or nothing where that is blank, the nonce of the challenge and the platform.
pub proof fn signature_covers_the_request(
    token: Seq<char>,
    identity: DeviceIdentity,
    nonce: Seq<char>,
    signed_at_ms: u64,
    platform: Seq<char>,
    version: Seq<char>,
)
    ensures
        ({
            let request = connect_tree(token, identity, nonce, signed_at_ms, platform, version);
            let device = field_of(field(request, "params"@), "device"@);
            let presented = if trimmed(token).len() > 0 {
                token
            } else {
                Seq::empty()
            };
            let signed = seq!['v', '3', '|'] + identity.device_id@ + seq!['|'] + "cli"@ + seq!['|']
                + "cli"@ + seq!['|'] + "operator"@ + seq!['|'] + ("operator.read"@ + seq![',']
                + "operator.write"@) + seq!['|'] + decimal(signed_at_ms as nat) + seq!['|']
                + presented + seq!['|'] + nonce + seq!['|'] + platform + seq!['|'] + "server"@;
            text_in(field_of(device, "signature"@)) == Some(
                base64url(ed25519_signature(identity.secret(), encode_utf8(signed))),
            )
        }),
{
    let payload = connect_payload(token, nonce, signed_at_ms, platform);
    request_carries_what_it_signs(token, identity, nonce, signed_at_ms, platform, version);
    signed_text_spells_its_fields(identity.device_id@, payload);
    let scopes = seq!["operator.read"@, "operator.write"@];
    joining_puts_separators_between(
        seq!["operator.read"@],
        seq!["operator.write"@],
        "operator.read"@,
        seq![','],
    );
    joining_puts_separators_between(
        seq!["operator.read"@],
        seq!["operator.write"@],
        "operator.write"@,
        seq![','],
    );
    assert(seq!["operator.read"@] + seq!["operator.write"@] =~= scopes);
    assert(joined(payload.scopes, seq![',']) == "operator.read"@ + seq![','] + "operator.write"@);
}

/// A connect request asks for the session of an operator that reads and writes, for the
/// one version of the protocol, and describes the client, the platform and the device by
/// the values that were given.
pub proof fn connect_request_describes_the_client(
    token: Seq<char>,
    identity: DeviceIdentity,
    nonce: Seq<char>,
    signed_at_ms: u64,
    platform: Seq<char>,
    version: Seq<char>,
)
    ensures
        ({
            let request = connect_tree(token, identity, nonce, signed_at_ms, platform, version);
            let params = field(request, "params"@);
            let client = field_of(params, "client"@);
            let device = field_of(params, "device"@);
            &&& text_in(field(request, "type"@)) == Some("req"@)
            &&& text_in(field(request, "id"@)) == Some("connect-1"@)
            &&& text_in(field(request, "method"@)) == Some("connect"@)
            &&& u64_in(field_of(params, "minProtocol"@)) == Some(3u64)
            &&& u64_in(field_of(params, "maxProtocol"@)) == Some(3u64)
            &&& text_in(field_of(client, "id"@)) == Some("cli"@)
            &&& text_in(field_of(client, "version"@)) == Some(version)
            &&& text_in(field_of(client, "platform"@)) == Some(platform)
            &&& text_in(field_of(client, "mode"@)) == Some("cli"@)
            &&& text_in(field_of(client, "deviceFamily"@)) == Some("server"@)
            &&& text_in(field_of(client, "displayName"@)) == Some("openclaw-listen"@)
            &&& text_in(field_of(params, "role"@)) == Some("operator"@)
            &&& field_of(params, "scopes"@) == Some(
                JsonTree::Array(
                    seq![JsonTree::Text("operator.read"@), JsonTree::Text("operator.write"@)],
                ),
            )
            &&& field_of(params, "caps"@) == Some(JsonTree::Array(Seq::empty()))
            &&& field_of(params, "commands"@) == Some(JsonTree::Array(Seq::empty()))
            &&& field_of(params, "permissions"@) == Some(JsonTree::Object(Seq::empty()))
            &&& text_in(field_of(params, "locale"@)) == Some("en-GB"@)
            &&& text_in(field_of(params, "userAgent"@)) == Some("openclaw-listen/"@ + version)
            &&& text_in(field_of(device, "id"@)) == Some(identity.device_id@)
            &&& text_in(field_of(device, "publicKey"@)) == Some(identity.public_key_base64url@)
            &&& u64_in(field_of(device, "signedAt"@)) == Some(signed_at_ms)
            &&& text_in(field_of(device, "nonce"@)) == Some(nonce)
        }),
{
    lemma_connect_request(token, identity, nonce, signed_at_ms, platform, version);
    lemma_client_found("cli"@, version, platform, "cli"@, "openclaw-listen"@);
    request_carries_what_it_signs(token, identity, nonce, signed_at_ms, platform, version);
    let scopes = seq!["operator.read"@, "operator.write"@];
    assert(text_array(scopes)->Array_0 =~= seq![
        JsonTree::Text("operator.read"@),
        JsonTree::Text("operator.write"@),
    ]);
}

/// The connection that approves a device presents the gateway token as it is set, and no
/// device; it asks for the scopes that an approval takes.
pub proof fn approval_request_presents_the_token(
    token: Seq<char>,
    platform: Seq<char>,
    version: Seq<char>,
)
    ensures
        ({
            let request = approval_connect_tree(token, platform, version);
            let params = field(request, "params"@);
            let client = field_of(params, "client"@);
            let auth = field_of(params, "auth"@);
            &&& text_in(field(request, "type"@)) == Some("req"@)
            &&& text_in(field(request, "id"@)) == Some("connect-approve-1"@)
            &&& text_in(field(request, "method"@)) == Some("connect"@)
            &&& u64_in(field_of(params, "minProtocol"@)) == Some(3u64)
            &&& u64_in(field_of(params, "maxProtocol"@)) == Some(3u64)
            &&& text_in(field_of(client, "id"@)) == Some("gateway-client"@)
            &&& text_in(field_of(client, "version"@)) == Some(version)
            &&& text_in(field_of(client, "platform"@)) == Some(platform)
            &&& text_in(field_of(client, "mode"@)) == Some("backend"@)
            &&& text_in(field_of(client, "deviceFamily"@)) == Some("server"@)
            &&& text_in(field_of(client, "displayName"@)) == Some("openclaw-listen-pairing"@)
            &&& text_in(field_of(params, "role"@)) == Some("operator"@)
            &&& field_of(params, "scopes"@) == Some(
                JsonTree::Array(
                    seq![
                        JsonTree::Text("operator.admin"@),
                        JsonTree::Text("operator.pairing"@),
                        JsonTree::Text("operator.read"@),
                        JsonTree::Text("operator.write"@),
                        JsonTree::Text("operator.talk.secrets"@),
                    ],
                ),
            )
            &&& text_in(field_of(params, "userAgent"@)) == Some("openclaw-listen/"@ + version)
            &&& field_of(auth, "token"@) == Some(JsonTree::Text(token))
            &&& field_of(auth, "deviceToken"@) is None
            &&& field_of(params, "device"@) is None
        }),
{
    let client = client_tree(
        "gateway-client"@,
        version,
        platform,
        "backend"@,
        "openclaw-listen-pairing"@,
    );
    let auth = auth_tree(Some(token), None);
    lemma_connect_fields_found(client, approval_scopes(), auth, version, JsonTree::Null);
    requests_say_what_they_ask(
        "connect-approve-1"@,
        "connect"@,
        JsonTree::Object(connect_fields(client, approval_scopes(), auth, version)),
    );
    lemma_client_found(
        "gateway-client"@,
        version,
        platform,
        "backend"@,
        "openclaw-listen-pairing"@,
    );
    lemma_auth_found(Some(token), None);
    assert(text_array(approval_scopes())->Array_0 =~= seq![
        JsonTree::Text("operator.admin"@),
        JsonTree::Text("operator.pairing"@),
        JsonTree::Text("operator.read"@),
        JsonTree::Text("operator.write"@),
        JsonTree::Text("operator.talk.secrets"@),
    ]);
}

/// An approval names the pairing request that it approves.
pub proof fn approval_names_the_request(request_id: Seq<char>)
    ensures
        text_in(field(approve_tree(request_id), "type"@)) == Some("req"@),
        text_in(field(approve_tree(request_id), "id"@)) == Some("approve-1"@),
        text_in(field(approve_tree(request_id), "method"@)) == Some("device.pair.approve"@),
        text_in(field_of(field(approve_tree(request_id), "params"@), "requestId"@)) == Some(
            request_id,
        ),
{
    let fields = seq![("requestId"@, JsonTree::Text(request_id))];
    requests_say_what_they_ask(
        "approve-1"@,
        "device.pair.approve"@,
        JsonTree::Object(fields),
    );
    assert(fields.first() == ("requestId"@, JsonTree::Text(request_id)));
}

/// What the gateway answers is read where it stands: the nonce in the payload of the
/// challenge, the device token among the tokens of the greeting, the pairing request in
/// the details of the error or else in the payload, and the error of a refusal as it is
/// written.
pub proof fn answers_are_read_where_they_stand(tree: JsonTree)
    ensures
        ({
            let payload = field(tree, "payload"@);
            let details = field_of(field(tree, "error"@), "details"@);
            &&& field_of(payload, "nonce"@) matches Some(JsonTree::Text(nonce)) ==> nonce_in(tree)
                == nonce
            &&& !(field_of(payload, "nonce"@) matches Some(JsonTree::Text(_))) ==> nonce_in(
                tree,
            ).len() == 0
            &&& field_of(field_of(payload, "auth"@), "deviceToken"@) matches Some(
                JsonTree::Text(token),
            ) ==> granted_token(tree) == Some(token)
            &&& !(field_of(field_of(payload, "auth"@), "deviceToken"@) matches Some(
                JsonTree::Text(_),
            )) ==> granted_token(tree) is None
            &&& field_of(details, "requestId"@) matches Some(JsonTree::Text(id))
                ==> pairing_request(tree) == Some(id)
            &&& !(field_of(details, "requestId"@) matches Some(JsonTree::Text(_)))
                ==> pairing_request(tree) == text_in(field_of(payload, "requestId"@))
            &&& field(tree, "error"@) matches Some(error) ==> refusal(tree) == json_text(error)
            &&& field(tree, "error"@) is None ==> refusal(tree) == json_text(
                JsonTree::Text("unknown error"@),
            )
            &&& flag(tree, "ok"@) <==> field(tree, "ok"@) == Some(JsonTree::Bool(true))
        }),
{
}

/// The challenge is answered with its nonce, and a greeting that agrees opens the
/// session with the device token that it hands out.
pub proof fn challenge_and_greeting_open_a_session(
    state: ConnectingModel,
    tree: JsonTree,
    token: Seq<char>,
)
    ensures
        ({
            let (next, action) = connect_next(state, EventModel::Document(tree), token);
            &&& state.stage == ConnectStage::Challenge ==> {
                &&& action == ActionModel::SendConnect(nonce_in(tree))
                &&& next == (ConnectingModel { stage: ConnectStage::Hello, ..state })
            }
            &&& state.stage == ConnectStage::Hello && field(tree, "ok"@) == Some(
                JsonTree::Bool(true),
            ) ==> action == ActionModel::Established(granted_token(tree))
        }),
{
}

/// A device that is not paired is approved step by step, where that may still be done
/// and a gateway token is set: the refusal that names the pairing request opens the
/// approval, its challenge is answered, the greeting is followed by the approval of that
/// very request, and once that is agreed to, connecting starts anew and may not be
/// approved again.
pub proof fn approval_runs_its_course(
    state: ConnectingModel,
    refused: JsonTree,
    challenge: JsonTree,
    greeting: JsonTree,
    agreed: JsonTree,
    token: Seq<char>,
    id: Seq<char>,
)
    requires
        state.stage == ConnectStage::Hello,
        state.may_approve,
        trimmed(token).len() > 0,
        field(refused, "ok"@) != Some(JsonTree::Bool(true)),
        pairing_request(refused) == Some(id),
        field(greeting, "ok"@) == Some(JsonTree::Bool(true)),
        field(agreed, "ok"@) == Some(JsonTree::Bool(true)),
    ensures
        ({
            let (s1, a1) = connect_next(state, EventModel::Document(refused), token);
            let (s2, a2) = connect_next(s1, EventModel::Document(challenge), token);
            let (s3, a3) = connect_next(s2, EventModel::Document(greeting), token);
            let (s4, a4) = connect_next(s3, EventModel::Document(agreed), token);
            &&& a1 == ActionModel::OpenApproval
            &&& a2 == ActionModel::SendApprovalConnect
            &&& a3 == ActionModel::SendApprove(id)
            &&& a4 == ActionModel::Reconnect
            &&& s4.stage == ConnectStage::Challenge
            &&& !s4.may_approve
        }),
{
}

/// Whatever goes wrong ends connecting with its reason at the end of the text: an error
/// of the connection as it is reported, and a refusal by the error that the gateway
/// gave. While a device is being approved the text names the pairing request too. A
/// device that cannot be approved for want of a token is not.
pub proof fn failures_say_why(
    state: ConnectingModel,
    reason: Seq<char>,
    tree: JsonTree,
    token: Seq<char>,
)
    ensures
        ({
            let approving = state.stage != ConnectStage::Challenge && state.stage
                != ConnectStage::Hello;
            let failed = connect_next(state, EventModel::Failed(reason), token).1;
            let closed = connect_next(state, EventModel::Closed, token).1;
            let answered = connect_next(state, EventModel::Document(tree), token).1;
            let refused = field(tree, "ok"@) != Some(JsonTree::Bool(true));
            let named = "(requestId="@ + state.request_id + ")"@;
            &&& failed matches ActionModel::Fail(text) && closes(text, reason) && (approving
                ==> occurs(text, named)) && (!approving ==> text == reason)
            &&& closed matches ActionModel::Fail(text) && (approving ==> occurs(text, named))
            &&& refused && (state.stage == ConnectStage::ApprovalHello || state.stage
                == ConnectStage::ApprovalReply) ==> {
                answered matches ActionModel::Fail(text) && closes(text, refusal(tree)) && occurs(
                    text,
                    named,
                )
            }
            &&& refused && state.stage == ConnectStage::Hello && (!state.may_approve
                || pairing_request(tree) is None) ==> {
                answered matches ActionModel::Fail(text) && closes(text, refusal(tree))
            }
            &&& refused && state.stage == ConnectStage::Hello && state.may_approve && trimmed(
                token,
            ).len() == 0 ==> (pairing_request(tree) matches Some(id) ==> {
                answered matches ActionModel::Fail(text) && occurs(
                    text,
                    "(requestId="@ + id + ")"@,
                )
            })
        }),
{
    let approving = state.stage != ConnectStage::Challenge && state.stage != ConnectStage::Hello;
    lemma_closed_by(Seq::empty(), reason);
    assert(Seq::<char>::empty() + reason =~= reason);
    lemma_approval_failure(state.request_id, reason);
    lemma_approval_failure(state.request_id, closed_reason(state.stage));
    let error = refusal(tree);
    lemma_approval_failure(
        state.request_id,
        "pairing approval handshake failed: "@ + error,
    );
    lemma_approval_failure(state.request_id, "device pairing approval failed: "@ + error);
    lemma_closed_by("gateway handshake failed: "@, error);
    let opening = "device pairing required (requestId="@ + state.request_id
        + "); automatic approval failed: "@;
    assert(opening + ("pairing approval handshake failed: "@ + error) =~= opening
        + "pairing approval handshake failed: "@ + error);
    lemma_closed_by(opening + "pairing approval handshake failed: "@, error);
    assert(opening + ("device pairing approval failed: "@ + error) =~= opening
        + "device pairing approval failed: "@ + error);
    lemma_closed_by(opening + "device pairing approval failed: "@, error);
    if let Some(id) = pairing_request(tree) {
        lemma_approval_failure(id, "cannot auto-approve pairing without a gateway token"@);
    }
}

proof fn lemma_closed_by(before: Seq<char>, ending: Seq<char>)
    ensures
        closes(before + ending, ending),
{
    occurring_is_standing_between(ending, before, ending, Seq::empty());
}

proof fn lemma_approval_failure(request_id: Seq<char>, reason: Seq<char>)
    ensures
        approval_failure(request_id, reason) matches ActionModel::Fail(text) && closes(text, reason)
            && occurs(text, "(requestId="@ + request_id + ")"@) && text
            == "device pairing required (requestId="@ + request_id
            + "); automatic approval failed: "@ + reason,
{
    reveal_strlit("device pairing required (requestId=");
    reveal_strlit("); automatic approval failed: ");
    reveal_strlit("(requestId=");
    reveal_strlit(")");
    let opening = "device pairing required (requestId="@ + request_id
        + "); automatic approval failed: "@;
    let text = opening + reason;
    lemma_closed_by(opening, reason);
    let named = "(requestId="@ + request_id + ")"@;
    assert(text.subrange(24, 24int + named.len()) =~= named);
    assert(stands_at(text, named, 24));
}

/// What came from the gateway and what is to be done are told in full.
pub proof fn steps_are_told_in_full(json: Json, text: String, state: Connecting)
    ensures
        ConnectEvent::Document(json)@ == EventModel::Document(json@),
        ConnectEvent::Closed@ == EventModel::Closed,
        ConnectEvent::Failed(text)@ == EventModel::Failed(text@),
        ConnectAction::SendConnect(text)@ == ActionModel::SendConnect(text@),
        ConnectAction::Established(Some(text))@ == ActionModel::Established(Some(text@)),
        ConnectAction::Established(None)@ == ActionModel::Established(None),
        ConnectAction::OpenApproval@ == ActionModel::OpenApproval,
        ConnectAction::SendApprovalConnect@ == ActionModel::SendApprovalConnect,
        ConnectAction::SendApprove(text)@ == ActionModel::SendApprove(text@),
        ConnectAction::Reconnect@ == ActionModel::Reconnect,
        ConnectAction::Fail(text)@ == ActionModel::Fail(text@),
        state@.stage == state.stage,
        state@.may_approve == state.may_approve,
        state@.request_id == state.request_id@,
{
}

/// A connection that the gateway closes is told by what was awaited on it.
pub proof fn closing_is_told_by_what_was_awaited(state: ConnectingModel, token: Seq<char>)
    ensures
        ({
            let action = connect_next(state, EventModel::Closed, token).1;
            &&& state.stage == ConnectStage::Challenge ==> action == ActionModel::Fail(
                "gateway closed before handshake"@,
            )
            &&& state.stage == ConnectStage::Hello ==> action == ActionModel::Fail(
                "gateway closed during handshake"@,
            )
            &&& state.stage == ConnectStage::ApprovalChallenge ==> {
                action matches ActionModel::Fail(text) && closes(
                    text,
                    "gateway closed before pairing approval handshake"@,
                )
            }
            &&& state.stage == ConnectStage::ApprovalHello ==> (action matches ActionModel::Fail(
                text,
            ) && closes(text, "gateway closed during pairing approval handshake"@))
            &&& state.stage == ConnectStage::ApprovalReply ==> (action matches ActionModel::Fail(
                text,
            ) && closes(text, "gateway closed during device pairing approval"@))
        }),
{
    lemma_approval_failure(state.request_id, closed_reason(state.stage));
}

} // verus!
