use openclaw_listen::config::OpenClawConfig;
use openclaw_listen::gateway::WireMessage;
use openclaw_listen::handshake::{
    build_approval_connect_request, build_approve_request, build_connect_request,
    challenge_nonce, connect_event, extract_pairing_request_id, granted_device_token,
    ConnectAction, ConnectEvent, ConnectStage, Connecting,
};
use openclaw_listen::identity::{DeviceIdentity, StoredDeviceIdentity};
use openclaw_listen::json::{parse_text, render, Json};

fn document(text: &str) -> Json {
    parse_text(text).expect("a JSON document")
}

fn event(text: &str) -> ConnectEvent {
    connect_event(&WireMessage::Text(text.to_string()))
}

fn config(token: &str) -> OpenClawConfig {
    OpenClawConfig {
        gateway_url: "ws://g".to_string(),
        gateway_token: token.to_string(),
        session_key: String::new(),
        session_filter: String::new(),
    }
}

fn identity(token: Option<&str>) -> DeviceIdentity {
    let mut stored = StoredDeviceIdentity::from_secret(&[7; 32]);
    stored.device_token = token.map(|token| token.to_string());
    DeviceIdentity::from_stored(stored).unwrap()
}

#[test]
fn the_connect_request() {
    let device = identity(Some("dt"));
    let request = build_connect_request(&config("gt"), &device, "n1", 42, "linux", "0.1.0");
    let payload = format!(
        "v3|{}|cli|cli|operator|operator.read,operator.write|42|gt|n1|linux|server",
        device.device_id
    );
    let expected = [
        r#"{"type":"req","id":"connect-1","method":"connect","params":{"#,
        r#""minProtocol":3,"maxProtocol":3,"client":{"id":"cli","version":"0.1.0","#,
        r#""platform":"linux","mode":"cli","deviceFamily":"server","#,
        r#""displayName":"openclaw-listen"},"role":"operator","#,
        r#""scopes":["operator.read","operator.write"],"caps":[],"commands":[],"#,
        r#""permissions":{},"auth":{"token":"gt","deviceToken":"dt"},"locale":"en-GB","#,
        r#""userAgent":"openclaw-listen/0.1.0","device":{"id":""#,
        &device.device_id,
        r#"","publicKey":""#,
        &device.public_key_base64url,
        r#"","signature":""#,
        &device.sign(&payload),
        r#"","signedAt":42,"nonce":"n1"}}}"#,
    ]
    .concat();
    assert_eq!(render(request), expected);
}

#[test]
fn blank_tokens_are_not_presented() {
    let device = identity(None);
    let request = build_connect_request(&config(" "), &device, "", 1, "linux", "1");
    let auth = request.get("params").and_then(|params| params.get("auth")).unwrap();
    assert!(auth.get("token").is_none());
    assert!(auth.get("deviceToken").is_none());
    let payload = format!(
        "v3|{}|cli|cli|operator|operator.read,operator.write|1|||linux|server",
        device.device_id
    );
    let signature = request
        .get("params")
        .and_then(|params| params.get("device"))
        .and_then(|device| device.text_field("signature"))
        .unwrap();
    assert_eq!(signature, device.sign(&payload));
}

#[test]
fn the_requests_of_an_approval() {
    let expected = [
        r#"{"type":"req","id":"connect-approve-1","method":"connect","params":{"#,
        r#""minProtocol":3,"maxProtocol":3,"client":{"id":"gateway-client","version":"0.1.0","#,
        r#""platform":"linux","mode":"backend","deviceFamily":"server","#,
        r#""displayName":"openclaw-listen-pairing"},"role":"operator","#,
        r#""scopes":["operator.admin","operator.pairing","operator.read","operator.write","#,
        r#""operator.talk.secrets"],"caps":[],"commands":[],"permissions":{},"#,
        r#""auth":{"token":"gt"},"locale":"en-GB","userAgent":"openclaw-listen/0.1.0"}}"#,
    ]
    .concat();
    assert_eq!(
        render(build_approval_connect_request(&config("gt"), "linux", "0.1.0")),
        expected
    );
    assert_eq!(
        render(build_approve_request("p-1")),
        r#"{"type":"req","id":"approve-1","method":"device.pair.approve","params":{"requestId":"p-1"}}"#
    );
}

#[test]
fn what_answers_hold() {
    assert_eq!(challenge_nonce(&document(r#"{"payload":{"nonce":"n"}}"#)), "n");
    assert_eq!(challenge_nonce(&document(r#"{"payload":{"nonce":5}}"#)), "");
    assert_eq!(challenge_nonce(&document("{}")), "");
    let hello = document(r#"{"payload":{"auth":{"deviceToken":"d"}}}"#);
    assert_eq!(granted_device_token(&hello).as_deref(), Some("d"));
    assert_eq!(granted_device_token(&document(r#"{"payload":{}}"#)), None);
    let details = r#"{"error":{"details":{"requestId":"e"}},"payload":{"requestId":"p"}}"#;
    assert_eq!(extract_pairing_request_id(&document(details)).as_deref(), Some("e"));
    let payload = r#"{"error":{"details":{"requestId":1}},"payload":{"requestId":"p"}}"#;
    assert_eq!(extract_pairing_request_id(&document(payload)).as_deref(), Some("p"));
    assert_eq!(extract_pairing_request_id(&document(r#"{"error":"x"}"#)), None);
}

#[test]
fn a_device_that_is_welcome() {
    let mut state = Connecting::new();
    assert!(matches!(
        state.advance(event(r#"{"payload":{"nonce":"n"}}"#), "t"),
        ConnectAction::SendConnect(nonce) if nonce == "n"
    ));
    assert!(matches!(
        state.advance(event(r#"{"ok":true,"payload":{"auth":{"deviceToken":"d"}}}"#), "t"),
        ConnectAction::Established(Some(token)) if token == "d"
    ));
}

fn up_to_hello() -> Connecting {
    let mut state = Connecting::new();
    state.advance(event("{}"), "t");
    assert_eq!(state.stage, ConnectStage::Hello);
    state
}

fn failure(action: ConnectAction) -> String {
    match action {
        ConnectAction::Fail(reason) => reason,
        other => panic!("{other:?}"),
    }
}

#[test]
fn a_device_that_has_to_be_approved() {
    let refused = r#"{"ok":false,"error":{"code":"PAIR","details":{"requestId":"p-1"}}}"#;
    let mut state = up_to_hello();
    assert!(matches!(state.advance(event(refused), "t"), ConnectAction::OpenApproval));
    assert!(matches!(state.advance(event("[]"), "t"), ConnectAction::SendApprovalConnect));
    assert!(matches!(
        state.advance(event(r#"{"ok":true}"#), "t"),
        ConnectAction::SendApprove(id) if id == "p-1"
    ));
    assert!(matches!(state.advance(event(r#"{"ok":true}"#), "t"), ConnectAction::Reconnect));
    assert!(matches!(state.advance(event("{}"), "t"), ConnectAction::SendConnect(_)));
    // A second refusal is final.
    assert_eq!(
        failure(state.advance(event(refused), "t")),
        r#"gateway handshake failed: {"code":"PAIR","details":{"requestId":"p-1"}}"#
    );
}

#[test]
fn refusals_without_a_pairing_request() {
    assert_eq!(
        failure(up_to_hello().advance(event(r#"{"ok":false}"#), "t")),
        r#"gateway handshake failed: "unknown error""#
    );
    assert_eq!(
        failure(up_to_hello().advance(event(r#"{"error":"no"}"#), "t")),
        r#"gateway handshake failed: "no""#
    );
}

#[test]
fn an_approval_needs_a_token() {
    let refused = r#"{"payload":{"requestId":"p-2"}}"#;
    assert_eq!(
        failure(up_to_hello().advance(event(refused), " ")),
        [
            "device pairing required (requestId=p-2); automatic approval failed: ",
            "cannot auto-approve pairing without a gateway token",
        ]
        .concat()
    );
}

#[test]
fn approvals_that_fail() {
    let prefix = "device pairing required (requestId=p-3); automatic approval failed: ";
    let refused = r#"{"payload":{"requestId":"p-3"}}"#;
    let mut state = up_to_hello();
    state.advance(event(refused), "t");
    assert_eq!(
        failure(state.advance(ConnectEvent::Closed, "t")),
        format!("{prefix}gateway closed before pairing approval handshake")
    );
    state.advance(event("{}"), "t");
    assert_eq!(
        failure(state.advance(ConnectEvent::Closed, "t")),
        format!("{prefix}gateway closed during pairing approval handshake")
    );
    assert_eq!(
        failure(state.advance(event(r#"{"error":{"a":1}}"#), "t")),
        format!("{prefix}pairing approval handshake failed: {{\"a\":1}}")
    );
    state.advance(event(r#"{"ok":true}"#), "t");
    assert_eq!(
        failure(state.advance(ConnectEvent::Closed, "t")),
        format!("{prefix}gateway closed during device pairing approval")
    );
    assert_eq!(
        failure(state.advance(event("{}"), "t")),
        format!("{prefix}device pairing approval failed: \"unknown error\"")
    );
    assert_eq!(
        failure(state.advance(ConnectEvent::Failed("broken".to_string()), "t")),
        format!("{prefix}broken")
    );
}

#[test]
fn connections_that_break() {
    assert_eq!(
        failure(Connecting::new().advance(ConnectEvent::Closed, "t")),
        "gateway closed before handshake"
    );
    assert_eq!(
        failure(up_to_hello().advance(ConnectEvent::Closed, "t")),
        "gateway closed during handshake"
    );
    assert_eq!(
        failure(Connecting::new().advance(connect_event(&WireMessage::Control), "t")),
        "received non-JSON websocket control frame"
    );
    assert_eq!(
        failure(Connecting::new().advance(connect_event(&WireMessage::Binary(vec![1])), "t")),
        "failed to decode binary websocket payload"
    );
    assert_eq!(
        failure(Connecting::new().advance(event("nonsense"), "t")),
        "failed to decode text websocket payload"
    );
}
