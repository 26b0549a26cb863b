use openclaw_listen::config::OpenClawConfig;
use openclaw_listen::gateway::{
    ack_from_payload, call_outcome, classify_frame, outgoing_message, parse_json_message, unix_ms,
    CallTable, GatewayCall, GatewayError, GatewayFrame, OpenClawGatewayClient, RpcResponse,
    WireMessage,
};
use openclaw_listen::json::{parse_text, render, Json};

fn document(text: &str) -> Json {
    parse_text(text).expect("a JSON document")
}

fn client(url: &str, key: &str, filter: &str) -> OpenClawGatewayClient {
    OpenClawGatewayClient::new(OpenClawConfig {
        gateway_url: url.to_string(),
        gateway_token: String::new(),
        session_key: key.to_string(),
        session_filter: filter.to_string(),
    })
}

#[test]
fn the_settings_of_a_client() {
    let full = client("ws://g", "k", " ");
    assert_eq!(full.gateway_url(), "ws://g");
    assert_eq!(full.session_key(), Some("k"));
    assert_eq!(full.session_filter(), Some(" "));
    assert!(full.describe_connectivity().is_ok());
    let empty = client("", "", "");
    assert_eq!(empty.session_key(), None);
    assert_eq!(empty.session_filter(), None);
    assert_eq!(
        empty.describe_connectivity().unwrap_err().message(),
        "openclaw gateway url is empty"
    );
}

#[test]
fn messages_are_parsed() {
    let text = parse_json_message(&WireMessage::Text("{\"a\":1}".to_string())).unwrap();
    assert_eq!(render(text), "{\"a\":1}");
    let binary = parse_json_message(&WireMessage::Binary(b"[2]".to_vec())).unwrap();
    assert_eq!(render(binary), "[2]");
    let error = parse_json_message(&WireMessage::Text("{".to_string())).unwrap_err();
    assert_eq!(error.message(), "failed to decode text websocket payload");
    let error = parse_json_message(&WireMessage::Binary(vec![0xff])).unwrap_err();
    assert_eq!(error.message(), "failed to decode binary websocket payload");
    let error = parse_json_message(&WireMessage::Control).unwrap_err();
    assert_eq!(error.message(), "received non-JSON websocket control frame");
}

#[test]
fn frames_are_told_apart() {
    match classify_frame(document(r#"{"type":"res","id":"req-1","ok":true,"payload":[1]}"#)) {
        GatewayFrame::Response { id, response } => {
            assert_eq!(id, "req-1");
            assert!(response.ok);
            assert_eq!(render(response.payload.unwrap()), "[1]");
            assert!(response.error.is_none());
        }
        other => panic!("{other:?}"),
    }
    match classify_frame(document(r#"{"type":"res","ok":"yes","error":{"code":7}}"#)) {
        GatewayFrame::Response { id, response } => {
            assert_eq!(id, "");
            assert!(!response.ok);
            assert_eq!(render(response.error.unwrap()), r#"{"code":7}"#);
        }
        other => panic!("{other:?}"),
    }
    assert!(matches!(
        classify_frame(document(r#"{"type":"event","event":"tick"}"#)),
        GatewayFrame::Event(name) if name == "tick"
    ));
    assert!(matches!(
        classify_frame(document(r#"{"type":"event"}"#)),
        GatewayFrame::Event(name) if name == "unknown"
    ));
    assert!(matches!(
        classify_frame(document(r#"{"type":"hello"}"#)),
        GatewayFrame::Other(kind) if kind == "hello"
    ));
    assert!(matches!(classify_frame(document("[]")), GatewayFrame::Other(kind) if kind.is_empty()));
}

#[test]
fn requests_on_the_wire() {
    let mut table = CallTable::new();
    assert_eq!(
        table.start(GatewayCall::list_sessions(), "a"),
        r#"{"type":"req","id":"req-1","method":"sessions.list","params":{}}"#
    );
    assert_eq!(
        table.start(GatewayCall::session_messages("main", 50), "b"),
        r#"{"type":"req","id":"req-2","method":"sessions.get","params":{"key":"main","limit":50}}"#
    );
    let key = table.next_idempotency_key(1776935117036);
    assert_eq!(key, "openclaw-listen-1776935117036-3");
    assert_eq!(
        table.start(GatewayCall::send_message("main", "Hi \"you\"", &key, true), "c"),
        [
            r#"{"type":"req","id":"req-4","method":"chat.send","params":{"sessionKey":"main","#,
            r#""message":"Hi \"you\"","idempotencyKey":"openclaw-listen-1776935117036-3","#,
            r#""deliver":true}}"#
        ]
        .concat()
    );
}

#[test]
fn a_message_is_sent_without_surrounding_space() {
    let mut table = CallTable::new();
    let error = table.start_message("main", " \n", 5, true, 'a').unwrap_err();
    assert_eq!(error.message(), "cannot send an empty message");
    assert_eq!(
        table.start_message("main", " hello\n", 5, false, 'b').unwrap(),
        [
            r#"{"type":"req","id":"req-2","method":"chat.send","params":{"sessionKey":"main","#,
            r#""message":"hello","idempotencyKey":"openclaw-listen-5-1","deliver":false}}"#,
        ]
        .concat()
    );
    assert_eq!(table.resolve("req-2"), Some('b'));
    assert_eq!(table.begin('c'), "req-3");
}

#[test]
fn keys_of_different_calls_differ() {
    let mut table = CallTable::<char>::new();
    let keys: Vec<String> =
        [11u64, 1, 1, 111].iter().map(|now| table.next_idempotency_key(*now)).collect();
    assert_eq!(
        keys,
        vec![
            "openclaw-listen-11-1",
            "openclaw-listen-1-2",
            "openclaw-listen-1-3",
            "openclaw-listen-111-4",
        ]
    );
}

#[test]
fn answers_reach_their_calls_once() {
    let mut table = CallTable::new();
    assert_eq!(table.begin('a'), "req-1");
    assert_eq!(table.begin('b'), "req-2");
    assert_eq!(table.begin('c'), "req-3");
    assert_eq!(table.resolve("req-2"), Some('b'));
    assert_eq!(table.resolve("req-2"), None);
    assert_eq!(table.resolve("req-9"), None);
    let answer = table.dispatch(document(r#"{"type":"res","id":"req-3","ok":true}"#));
    let (ticket, response) = answer.unwrap();
    assert_eq!(ticket, 'c');
    assert!(response.ok);
    assert!(table.dispatch(document(r#"{"type":"res","id":"req-3","ok":true}"#)).is_none());
    assert!(table.dispatch(document(r#"{"type":"event","id":"req-1"}"#)).is_none());
    assert_eq!(table.begin('d'), "req-4");
    assert_eq!(table.drain(), vec!['a', 'd']);
    assert_eq!(table.drain(), Vec::<char>::new());
    assert_eq!(table.begin('e'), "req-5");
}

#[test]
fn unreadable_messages_leave_calls_waiting() {
    let mut table = CallTable::new();
    assert_eq!(table.begin('a'), "req-1");
    assert_eq!(table.begin('b'), "req-2");
    let unreadable = [
        (WireMessage::Text("{".to_string()), "failed to decode text websocket payload"),
        (WireMessage::Binary(vec![0xff]), "failed to decode binary websocket payload"),
        (WireMessage::Control, "received non-JSON websocket control frame"),
    ];
    for (message, reason) in &unreadable {
        let error = table.receive(message).unwrap_err();
        assert_eq!(error.message(), *reason);
    }

    let event = WireMessage::Text(r#"{"type":"event","id":"req-1"}"#.to_string());
    assert!(table.receive(&event).unwrap().is_none());
    let answer = WireMessage::Binary(br#"{"type":"res","id":"req-2","ok":true}"#.to_vec());
    let (ticket, response) = table.receive(&answer).unwrap().unwrap();
    assert_eq!(ticket, 'b');
    assert!(response.ok);
    assert!(table.receive(&answer).unwrap().is_none());
    assert_eq!(table.drain(), vec!['a']);
}

#[test]
fn outcomes_of_calls() {
    let answer = |ok, payload: Option<&str>, error: Option<&str>| RpcResponse {
        ok,
        payload: payload.map(document),
        error: error.map(document),
    };
    let payload = call_outcome("m", answer(true, Some("[1]"), Some("2"))).unwrap();
    assert_eq!(render(payload), "[1]");
    let payload = call_outcome("m", answer(true, None, None)).unwrap();
    assert_eq!(render(payload), "null");
    let error = call_outcome("chat.send", answer(false, Some("[1]"), Some(r#"{"code":1}"#)));
    assert_eq!(
        error.unwrap_err().message(),
        r#"gateway request failed for chat.send: {"code":1}"#
    );
    let error = call_outcome("m", answer(false, None, None)).unwrap_err();
    assert_eq!(error.message(), r#"gateway request failed for m: "unknown error""#);
    let error = call_outcome("m", RpcResponse::stopped("gateway reader stopped")).unwrap_err();
    assert_eq!(error.message(), r#"gateway request failed for m: "gateway reader stopped""#);
}

#[test]
fn blank_messages_are_not_sent() {
    assert_eq!(outgoing_message(" hello\n").unwrap(), "hello");
    let error = outgoing_message(" \t").unwrap_err();
    assert!(matches!(error, GatewayError::EmptyMessage));
    assert_eq!(error.message(), "cannot send an empty message");
}

#[test]
fn acknowledgements() {
    let ack = ack_from_payload(&document(r#"{"status":"started","runId":"r","messageSeq":12}"#));
    assert_eq!(ack.status.as_deref(), Some("started"));
    assert_eq!(ack.run_id.as_deref(), Some("r"));
    assert_eq!(ack.message_seq, Some(12));
    let ack = ack_from_payload(&document(r#"{"status":1,"messageSeq":-1}"#));
    assert_eq!(ack.status, None);
    assert_eq!(ack.run_id, None);
    assert_eq!(ack.message_seq, None);
}

#[test]
fn milliseconds_are_cut_to_a_word() {
    assert_eq!(unix_ms(1776935117036), 1776935117036);
    assert_eq!(unix_ms(u128::from(u64::MAX) + 6), 5);
}
