use openclaw_listen::config::{OpenAiConfig, OpenClawConfig};
use openclaw_listen::conversation_log::{log_entry, log_line};
use openclaw_listen::json::{parse_text, render, Json};
use openclaw_listen::report::{device_lines, history_line, history_lines, session_lines};
use openclaw_listen::responses::{
    is_assistant_message, poll_outcome, send_steps, PollOutcome, ResponseWatch, SendStep,
    RESPONSE_HISTORY_LIMIT, RESPONSE_POLL_INTERVAL_SECS, RESPONSE_WAIT_TIMEOUT_SECS,
};
use openclaw_listen::sessions::{
    extract_session_summaries, extract_text_from_value, messages_from_payload,
    session_message_from_value, SessionMessage, SessionSummary,
};
use openclaw_listen::target::{
    choose_target, describe_session, explicit_target, is_main_session, non_empty,
    session_matches_filter,
};
use openclaw_listen::transcription::{
    transcription_outcome, OpenAiTranscriptionClient, Transcript, TranscriptionError,
};

fn document(text: &str) -> Json {
    parse_text(text).expect("a JSON document")
}

fn session(key: &str, title: Option<&str>) -> SessionSummary {
    SessionSummary { key: key.to_string(), title: title.map(|title| title.to_string()) }
}

fn config(key: &str, filter: &str) -> OpenClawConfig {
    OpenClawConfig {
        gateway_url: String::new(),
        gateway_token: String::new(),
        session_key: key.to_string(),
        session_filter: filter.to_string(),
    }
}

fn message(text: &str) -> SessionMessage {
    session_message_from_value(&document(text))
}

#[test]
fn sessions_are_found_anywhere() {
    let sessions = extract_session_summaries(&document(
        r#"{"sessions":[{"key":"a","title":"A","child":{"sessionKey":"b","name":"B"}},
            {"sessionKey":"c","key":"ignored","label":"C"},{"key":"a","title":"again"},
            {"sessionKey":7,"key":"not read"},{"key":"d","title":3,"name":"unread"}]}"#,
    ));
    let found: Vec<(&str, Option<&str>)> =
        sessions.iter().map(|s| (s.key.as_str(), s.title.as_deref())).collect();
    assert_eq!(
        found,
        vec![("a", Some("A")), ("b", Some("B")), ("c", Some("C")), ("d", None)]
    );
    assert!(extract_session_summaries(&document("[null,1,\"key\"]")).is_empty());
}

#[test]
fn messages_are_read() {
    let read = message(
        r#"{"role":"assistant","text":" hi ","messageId":"m","sequence":4,"created_at":"now"}"#,
    );
    assert_eq!(read.role.as_deref(), Some("assistant"));
    assert_eq!(read.text.as_deref(), Some("hi"));
    assert_eq!(read.id.as_deref(), Some("m"));
    assert_eq!(read.seq, Some(4));
    assert_eq!(read.created_at.as_deref(), Some("now"));
    // A name that is there is read even if it holds something else.
    assert_eq!(message(r#"{"id":5,"messageId":"m"}"#).id, None);
    let list = messages_from_payload(&document(r#"{"messages":[{"id":"1"},{"id":"2"}]}"#));
    assert_eq!(list.len(), 2);
    assert_eq!(list[1].id.as_deref(), Some("2"));
    assert!(messages_from_payload(&document(r#"{"messages":{}}"#)).is_empty());
}

#[test]
fn texts_of_messages() {
    let text = |source: &str| extract_text_from_value(&document(source));
    assert_eq!(text(r#"{"text":" ","content":" c "}"#).as_deref(), Some("c"));
    assert_eq!(text(r#"{"body":"b","value":"v"}"#).as_deref(), Some("b"));
    assert_eq!(text(r#"{"message":"m"}"#).as_deref(), Some("m"));
    assert_eq!(
        text(r#"{"content":[{"text":" one "},"skip",{"content":"two","value":"three"},{"text":""}]}"#)
            .as_deref(),
        Some("one\ntwo\nthree")
    );
    assert_eq!(text(r#"{"content":[{"text":" "}]}"#), None);
    assert_eq!(text(r#""text""#), None);
}

#[test]
fn fingerprints() {
    assert_eq!(message(r#"{"id":"x","seq":1}"#).fingerprint(), "id:x");
    assert_eq!(message(r#"{"seq":12}"#).fingerprint(), "seq:12");
    assert_eq!(
        message(r#"{"role":"user","text":"hi","timestamp":"t"}"#).fingerprint(),
        "role:user|at:t|text:hi"
    );
    assert_eq!(message("{}").fingerprint(), "role:|at:|text:");
}

#[test]
fn an_explicit_key_is_the_target() {
    let target = explicit_target(&config(" k ", "f")).unwrap();
    assert_eq!(target.key, "k");
    assert_eq!(target.title, None);
    assert!(explicit_target(&config(" ", "f")).is_none());
    assert_eq!(non_empty("\n"), None);
    assert_eq!(non_empty(" a b "), Some("a b"));
}

#[test]
fn a_filter_has_to_match_one_session() {
    let sessions = vec![
        session("agent:main", Some("Main")),
        session("agent:telegram:1", Some("Family")),
        session("agent:telegram:2", None),
    ];
    let choose = |filter: &str| choose_target(&config("", filter), &sessions);
    assert_eq!(choose(" FAMILY ").unwrap().key, "agent:telegram:1");
    assert_eq!(choose("gram:2").unwrap().key, "agent:telegram:2");
    assert_eq!(
        choose("nobody").unwrap_err().message(),
        "no sessions matched OPENCLAW_SESSION_FILTER='nobody'"
    );
    assert_eq!(
        choose("Telegram").unwrap_err().message(),
        [
            "OPENCLAW_SESSION_FILTER='Telegram' matched 2 sessions; ",
            "set OPENCLAW_SESSION_KEY for an exact target",
        ]
        .concat()
    );
    assert!(session_matches_filter("fam", &sessions[1]));
    assert!(!session_matches_filter("fam", &sessions[2]));
}

#[test]
fn the_main_session_comes_first() {
    let choose = |sessions: Vec<SessionSummary>| choose_target(&config("", " "), &sessions);
    let target = choose(vec![
        session("other", None),
        session("Agent:MAIN", Some("x")),
        session("domain", None),
    ]);
    assert_eq!(target.unwrap().key, "Agent:MAIN");
    assert_eq!(choose(vec![session("only", None)]).unwrap().key, "only");
    assert_eq!(
        choose(vec![session("a", None), session("b", None)]).unwrap_err().message(),
        [
            "multiple sessions are available; set OPENCLAW_SESSION_KEY or ",
            "OPENCLAW_SESSION_FILTER to choose a target",
        ]
        .concat()
    );
    assert_eq!(choose(Vec::new()).unwrap_err().message(), "no OpenClaw sessions were found");
    // Two main sessions are as ambiguous as none.
    assert_eq!(
        choose(vec![session("agent:a:main", None), session("agent:b:main", None)])
            .unwrap_err()
            .message(),
        [
            "multiple sessions are available; set OPENCLAW_SESSION_KEY or ",
            "OPENCLAW_SESSION_FILTER to choose a target",
        ]
        .concat()
    );
    assert!(is_main_session("MAIN"));
    assert!(is_main_session("a:b:main"));
    assert!(!is_main_session("domain"));
    assert!(!is_main_session("main:a"));
}

#[test]
fn sessions_and_messages_are_shown() {
    assert_eq!(describe_session(&session("k", Some("T"))), "k (T)");
    assert_eq!(describe_session(&session("k", Some(""))), "k");
    assert_eq!(
        session_lines(&vec![session("a", None), session("b", Some("B"))]),
        vec!["a", "b (B)"]
    );
    assert_eq!(session_lines(&Vec::new()), vec!["No sessions found."]);
    assert_eq!(device_lines(Vec::new()), vec!["No input devices found."]);
    assert_eq!(device_lines(vec!["mic".to_string()]), vec!["mic"]);
    assert_eq!(history_line(&message(r#"{"role":"user","text":"hi"}"#)), "[user] hi");
    assert_eq!(
        history_lines(&vec![message("{}"), message(r#"{"role":"r","text":"t"}"#)]),
        vec!["[unknown] <non-text message>", "[r] t"]
    );
}

#[test]
fn replies_are_logged_once() {
    let before = vec![message(r#"{"id":"1","role":"assistant","text":"old"}"#)];
    let mut watch = ResponseWatch::from_history(&before);
    assert!(watch.observe(&before).is_empty());
    let later = vec![
        message(r#"{"id":"1","role":"assistant","text":"old"}"#),
        message(r#"{"id":"2","role":"user","text":"mine"}"#),
        message(r#"{"id":"3","role":"assistant","text":"new"}"#),
        message(r#"{"id":"3","role":"assistant","text":"doubled"}"#),
        message(r#"{"id":"4","role":"assistant"}"#),
        message(r#"{"id":"5","role":"Assistant","text":"case"}"#),
        message(r#"{"id":"6","role":"assistant","text":"more"}"#),
    ];
    assert_eq!(watch.observe(&later), vec!["new", "more"]);
    assert!(watch.observe(&later).is_empty());
    assert!(is_assistant_message(&later[2]));
    assert!(!is_assistant_message(&later[5]));
    assert!(!is_assistant_message(&message("{}")));
    assert_eq!(ResponseWatch::new().observe(&before), vec!["old"]);
}

#[test]
fn waiting_for_a_reply() {
    assert_eq!(poll_outcome(1, true), PollOutcome::Logged);
    assert_eq!(poll_outcome(2, false), PollOutcome::Logged);
    assert_eq!(poll_outcome(0, true), PollOutcome::TimedOut);
    assert_eq!(poll_outcome(0, false), PollOutcome::Wait);
    assert_eq!(RESPONSE_HISTORY_LIMIT, 50);
    assert_eq!(RESPONSE_POLL_INTERVAL_SECS, 2);
    assert_eq!(RESPONSE_WAIT_TIMEOUT_SECS, 45);
    assert_eq!(send_steps(false), vec![SendStep::Send]);
    assert_eq!(
        send_steps(true),
        vec![
            SendStep::FetchHistory,
            SendStep::LogTranscript,
            SendStep::Send,
            SendStep::AwaitReply,
        ]
    );
}

#[test]
fn a_line_of_the_log() {
    assert_eq!(
        log_line(1776935117036, "agent:main:telegram:direct:8735858952", "user", "Good morning."),
        [
            r#"{"timestamp_unix_ms":1776935117036,"#,
            r#""session_key":"agent:main:telegram:direct:8735858952","#,
            r#""role":"user","text":"Good morning."}"#,
            "\n",
        ]
        .concat()
    );
}

#[test]
fn entries_stay_on_one_line_and_read_back() {
    let line = log_line(0, "k", "assistant", "two\nlines \"quoted\" \u{1F600}");
    assert_eq!(line.matches('\n').count(), 1);
    assert!(line.ends_with('\n'));
    let read = document(line.trim_end());
    assert_eq!(
        read.text_field("text").as_deref(),
        Some("two\nlines \"quoted\" \u{1F600}")
    );
    assert_eq!(
        render(read),
        render(log_entry(0, "k", "assistant", "two\nlines \"quoted\" \u{1F600}"))
    );
}

fn service(api_key: &str, base_url: &str) -> OpenAiTranscriptionClient {
    OpenAiTranscriptionClient::new(OpenAiConfig {
        api_key: api_key.to_string(),
        base_url: base_url.to_string(),
        transcription_model: "whisper-1".to_string(),
        language: Some(" en ".to_string()),
        prompt: Some("  ".to_string()),
    })
}

#[test]
fn the_request_for_a_transcript() {
    let request = service("key", "https://api.openai.com/v1//").prepare(vec![1, 2]).unwrap();
    assert_eq!(request.url, "https://api.openai.com/v1/audio/transcriptions");
    assert_eq!(request.bearer_token, "key");
    assert_eq!(request.file_name, "microphone.wav");
    assert_eq!(request.mime_type, "audio/wav");
    assert_eq!(request.wav_bytes, vec![1, 2]);
    assert_eq!(
        request.fields,
        vec![
            ("model".to_string(), "whisper-1".to_string()),
            ("language".to_string(), "en".to_string()),
        ]
    );
}

#[test]
fn slashes_of_the_base_address_do_not_matter() {
    for base in ["http://h", "http://h/", "http://h///"] {
        assert_eq!(
            service("k", base).prepare(vec![0]).unwrap().url,
            "http://h/audio/transcriptions"
        );
    }
}

#[test]
fn requests_that_are_not_made() {
    let error = service("key", "u").prepare(Vec::new()).unwrap_err();
    assert_eq!(error.message(), "cannot transcribe an empty audio buffer");
    let error = service(" ", "u").prepare(vec![1]).unwrap_err();
    assert_eq!(error.message(), "OPENAI_API_KEY is not configured");
    assert!(!service(" ", "u").has_api_key());
    assert!(service("k", "u").has_api_key());
    assert!(matches!(
        service("", "u").prepare(Vec::new()),
        Err(TranscriptionError::EmptyAudio)
    ));
}

#[test]
fn answers_of_the_service() {
    let transcript = transcription_outcome(true, "200 OK", " Good morning.\n").unwrap();
    assert_eq!(transcript.text, "Good morning.");
    assert_eq!(transcript.spoken().as_deref(), Some("Good morning."));
    assert_eq!(Transcript::from_answer(" \n").spoken(), None);
    let error = transcription_outcome(false, "401 Unauthorized", "{}").unwrap_err();
    assert_eq!(
        error.message(),
        "OpenAI transcription request failed with 401 Unauthorized: {}"
    );
}
