use web_admin::events::{translate, AssistantEvent, EndedMessage, WidgetFrame, WireFrame};
use web_admin::json::{push_quoted, Json};
use web_admin::replay::{ReplayLog, REPLAY_CAPACITY};
use web_admin::rpc::{line_action, parse_frame, ExtensionUiResponse, LineAction, RpcCommand, RpcFrame};

fn to_json(v: &serde_json::Value) -> Json {
    match v {
        serde_json::Value::Null => Json::Null,
        serde_json::Value::Bool(b) => Json::Bool(*b),
        serde_json::Value::Number(n) => Json::Number(n.to_string()),
        serde_json::Value::String(s) => Json::Str(s.clone()),
        serde_json::Value::Array(items) => Json::Array(items.iter().map(to_json).collect()),
        serde_json::Value::Object(map) => {
            Json::Object(map.iter().map(|(k, v)| (k.clone(), to_json(v))).collect())
        },
    }
}

fn frame(line: &str) -> RpcFrame {
    let parsed = serde_json::from_str::<serde_json::Value>(line).ok().map(|v| to_json(&v));
    parse_frame(line, parsed)
}

#[test]
fn prompt_serialises_with_message_not_prompt() {
    let line = RpcCommand::Prompt { message: "hi".to_owned() }.to_line();
    assert_eq!(line, "{\"type\":\"prompt\",\"message\":\"hi\"}\n");
}

#[test]
fn follow_up_uses_snake_case_on_the_wire() {
    let line = RpcCommand::FollowUp { message: "x".to_owned() }.to_line();
    assert!(line.contains("\"follow_up\""), "got {line}");
}

#[test]
fn parses_a_real_ui_request() {
    let line = r#"{"type":"extension_ui_request","id":"242791c9","method":"confirm","title":"sp-governance","message":"{\"kind\":\"tool\",\"tool_name\":\"write\",\"tool_use_id\":\"toolu_01\",\"tool_input\":{\"path\":\"README.md\"}}"}"#;
    let RpcFrame::UiRequest(req) = frame(line) else {
        panic!("expected a UiRequest");
    };
    assert_eq!(req.id, "242791c9");
    assert_eq!(req.method, "confirm");
    let payload: serde_json::Value = serde_json::from_str(&req.message).unwrap();
    assert_eq!(payload["kind"], "tool");
    assert_eq!(payload["tool_name"].as_str(), Some("write"));
}

#[test]
fn parses_a_failed_response() {
    let line = r#"{"id":"1","type":"response","command":"prompt","success":false,"error":"boom"}"#;
    let RpcFrame::Response { success, error } = frame(line) else {
        panic!("expected a Response");
    };
    assert!(!success);
    assert_eq!(error.as_deref(), Some("boom"));
}

#[test]
fn unknown_event_kinds_survive_as_events() {
    let RpcFrame::Event(v) = frame(r#"{"type":"brand_new_thing","x":1}"#) else {
        panic!("expected an Event");
    };
    match v {
        Json::Object(entries) => {
            assert!(entries.iter().any(|(k, v)| k == "x" && matches!(v, Json::Number(n) if n == "1")))
        },
        _ => panic!("expected an object"),
    }
}

#[test]
fn non_json_is_not_fatal() {
    assert!(matches!(frame("Warning: something on stdout"), RpcFrame::Unparseable(_)));
}

#[test]
fn a_malformed_ui_request_is_an_event() {
    assert!(matches!(frame(r#"{"type":"extension_ui_request","id":"1"}"#), RpcFrame::Event(_)));
    assert!(matches!(
        frame(r#"{"type":"extension_ui_request","id":"1","method":"m","message":7}"#),
        RpcFrame::Event(_)
    ));
    let RpcFrame::UiRequest(r) = frame(r#"{"type":"extension_ui_request","id":"1","method":"m"}"#)
    else {
        panic!("expected a UiRequest");
    };
    assert_eq!(r.message, "");
}

#[test]
fn each_line_leads_to_one_action() {
    let req = frame(r#"{"type":"extension_ui_request","id":"a","method":"confirm","message":"x"}"#);
    assert!(matches!(line_action(&req, true), LineAction::Decide { id } if id == "a"));
    match line_action(&req, false) {
        LineAction::DenyUnreadable { id, message } => {
            assert_eq!(id, "a");
            assert_eq!(message, "[GOVERNANCE] unparseable approval request — denied");
        },
        _ => panic!("expected a denial"),
    }
    let select = frame(r#"{"type":"extension_ui_request","id":"a","method":"select"}"#);
    assert!(matches!(line_action(&select, true), LineAction::Ignore));
    let failed = frame(r#"{"type":"response","success":false}"#);
    assert!(matches!(line_action(&failed, true), LineAction::ShowError { message } if message == "pi rejected the command"));
    let ok = frame(r#"{"type":"response","success":true}"#);
    assert!(matches!(line_action(&ok, true), LineAction::Ignore));
    assert!(matches!(line_action(&frame("{}"), true), LineAction::Forward));
}

#[test]
fn answers_and_commands_are_valid_json_lines() {
    assert_eq!(
        ExtensionUiResponse::new("id\"1", true).to_line(),
        "{\"type\":\"extension_ui_response\",\"id\":\"id\\\"1\",\"confirmed\":true}\n"
    );
    let line = ExtensionUiResponse::new("x", false).to_line();
    let v: serde_json::Value = serde_json::from_str(line.trim_end()).unwrap();
    assert_eq!(v["confirmed"], false);
    assert_eq!(RpcCommand::Abort.to_line(), "{\"type\":\"abort\"}\n");
    let tricky = "line\nbreak\t\"q\" \\ \u{1} é";
    let steer = RpcCommand::Steer { message: tricky.to_string() }.to_line();
    let v: serde_json::Value = serde_json::from_str(steer.trim_end()).unwrap();
    assert_eq!(v["message"], tricky);
    let expected = format!(
        "{{\"type\":\"steer\",\"message\":{}}}\n",
        serde_json::to_string(tricky).unwrap()
    );
    assert_eq!(steer, expected);
}

#[test]
fn strings_are_quoted_as_serde_json_quotes_them() {
    for s in ["", "plain", "\u{0}\u{1f}\u{7f}", "\u{8}\u{c}\r", "emoji 🙂", "back\\slash"] {
        let mut out = String::new();
        push_quoted(&mut out, s);
        assert_eq!(out, serde_json::to_string(s).unwrap());
    }
}

#[test]
fn a_replay_hands_back_only_unseen_frames() {
    let mut log: ReplayLog<&str> = ReplayLog::new(10);
    assert_eq!(log.emit("a"), 11);
    assert_eq!(log.emit("b"), 12);
    assert_eq!(log.emit("c"), 13);
    let start = log.replay_start(11);
    let unseen: Vec<(u64, &str)> = (start..log.len()).map(|i| *log.entry(i)).collect();
    assert_eq!(unseen, vec![(12, "b"), (13, "c")]);
    assert_eq!(log.replay_start(13), log.len());
    assert_eq!(log.replay_start(0), 0);
}

#[test]
fn the_replay_keeps_only_the_most_recent_frames() {
    let mut log: ReplayLog<u64> = ReplayLog::new(0);
    for i in 0..(REPLAY_CAPACITY as u64 + 5) {
        log.emit(i);
    }
    assert_eq!(log.len(), REPLAY_CAPACITY);
    assert_eq!(log.entry(0).0, 6);
    assert_eq!(log.last_seq(), REPLAY_CAPACITY as u64 + 5);
}

#[test]
fn only_the_widgets_vocabulary_gets_through() {
    assert!(matches!(translate(WireFrame::TurnStart), Some(WidgetFrame::TurnStart)));
    assert!(translate(WireFrame::Other).is_none());
    let delta = WireFrame::MessageUpdate(AssistantEvent::TextDelta { delta: None, text: Some("t".into()) });
    assert!(matches!(translate(delta), Some(WidgetFrame::TextDelta(t)) if t == "t"));
    let empty = WireFrame::MessageUpdate(AssistantEvent::ThinkingDelta { delta: None, text: None });
    assert!(translate(empty).is_none());
    let aborted = WireFrame::MessageUpdate(AssistantEvent::Error { reason: Some("aborted".into()), error_message: None });
    assert!(translate(aborted).is_none());
    let failed = WireFrame::MessageUpdate(AssistantEvent::Error { reason: None, error_message: None });
    assert!(matches!(translate(failed), Some(WidgetFrame::ProviderError(m)) if m == "the provider request failed"));
    let end = WireFrame::MessageEnd(EndedMessage {
        role: "assistant".into(),
        stop_reason: Some("error".into()),
        error_message: Some("quota".into()),
    });
    assert!(matches!(translate(end), Some(WidgetFrame::ProviderError(m)) if m == "quota"));
    let normal = WireFrame::MessageEnd(EndedMessage { role: "assistant".into(), stop_reason: Some("stop".into()), error_message: None });
    assert!(translate(normal).is_none());
    let tool = WireFrame::ToolExecutionEnd { tool_name: "read".into(), tool_call_id: None, is_error: true };
    assert!(matches!(translate(tool), Some(WidgetFrame::ToolEnd { ok: false, .. })));
}

#[test]
fn a_run_of_emits_is_numbered_without_gaps() {
    let mut log: ReplayLog<u64> = ReplayLog::new(7);
    for k in 0..5u64 {
        assert_eq!(log.emit(k), 8 + k);
    }
    assert_eq!(log.replay_start(0), 0);
    let all: Vec<(u64, u64)> = (0..log.len()).map(|i| *log.entry(i)).collect();
    assert_eq!(all, vec![(8, 0), (9, 1), (10, 2), (11, 3), (12, 4)]);
}
