use web_admin::admission::{admit_step, AdmitEvent, AdmitPhase, SeatTable, SpawnError};
use web_admin::conversation::{create_session_step, CreateAnswer, CreateEvent, CreatePhase, Opening};
use web_admin::hub::{hub_request_payload, hub_trace_id, HubRequest};
use web_admin::json::Json;

fn to_value(v: &Json) -> serde_json::Value {
    match v {
        Json::Null => serde_json::Value::Null,
        Json::Bool(b) => serde_json::Value::Bool(*b),
        Json::Number(n) => serde_json::from_str(n).expect("a number"),
        Json::Str(s) => serde_json::Value::String(s.clone()),
        Json::Array(items) => serde_json::Value::Array(items.iter().map(to_value).collect()),
        Json::Object(entries) => {
            let mut map = serde_json::Map::new();
            for (k, v) in entries {
                map.insert(k.clone(), to_value(v));
            }
            serde_json::Value::Object(map)
        },
    }
}

fn json_of(text: &str) -> serde_json::Value {
    serde_json::from_str(text).expect("test JSON")
}

#[test]
fn a_cap_refuses_before_anything_is_held() {
    let (next, act) = admit_step(AdmitPhase::Reserve, AdmitEvent::Reserved(Err(SpawnError::TotalCap(3))));
    assert!(next.is_none());
    assert!(!act.release_seat);
    assert!(act.revoke_key.is_none());
    assert!(!act.kill_child);
    assert!(matches!(act.outcome, Some(Err(SpawnError::TotalCap(3)))));
}

#[test]
fn a_reserved_seat_moves_on_to_the_credential() {
    let (next, act) = admit_step(AdmitPhase::Reserve, AdmitEvent::Reserved(Ok(())));
    assert!(matches!(next, Some(AdmitPhase::Credential)));
    assert!(act.outcome.is_none() && !act.release_seat && act.revoke_key.is_none());
}

#[test]
fn a_failed_credential_gives_back_the_seat() {
    let (next, act) = admit_step(AdmitPhase::Credential, AdmitEvent::Issued(Err("db down".into())));
    assert!(next.is_none());
    assert!(act.release_seat);
    assert!(act.revoke_key.is_none());
    match act.outcome {
        Some(Err(e)) => assert_eq!(e.message(), "could not mint a gateway credential: db down"),
        _ => panic!("a refusal"),
    }
}

#[test]
fn an_issued_credential_is_carried_to_the_spawn() {
    let (next, act) = admit_step(AdmitPhase::Credential, AdmitEvent::Issued(Ok("key-7".into())));
    match next {
        Some(AdmitPhase::Spawn { key_id }) => assert_eq!(key_id, "key-7"),
        _ => panic!("the spawn phase"),
    }
    assert!(act.outcome.is_none());
}

#[test]
fn a_failed_spawn_releases_the_seat_and_revokes_the_credential() {
    let (next, act) = admit_step(
        AdmitPhase::Spawn { key_id: "key-7".into() },
        AdmitEvent::Started(Err("no such file".into())),
    );
    assert!(next.is_none());
    assert!(act.release_seat);
    assert_eq!(act.revoke_key.as_deref(), Some("key-7"));
    assert!(!act.kill_child);
    match act.outcome {
        Some(Err(e)) => assert_eq!(e.message(), "could not start pi: no such file"),
        _ => panic!("a refusal"),
    }
}

#[test]
fn a_child_without_stdin_is_killed_and_everything_given_back() {
    let (next, act) = admit_step(AdmitPhase::Spawn { key_id: "key-9".into() }, AdmitEvent::Started(Ok(false)));
    assert!(next.is_none());
    assert!(act.release_seat);
    assert_eq!(act.revoke_key.as_deref(), Some("key-9"));
    assert!(act.kill_child);
    assert!(!act.go_live);
    match act.outcome {
        Some(Err(e)) => assert_eq!(e.message(), "could not start pi: pi child has no stdin"),
        _ => panic!("a refusal"),
    }
}

#[test]
fn a_started_child_goes_live_and_keeps_its_credential() {
    let (next, act) = admit_step(AdmitPhase::Spawn { key_id: "key-1".into() }, AdmitEvent::Started(Ok(true)));
    assert!(next.is_none());
    assert!(act.go_live);
    assert!(!act.release_seat && act.revoke_key.is_none() && !act.kill_child);
    assert!(matches!(act.outcome, Some(Ok(()))));
}

#[test]
fn a_failed_admission_run_leaves_the_table_and_revokes_its_key() {
    let mut table = SeatTable::new();
    table.reserve("c0", "u", 4, 4).expect("room");
    table.go_live("c0");
    let before = table.len();
    let reserved = table.reserve("c1", "u", 4, 4);
    let (next, act) = admit_step(AdmitPhase::Reserve, AdmitEvent::Reserved(reserved));
    assert!(act.outcome.is_none());
    let (next, act) = admit_step(next.expect("goes on"), AdmitEvent::Issued(Ok("k1".into())));
    assert!(act.outcome.is_none());
    let (next, act) = admit_step(next.expect("goes on"), AdmitEvent::Started(Err("boom".into())));
    assert!(next.is_none());
    if act.release_seat {
        table.release("c1");
    }
    assert_eq!(table.len(), before);
    assert_eq!(act.revoke_key.as_deref(), Some("k1"));
}

fn opening(conv: &str, start_seq: u64, resumed: bool) -> Opening {
    Opening { conversation_id: conv.into(), start_seq, transcript: None, resumed }
}

fn problem_of(answer: Option<CreateAnswer>) -> (u16, &'static str) {
    match answer {
        Some(CreateAnswer::Problem(s, m)) => (s, m),
        _ => panic!("a problem answer"),
    }
}

#[test]
fn a_bad_token_is_a_401() {
    let (next, act) = create_session_step(CreatePhase::Authenticating, CreateEvent::Authenticated(None));
    assert!(next.is_none());
    assert!(act.revoke_session.is_none());
    assert_eq!(problem_of(act.answer), (401, "invalid or expired token"));
}

#[test]
fn an_unminted_session_is_a_500() {
    let (next, act) = create_session_step(CreatePhase::Authenticating, CreateEvent::Authenticated(Some("u1".into())));
    let phase = next.expect("goes on");
    assert!(matches!(&phase, CreatePhase::Minting { user_id } if user_id == "u1"));
    assert!(act.answer.is_none());
    let (next, act) = create_session_step(phase, CreateEvent::Minted(None));
    assert!(next.is_none());
    assert_eq!(problem_of(act.answer), (500, "could not mint a governed session"));
}

#[test]
fn an_unopened_conversation_is_a_500() {
    let phase = CreatePhase::Opening { user_id: "u1".into(), attested: "s1".into() };
    let (next, act) = create_session_step(phase, CreateEvent::Opened(None));
    assert!(next.is_none());
    assert!(act.revoke_session.is_none());
    assert_eq!(problem_of(act.answer), (500, "could not start a conversation"));
}

#[test]
fn a_refused_conversation_revokes_its_session() {
    let phase = CreatePhase::Creating { user_id: "u1".into(), attested: "s1".into(), opening: opening("c1", 0, false) };
    let (next, act) = create_session_step(phase, CreateEvent::Created(Err(SpawnError::PerUserCap(1))));
    assert!(next.is_none());
    assert_eq!(act.revoke_session.as_deref(), Some("s1"));
    assert_eq!(problem_of(act.answer), (429, "session limit reached"));
    let phase = CreatePhase::Creating { user_id: "u1".into(), attested: "s2".into(), opening: opening("c2", 0, false) };
    let (_, act) = create_session_step(phase, CreateEvent::Created(Err(SpawnError::Io("x".into()))));
    assert_eq!(act.revoke_session.as_deref(), Some("s2"));
    assert_eq!(problem_of(act.answer), (500, "could not start pi"));
}

#[test]
fn an_opened_conversation_is_created_with_its_numbering() {
    let (next, _) = create_session_step(
        CreatePhase::Minting { user_id: "u1".into() },
        CreateEvent::Minted(Some("s1".into())),
    );
    let (next, act) = create_session_step(next.expect("goes on"), CreateEvent::Opened(Some(opening("c9", 41, true))));
    assert!(act.answer.is_none());
    let (next, act) = create_session_step(next.expect("goes on"), CreateEvent::Created(Ok(())));
    assert!(next.is_none());
    assert!(act.revoke_session.is_none());
    match act.answer {
        Some(CreateAnswer::Started(body)) => {
            assert_eq!(body.conversation_id, "c9");
            assert_eq!(body.last_seq, 41);
            assert!(body.resumed);
        },
        _ => panic!("a 201"),
    }
    let phase = CreatePhase::Creating { user_id: "u".into(), attested: "s".into(), opening: opening("c", u64::MAX, false) };
    match create_session_step(phase, CreateEvent::Created(Ok(()))).1.answer {
        Some(CreateAnswer::Started(body)) => assert_eq!(body.last_seq, i64::MAX),
        _ => panic!("a 201"),
    }
}

#[test]
fn the_initialize_body_names_the_protocol_and_the_client() {
    let p = hub_request_payload(HubRequest::Initialize, "ignored", Json::Null);
    assert_eq!(
        to_value(&p),
        json_of(
            r#"{"jsonrpc":"2.0","id":1,"method":"initialize","params":{"protocolVersion":"2024-11-05","capabilities":{},"clientInfo":{"name":"systemprompt-pi-widget","version":"1"}}}"#
        )
    );
}

#[test]
fn the_initialized_notice_has_no_id() {
    let p = hub_request_payload(HubRequest::Initialized, "ignored", Json::Null);
    assert_eq!(to_value(&p), json_of(r#"{"jsonrpc":"2.0","method":"notifications/initialized"}"#));
}

#[test]
fn the_call_body_carries_the_tool_and_its_arguments() {
    let args = Json::Object(vec![("topic".to_string(), Json::Str("install".to_string()))]);
    let p = hub_request_payload(HubRequest::CallTool, "fetch_doc", args);
    assert_eq!(
        to_value(&p),
        json_of(r#"{"jsonrpc":"2.0","id":2,"method":"tools/call","params":{"name":"fetch_doc","arguments":{"topic":"install"}}}"#)
    );
}

#[test]
fn a_trace_id_is_pi_mcp_and_a_fresh_v4_uuid() {
    let a = hub_trace_id();
    let b = hub_trace_id();
    assert_eq!(a.len(), 43);
    assert!(a.starts_with("pi-mcp-"));
    let u: Vec<char> = a["pi-mcp-".len()..].chars().collect();
    for (i, c) in u.iter().enumerate() {
        if i == 8 || i == 13 || i == 18 || i == 23 {
            assert_eq!(*c, '-');
        } else {
            assert!(c.is_ascii_hexdigit() && !c.is_ascii_uppercase(), "{a}");
        }
    }
    assert_eq!(u[14], '4');
    assert!(matches!(u[19], '8' | '9' | 'a' | 'b'));
    assert_ne!(a, b);
}
