use web_admin::conversation::{
    auto_title, clean_title, deletion_reply, history_page, issue_embed_token, reach_conversation, reported_seq,
    resume_point, start_seq_of, version_current,
};
use web_admin::errors::{AdminError, AdminHtmlError};
use web_admin::hub::{hub_headers, hub_step, HubReply, HubRequest, HubStep};
use web_admin::mcp::{McpContentItem, McpResponseFrame, McpToolResult};
use web_admin::portal::{
    gateway_url, pat_name, pat_names_to_keep, pending_page, post_login_redirect, register_redirect,
    PendingPage,
};
use web_admin::secrets::{findings, newest_user_text, Message, SecretsScanner};
use web_admin::token::{verify, TTL_SECS};

#[test]
fn strangers_and_missing_conversations_look_alike() {
    let me = "u".to_string();
    assert!(reach_conversation(Some(&me), &me).is_ok());
    let other = "v".to_string();
    assert_eq!(reach_conversation(Some(&other), &me), Err((404, "no such conversation")));
    assert_eq!(deletion_reply(0), Err((404, "no such conversation")));
    assert_eq!(deletion_reply(1), Ok(()));
    assert_eq!(reach_conversation(None, &me), Err((404, "no such conversation")));
}

#[test]
fn a_bumped_version_revokes_outstanding_tokens() {
    assert!(version_current(3, Some(3)));
    assert!(!version_current(3, Some(4)));
    assert!(!version_current(3, None));
    let (t, exp) = issue_embed_token(b"s", "u", 2, 1_000);
    assert_eq!(exp, 1_000 + TTL_SECS);
    assert_eq!(verify(b"s", &t, 1_000), Ok(("u".to_string(), 2)));
}

#[test]
fn a_stream_resumes_after_what_it_saw() {
    assert_eq!(resume_point(Some("42"), Some(7)), 42);
    assert_eq!(resume_point(Some("+5"), None), 5);
    assert_eq!(resume_point(Some("x"), Some(7)), 7);
    assert_eq!(resume_point(None, None), 0);
    assert_eq!(start_seq_of(-1), 0);
    assert_eq!(start_seq_of(9), 9);
    assert_eq!(reported_seq(u64::MAX), i64::MAX);
    assert_eq!(reported_seq(3), 3);
}

#[test]
fn titles_are_trimmed_and_cut() {
    assert_eq!(clean_title("  hello  "), Ok("hello".to_string()));
    assert_eq!(clean_title("   "), Err((400, "a title cannot be empty")));
    assert_eq!(clean_title(&"x".repeat(130)).unwrap().chars().count(), 120);
    assert_eq!(auto_title("  first line \nsecond"), Some("first line".to_string()));
    assert_eq!(auto_title("\nsecond"), None);
    assert_eq!(auto_title(""), None);
    assert_eq!(auto_title(&"y".repeat(70)).unwrap().len(), 60);
}

#[test]
fn a_full_history_page_says_more_may_follow() {
    assert_eq!(history_page(&vec![]), (false, 0));
    assert_eq!(history_page(&vec![1, 2, 9]), (false, 9));
    let full: Vec<i64> = (1..=2000).collect();
    assert_eq!(history_page(&full), (true, 2000));
}

#[test]
fn internal_failures_keep_their_detail() {
    let e = AdminError::Database("connection refused at 10.0.0.5".into());
    assert_eq!(e.status(), 500);
    assert_eq!(e.public_message(), "Internal server error");
    assert_eq!(e.detail(), "Database error: connection refused at 10.0.0.5");
    assert_eq!(AdminError::Crypto("k".into()).public_message(), "Internal configuration error");
    assert_eq!(AdminError::Upstream("x".into()).status(), 502);
    assert_eq!(AdminError::Unauthenticated("bad jwt".into()).public_message(), "Unauthorized");
    assert_eq!(AdminError::RateLimited("slow down".into()).public_message(), "slow down");
    assert_eq!(AdminError::BridgeRepo { status: 409, public: "taken".into() }.status(), 409);
}

#[test]
fn the_hub_exchange_runs_in_order() {
    let no_session = HubReply { mcp_session_id: None, payload: None };
    assert!(matches!(hub_step(HubRequest::Initialize, None, no_session), HubStep::Failed(m) if m == "hub did not issue an mcp-session-id"));
    let with_session = HubReply { mcp_session_id: Some("s1".into()), payload: None };
    assert!(matches!(hub_step(HubRequest::Initialize, None, with_session), HubStep::Send { request: HubRequest::Initialized, session } if session == "s1"));
    let held = "s1".to_string();
    let ack = HubReply { mcp_session_id: None, payload: None };
    assert!(matches!(hub_step(HubRequest::Initialized, Some(&held), ack), HubStep::Send { request: HubRequest::CallTool, .. }));
    let empty = HubReply { mcp_session_id: None, payload: None };
    assert!(matches!(hub_step(HubRequest::CallTool, Some(&held), empty), HubStep::Failed(m) if m == "hub returned no JSON-RPC frame"));
    let answered = HubReply {
        mcp_session_id: None,
        payload: Some(McpResponseFrame {
            result: Some(McpToolResult {
                content: vec![McpContentItem { text: Some("ok".into()) }],
                is_error: false,
                structured_content: None,
            }),
            error: None,
        }),
    };
    assert!(matches!(hub_step(HubRequest::CallTool, Some(&held), answered), HubStep::Done(r) if r.text == "ok" && r.ok));
    let headers = hub_headers("tok", "u", "s", "t", Some("m"));
    assert_eq!(headers[2], ("authorization".to_string(), "Bearer tok".to_string()));
    assert_eq!(headers.len(), 8);
    assert_eq!(headers[7], ("mcp-session-id".to_string(), "m".to_string()));
    assert_eq!(hub_headers("tok", "u", "s", "t", None).len(), 7);
}

#[test]
fn only_the_newest_user_turn_is_scanned() {
    let msgs = vec![
        Message { from_user: true, parts: vec![Some("old sk-secret".into())] },
        Message { from_user: false, parts: vec![Some("[tool_use:x]".into())] },
        Message { from_user: true, parts: vec![Some("a".into()), None, Some("b".into())] },
        Message { from_user: false, parts: vec![Some("reply".into())] },
    ];
    assert_eq!(newest_user_text(&msgs), "a\nb\n");
    assert_eq!(newest_user_text(&vec![]), "");
    assert!(findings("request", None).is_empty());
    let f = findings("response", Some("sk-…".into()));
    assert_eq!((f[0].phase, f[0].category.as_str(), f[0].scanner), ("response", "secret", "secrets"));
    assert_eq!(SecretsScanner::new().name(), "secrets");
}

#[test]
fn small_page_rules_hold() {
    assert_eq!(post_login_redirect(false, false), "/admin/pending");
    assert_eq!(post_login_redirect(true, false), "/");
    assert_eq!(post_login_redirect(false, true), "/");
    assert_eq!(gateway_url(Some("https"), Some("demo.example")), "https://demo.example");
    assert_eq!(gateway_url(None, None), "http://localhost:8080");
    assert_eq!(pat_name("c1"), "pi-conversation c1");
    assert_eq!(pat_names_to_keep(&vec!["a".into(), "b".into()]), vec!["pi-conversation a", "pi-conversation b"]);
}

fn shown(p: PendingPage) -> Option<(String, String)> {
    match p {
        PendingPage::Show { display_name, company } => Some((display_name, company)),
        PendingPage::Redirect(_) => None,
    }
}

#[test]
fn the_pending_page_shows_the_application_or_sends_approved_users_home() {
    assert!(matches!(pending_page(true, false, "ann", None), PendingPage::Redirect("/")));
    assert!(matches!(pending_page(false, true, "ann", None), PendingPage::Redirect("/")));
    assert_eq!(
        shown(pending_page(false, false, "ann", Some(("Ann Lee".into(), "Acme".into())))),
        Some(("Ann Lee".to_string(), "Acme".to_string()))
    );
    assert_eq!(shown(pending_page(false, false, "ann", None)), Some(("ann".to_string(), String::new())));
    assert_eq!(register_redirect(true), Some("/admin/continue"));
    assert_eq!(register_redirect(false), None);
}

#[test]
fn the_page_face_of_an_error_agrees_with_the_api_face() {
    let e = AdminError::internal("pool timed out".into());
    assert_eq!(e.status(), 500);
    assert_eq!(e.public_message(), "Internal server error");
    assert_eq!(e.detail(), "Internal error: pool timed out");
    let u = AdminError::unauthenticated("bad cookie".into());
    assert_eq!(u.status(), 401);
    assert_eq!(u.public_message(), "Unauthorized");
    let page = AdminHtmlError::internal("template missing".into());
    assert_eq!(page.status(), 500);
    assert_eq!(page.public_message(), "Internal server error");
    let page = AdminHtmlError(AdminError::NotFound("no such page".into()));
    assert_eq!(page.status(), 404);
    assert_eq!(page.public_message(), "no such page");
}
