use web_admin::json::Json;
use web_admin::gate::{
    cleared_policies, gate_action, gate_step, GateFrame, outcome_label, wait_step, GateStep, HumanOutcome, PayloadKind,
    PolicyStage, StageOutcome, StageResult, Verdict, WaitEvent, WaitStep,
};

#[test]
fn a_stage_carries_the_policys_own_wording() {
    let stage = PolicyStage::from_outcome(&StageOutcome {
        policy: "secret_scan".to_owned(),
        result: StageResult::Fail,
        detail: "matched anthropic_api_key".to_owned(),
    });
    assert_eq!(stage.result, "fail");
    assert_eq!(stage.detail, "matched anthropic_api_key");
}

#[test]
fn skip_survives_as_itself() {
    let stage = PolicyStage::from_outcome(&StageOutcome {
        policy: "rate_limit".to_owned(),
        result: StageResult::Skip,
        detail: "not reached".to_owned(),
    });
    assert_eq!(stage.result, "skip");
}

#[test]
fn only_passed_stages_are_cleared_and_scope_comes_last() {
    let stages = vec![
        StageOutcome { policy: "a".into(), result: StageResult::Pass, detail: String::new() },
        StageOutcome { policy: "b".into(), result: StageResult::Skip, detail: String::new() },
        StageOutcome { policy: "c".into(), result: StageResult::Pass, detail: String::new() },
    ];
    assert_eq!(cleared_policies(&stages), vec!["a", "c", "workspace_scope"]);
}

#[test]
fn policy_is_asked_before_a_person() {
    assert_eq!(gate_step(PayloadKind::Tool, false, true, true), GateStep::DenyByPolicy);
    assert_eq!(gate_step(PayloadKind::Tool, true, true, true), GateStep::DenyByScope);
    assert_eq!(gate_step(PayloadKind::Prompt, true, false, true), GateStep::Allow);
    assert_eq!(gate_step(PayloadKind::Tool, true, false, false), GateStep::AutoAllow);
    assert_eq!(gate_step(PayloadKind::Tool, true, false, true), GateStep::AskHuman);
}

#[test]
fn only_an_approval_lets_a_call_through() {
    assert!(HumanOutcome::Approved.allowed());
    assert!(!HumanOutcome::Denied.allowed());
    assert!(!HumanOutcome::TimedOut.allowed());
    assert!(!HumanOutcome::Abandoned.allowed());
    assert_eq!(outcome_label(HumanOutcome::TimedOut), "timeout");
    assert_eq!(
        wait_step(None, WaitEvent::Answer(Some(Verdict::Allow))),
        WaitStep::Done(HumanOutcome::Approved)
    );
    assert_eq!(wait_step(None, WaitEvent::Deadline), WaitStep::Done(HumanOutcome::TimedOut));
    assert_eq!(wait_step(None, WaitEvent::Answer(None)), WaitStep::Done(HumanOutcome::Abandoned));
}

#[test]
fn an_unwatched_card_is_abandoned_after_the_grace() {
    let first = wait_step(None, WaitEvent::ViewerCheck { has_viewers: false, now_ms: 1_000 });
    assert_eq!(first, WaitStep::Continue(Some(1_000)));
    let later = wait_step(Some(1_000), WaitEvent::ViewerCheck { has_viewers: false, now_ms: 15_999 });
    assert_eq!(later, WaitStep::Continue(Some(1_000)));
    let gone = wait_step(Some(1_000), WaitEvent::ViewerCheck { has_viewers: false, now_ms: 16_000 });
    assert_eq!(gone, WaitStep::Done(HumanOutcome::Abandoned));
    let back = wait_step(Some(1_000), WaitEvent::ViewerCheck { has_viewers: true, now_ms: 16_000 });
    assert_eq!(back, WaitStep::Continue(None));
}

fn stages() -> Vec<StageOutcome> {
    vec![
        StageOutcome { policy: "scope_check".into(), result: StageResult::Pass, detail: String::new() },
        StageOutcome { policy: "secret_scan".into(), result: StageResult::Skip, detail: String::new() },
    ]
}

#[test]
fn a_policy_refusal_shows_the_card_for_its_kind() {
    let f = gate_action(GateStep::DenyByPolicy, PayloadKind::Prompt, None, "prompt".into(), None, None, Some("p1".into()), "", &stages());
    assert!(matches!(f, Some(GateFrame::PromptBlocked { ref reason, ref policy }) if reason == "[GOVERNANCE] denied" && policy.as_deref() == Some("p1")));
    let f = gate_action(
        GateStep::DenyByPolicy,
        PayloadKind::Tool,
        Some("t1".into()),
        "read".into(),
        None,
        Some("blocked by tool_blocklist".into()),
        Some("tool_blocklist".into()),
        "",
        &stages(),
    );
    match f {
        Some(GateFrame::ToolBlocked { tool_use_id, tool_name, reason, policy }) => {
            assert_eq!(tool_use_id.as_deref(), Some("t1"));
            assert_eq!(tool_name, "read");
            assert_eq!(reason, "blocked by tool_blocklist");
            assert_eq!(policy.as_deref(), Some("tool_blocklist"));
        },
        _ => panic!("expected a ToolBlocked frame"),
    }
}

#[test]
fn a_scope_refusal_and_an_auto_approval_name_their_frames() {
    let f = gate_action(GateStep::DenyByScope, PayloadKind::Tool, None, "read".into(), None, None, None, "path `/etc` is outside the session workspace", &stages());
    match f {
        Some(GateFrame::ToolBlocked { reason, policy, .. }) => {
            assert_eq!(reason, "[GOVERNANCE] path `/etc` is outside the session workspace");
            assert_eq!(policy.as_deref(), Some("workspace_scope"));
        },
        _ => panic!("expected a ToolBlocked frame"),
    }
    let f = gate_action(GateStep::AutoAllow, PayloadKind::Tool, None, "read".into(), None, None, None, "", &stages());
    match f {
        Some(GateFrame::ApprovalAuto { tool_name, tool_input, policy_chain }) => {
            assert_eq!(tool_name, "read");
            assert!(matches!(tool_input, Json::Null));
            assert_eq!(policy_chain, vec!["scope_check".to_string(), "workspace_scope".to_string()]);
        },
        _ => panic!("expected an ApprovalAuto frame"),
    }
    assert!(gate_action(GateStep::Allow, PayloadKind::Prompt, None, "p".into(), None, None, None, "", &stages()).is_none());
    assert!(gate_action(GateStep::AskHuman, PayloadKind::Tool, None, "read".into(), None, None, None, "", &stages()).is_none());
}
