//! The governance gate: what happens between pi asking and pi being answered.
//!
//! Order is not negotiable: **policy first, human second.** A person is never
//! offered the chance to override a policy denial — policy is a floor, and a
//! person can only be more restrictive than it. Every path through a human
//! other than an explicit approval denies.
//!
//! The policy engine, the audit writes and the waiting itself are the
//! caller's; what lives here is each decision, as a function from what has
//! been learned so far to what happens next.
use vstd::prelude::*;

verus! {

/// The policy under which a path confinement refusal is recorded.
pub const WORKSPACE_SCOPE: &'static str = "workspace_scope";

/// What the shim is asking about.
#[derive(PartialEq, Eq, Structural, Clone, Copy, Debug)]
pub enum PayloadKind {
    Prompt,
    Tool,
}

/// How one policy stage came out.
#[derive(PartialEq, Eq, Structural, Clone, Copy, Debug)]
pub enum StageResult {
    Pass,
    Fail,
    Skip,
}

/// One stage of the governance chain's evaluation.
pub struct StageOutcome {
    pub policy: String,
    pub result: StageResult,
    pub detail: String,
}

/// One policy stage, as the browser sees it: `pass`, `fail` or `skip` — skip
/// is its own state so a policy that never ran is not shown as cleared.
pub struct PolicyStage {
    pub policy: String,
    pub result: &'static str,
    pub detail: String,
}

pub open spec fn result_label(r: StageResult) -> Seq<char> {
    match r {
        StageResult::Pass => "pass"@,
        StageResult::Fail => "fail"@,
        StageResult::Skip => "skip"@,
    }
}

impl PolicyStage {
    /// The browser's view of a stage: the policy's own name and wording,
    /// verbatim, with its result as a label.
    pub fn from_outcome(outcome: &StageOutcome) -> (s: PolicyStage)
        ensures
            s.policy@ == outcome.policy@,
            s.result@ == result_label(outcome.result),
            s.detail@ == outcome.detail@,
    {
        PolicyStage {
            policy: outcome.policy.clone(),
            result: match outcome.result {
                StageResult::Pass => "pass",
                StageResult::Fail => "fail",
                StageResult::Skip => "skip",
            },
            detail: outcome.detail.clone(),
        }
    }
}

/// The policies that passed, in evaluation order, then the workspace scope
/// check that cleared the call after them.
pub open spec fn cleared_spec(stages: Seq<StageOutcome>) -> Seq<Seq<char>>
    decreases stages.len(),
{
    if stages.len() == 0 {
        seq!["workspace_scope"@]
    } else {
        let p = cleared_spec(stages.drop_last());
        if stages.last().result == StageResult::Pass {
            p.drop_last().push(stages.last().policy@).push("workspace_scope"@)
        } else {
            p
        }
    }
}

proof fn lemma_cleared_ends_with_scope(stages: Seq<StageOutcome>)
    ensures
        cleared_spec(stages).len() >= 1,
        cleared_spec(stages).last() == "workspace_scope"@,
    decreases stages.len(),
{
    if stages.len() > 0 {
        lemma_cleared_ends_with_scope(stages.drop_last());
    }
}

/// The policy chain an approval card and an auto-approval show: what
/// actually passed, never what was merely expected to run.
pub fn cleared_policies(stages: &Vec<StageOutcome>) -> (out: Vec<String>)
    ensures
        out.len() == cleared_spec(stages@).len(),
        forall|i: int| 0 <= i < out.len() ==> #[trigger] out[i]@ == cleared_spec(stages@)[i],
{
    let mut passed: Vec<String> = Vec::new();
    let mut i: usize = 0;
    assert(stages@.take(0) =~= Seq::<StageOutcome>::empty());
    while i < stages.len()
        invariant
            i <= stages.len(),
            passed.len() + 1 == cleared_spec(stages@.take(i as int)).len(),
            forall|k: int|
                0 <= k < passed.len() ==> #[trigger] passed[k]@ == cleared_spec(
                    stages@.take(i as int),
                )[k],
        decreases stages.len() - i,
    {
        proof {
            let t = stages@.take(i + 1);
            assert(t.drop_last() =~= stages@.take(i as int));
            assert(t.last() == stages@[i as int]);
            lemma_cleared_ends_with_scope(stages@.take(i as int));
        }
        if stages[i].result == StageResult::Pass {
            passed.push(stages[i].policy.clone());
        }
        i = i + 1;
    }
    passed.push(String::from_str(WORKSPACE_SCOPE));
    proof {
        lemma_cleared_ends_with_scope(stages@.take(stages.len() as int));
        reveal_strlit("workspace_scope");
    }
    assert(stages@.take(stages.len() as int) =~= stages@);
    passed
}

/// The name a call is governed under: the prompt pseudo-tool for a prompt,
/// otherwise the tool's own name, or `unknown` when the shim sent none.
pub open spec fn governed_name_spec(
    kind: PayloadKind,
    tool_name: Option<Seq<char>>,
    prompt_tool_name: Seq<char>,
) -> Seq<char> {
    match kind {
        PayloadKind::Prompt => prompt_tool_name,
        PayloadKind::Tool => match tool_name {
            Some(n) => n,
            None => "unknown"@,
        },
    }
}

pub fn governed_tool_name(kind: PayloadKind, tool_name: Option<&str>, prompt_tool_name: &str) -> (out:
    String)
    ensures
        out@ == governed_name_spec(
            kind,
            match tool_name {
                Some(n) => Some(n@),
                None => None,
            },
            prompt_tool_name@,
        ),
{
    match kind {
        PayloadKind::Prompt => String::from_str(prompt_tool_name),
        PayloadKind::Tool => match tool_name {
            Some(n) => String::from_str(n),
            None => String::from_str("unknown"),
        },
    }
}

/// What the policy chain judges a request on: a prompt as `{"prompt": …}`,
/// a tool call as its own input.
pub fn governed_input(kind: PayloadKind, prompt: Option<&String>, tool_input: Option<crate::json::Json>) -> (r: Option<
    crate::json::Json,
>)
    ensures
        kind == PayloadKind::Tool ==> r == tool_input,
        kind == PayloadKind::Prompt ==> match prompt {
            Some(p) => r matches Some(crate::json::Json::Object(entries)) && entries@.len() == 1
                && entries@[0].0@ == "prompt"@ && entries@[0].1 == crate::json::Json::Str(*p),
            None => r is None,
        },
{
    match kind {
        PayloadKind::Prompt => match prompt {
            Some(p) => {
                let mut entries: Vec<(String, crate::json::Json)> = Vec::new();
                entries.push((String::from_str("prompt"), crate::json::Json::Str(p.clone())));
                Some(crate::json::Json::Object(entries))
            },
            None => None,
        },
        PayloadKind::Tool => tool_input,
    }
}

/// The reason a refused call is shown with: the policy's own, or a fixed one
/// when it gave none.
pub fn denial_reason(reason: Option<String>) -> (r: String)
    ensures
        r@ == match reason {
            Some(m) => m@,
            None => "[GOVERNANCE] denied"@,
        },
{
    match reason {
        Some(m) => m,
        None => String::from_str("[GOVERNANCE] denied"),
    }
}

/// The reason a call refused by the workspace confinement is shown with.
pub fn scope_denial_reason(detail: &str) -> (r: String)
    ensures
        r@ == "[GOVERNANCE] "@ + detail@,
{
    let mut r = String::from_str("[GOVERNANCE] ");
    r.append(detail);
    r
}

/// Whether a policy-cleared tool call is put to a person. With a read-only
/// tool set nothing is on a dangerous list, so it is everything or nothing.
pub fn needs_human(approve_all: bool, tool_name: &str) -> (b: bool)
    ensures
        b == approve_all,
{
    approve_all
}

/// What happens to a call once policy has spoken.
#[derive(PartialEq, Eq, Structural, Clone, Copy, Debug)]
pub enum GateStep {
    /// The chain refused it; the denial is shown with the policy's reason.
    DenyByPolicy,
    /// A path argument leaves the workspace; refused under `workspace_scope`.
    DenyByScope,
    /// Allowed with nothing more to ask: a prompt that policy cleared.
    Allow,
    /// Allowed by policy alone, with the chain shown as an auto-approval.
    AutoAllow,
    /// Put to a person.
    AskHuman,
}

pub open spec fn gate_step_spec(
    kind: PayloadKind,
    policy_allowed: bool,
    escapes_workspace: bool,
    approve_all: bool,
) -> GateStep {
    if !policy_allowed {
        GateStep::DenyByPolicy
    } else if kind == PayloadKind::Tool && escapes_workspace {
        GateStep::DenyByScope
    } else if kind == PayloadKind::Prompt {
        GateStep::Allow
    } else if !approve_all {
        GateStep::AutoAllow
    } else {
        GateStep::AskHuman
    }
}

/// The decision after the policy verdict, the confinement check and
/// the configuration are known.
pub fn gate_step(
    kind: PayloadKind,
    policy_allowed: bool,
    escapes_workspace: bool,
    approve_all: bool,
) -> (s: GateStep)
    ensures
        s == gate_step_spec(kind, policy_allowed, escapes_workspace, approve_all),
{
    if !policy_allowed {
        GateStep::DenyByPolicy
    } else if kind == PayloadKind::Tool && escapes_workspace {
        GateStep::DenyByScope
    } else if kind == PayloadKind::Prompt {
        GateStep::Allow
    } else if !needs_human(approve_all, "") {
        GateStep::AutoAllow
    } else {
        GateStep::AskHuman
    }
}

/// How a question put to a person ended.
#[derive(PartialEq, Eq, Structural, Clone, Copy, Debug)]
pub enum HumanOutcome {
    Approved,
    Denied,
    TimedOut,
    Abandoned,
}

impl HumanOutcome {
    /// Only an explicit approval lets the call through.
    pub fn allowed(&self) -> (b: bool)
        ensures
            b == (*self == HumanOutcome::Approved),
    {
        match self {
            HumanOutcome::Approved => true,
            _ => false,
        }
    }
}

pub open spec fn outcome_label_spec(o: HumanOutcome) -> Seq<char> {
    match o {
        HumanOutcome::Approved => "approved"@,
        HumanOutcome::Denied => "denied"@,
        HumanOutcome::TimedOut => "timeout"@,
        HumanOutcome::Abandoned => "abandoned"@,
    }
}

/// The outcome as the approval-resolved frame names it.
pub fn outcome_label(outcome: HumanOutcome) -> (s: &'static str)
    ensures
        s@ == outcome_label_spec(outcome),
{
    match outcome {
        HumanOutcome::Approved => "approved",
        HumanOutcome::Denied => "denied",
        HumanOutcome::TimedOut => "timeout",
        HumanOutcome::Abandoned => "abandoned",
    }
}

/// A person's answer to an approval card.
#[derive(PartialEq, Eq, Structural, Clone, Copy, Debug)]
pub enum Verdict {
    Allow,
    Deny,
}

/// Something that happens while an approval is outstanding.
#[derive(PartialEq, Eq, Structural, Clone, Copy, Debug)]
pub enum WaitEvent {
    /// The card was answered; `None` when the answering side went away
    /// because the session is being torn down.
    Answer(Option<Verdict>),
    /// The approval timeout elapsed.
    Deadline,
    /// The periodic viewer check, at `now_ms`.
    ViewerCheck { has_viewers: bool, now_ms: u64 },
}

/// Where the wait goes next.
#[derive(PartialEq, Eq, Structural, Clone, Copy, Debug)]
pub enum WaitStep {
    /// Keep waiting; carries when the viewers were first seen gone, if they are.
    Continue(Option<u64>),
    /// The wait is over.
    Done(HumanOutcome),
}

/// How long every viewer must be gone before an approval is abandoned.
pub const ABANDON_GRACE_MS: u64 = 15_000;

pub open spec fn wait_step_spec(viewerless_since: Option<u64>, event: WaitEvent) -> WaitStep {
    match event {
        WaitEvent::Answer(Some(Verdict::Allow)) => WaitStep::Done(HumanOutcome::Approved),
        WaitEvent::Answer(Some(Verdict::Deny)) => WaitStep::Done(HumanOutcome::Denied),
        WaitEvent::Answer(None) => WaitStep::Done(HumanOutcome::Abandoned),
        WaitEvent::Deadline => WaitStep::Done(HumanOutcome::TimedOut),
        WaitEvent::ViewerCheck { has_viewers, now_ms } => if has_viewers {
            WaitStep::Continue(None)
        } else {
            let since = match viewerless_since {
                Some(t) => t,
                None => now_ms,
            };
            if now_ms >= since && now_ms - since >= ABANDON_GRACE_MS {
                WaitStep::Done(HumanOutcome::Abandoned)
            } else {
                WaitStep::Continue(Some(since))
            }
        },
    }
}

/// One step of waiting on a person. An answer that arrives together with the
/// deadline is the caller's to deliver first, so it is honoured.
pub fn wait_step(viewerless_since: Option<u64>, event: WaitEvent) -> (s: WaitStep)
    ensures
        s == wait_step_spec(viewerless_since, event),
{
    match event {
        WaitEvent::Answer(Some(Verdict::Allow)) => WaitStep::Done(HumanOutcome::Approved),
        WaitEvent::Answer(Some(Verdict::Deny)) => WaitStep::Done(HumanOutcome::Denied),
        WaitEvent::Answer(None) => WaitStep::Done(HumanOutcome::Abandoned),
        WaitEvent::Deadline => WaitStep::Done(HumanOutcome::TimedOut),
        WaitEvent::ViewerCheck { has_viewers, now_ms } => {
            if has_viewers {
                WaitStep::Continue(None)
            } else {
                let since = match viewerless_since {
                    Some(t) => t,
                    None => now_ms,
                };
                if now_ms >= since && now_ms - since >= ABANDON_GRACE_MS {
                    WaitStep::Done(HumanOutcome::Abandoned)
                } else {
                    WaitStep::Continue(Some(since))
                }
            }
        },
    }
}

/// The outcome a sequence of wait events leads to, if it ends.
pub open spec fn run_wait(since: Option<u64>, events: Seq<WaitEvent>) -> Option<HumanOutcome>
    decreases events.len(),
{
    if events.len() == 0 {
        None
    } else {
        match wait_step_spec(since, events[0]) {
            WaitStep::Done(o) => Some(o),
            WaitStep::Continue(s) => run_wait(s, events.drop_first()),
        }
    }
}

/// The answer written back to pi for a call that reached a person.
pub open spec fn answer_after_human(o: HumanOutcome) -> bool {
    o == HumanOutcome::Approved
}

/// Whether the call runs, given the step taken and, when a person was asked,
/// how that ended.
pub open spec fn final_answer(step: GateStep, human: Option<HumanOutcome>) -> bool {
    match step {
        GateStep::DenyByPolicy | GateStep::DenyByScope => false,
        GateStep::Allow | GateStep::AutoAllow => true,
        GateStep::AskHuman => match human {
            Some(o) => answer_after_human(o),
            None => false,
        },
    }
}

/// Policy is a floor: whatever a person says, and however the wait ends, a
/// call the policy chain refused never runs, and a call refused by the
/// workspace scope check never runs.
pub proof fn law_policy_before_person(
    kind: PayloadKind,
    policy_allowed: bool,
    escapes_workspace: bool,
    approve_all: bool,
    events: Seq<WaitEvent>,
)
    ensures
        final_answer(
            gate_step_spec(kind, policy_allowed, escapes_workspace, approve_all),
            run_wait(None, events),
        ) ==> policy_allowed && !(kind == PayloadKind::Tool && escapes_workspace),
{
}

/// A wait that ends approved had an explicit approval in it: time-outs,
/// departed viewers and a torn-down session all deny.
pub proof fn law_only_an_answer_approves(since: Option<u64>, events: Seq<WaitEvent>)
    ensures
        run_wait(since, events) == Some(HumanOutcome::Approved) ==> exists|i: int|
            0 <= i < events.len() && #[trigger] events[i] == WaitEvent::Answer(Some(Verdict::Allow)),
    decreases events.len(),
{
    if events.len() > 0 {
        match wait_step_spec(since, events[0]) {
            WaitStep::Done(o) => {
                if o == HumanOutcome::Approved {
                    assert(events[0] == WaitEvent::Answer(Some(Verdict::Allow)));
                }
            },
            WaitStep::Continue(s) => {
                law_only_an_answer_approves(s, events.drop_first());
                if run_wait(since, events) == Some(HumanOutcome::Approved) {
                    let i = choose|i: int|
                        0 <= i < events.drop_first().len() && #[trigger] events.drop_first()[i]
                            == WaitEvent::Answer(Some(Verdict::Allow));
                    assert(events[i + 1] == events.drop_first()[i]);
                }
            },
        }
    }
}

/// A frame shown to the widget about a call governance settled itself.
pub enum GateFrame {
    /// A prompt the policy chain refused.
    PromptBlocked { reason: String, policy: Option<String> },
    /// A tool call refused, by a policy or by the workspace scope check.
    ToolBlocked { tool_use_id: Option<String>, tool_name: String, reason: String, policy: Option<String> },
    /// A tool call let through without asking anyone, with the chain that
    /// cleared it.
    ApprovalAuto { tool_name: String, tool_input: crate::json::Json, policy_chain: Vec<String> },
}

/// A gate frame as the contracts see it.
pub enum GateFrameV {
    PromptBlocked { reason: Seq<char>, policy: Option<Seq<char>> },
    ToolBlocked {
        tool_use_id: Option<Seq<char>>,
        tool_name: Seq<char>,
        reason: Seq<char>,
        policy: Option<Seq<char>>,
    },
    ApprovalAuto { tool_name: Seq<char>, tool_input: crate::json::Json, policy_chain: Seq<Seq<char>> },
}

pub open spec fn opt_text(o: Option<String>) -> Option<Seq<char>> {
    match o {
        Some(s) => Some(s@),
        None => None,
    }
}

pub open spec fn texts(v: Seq<String>) -> Seq<Seq<char>> {
    v.map_values(|s: String| s@)
}

pub open spec fn gate_frame_view(f: GateFrame) -> GateFrameV {
    match f {
        GateFrame::PromptBlocked { reason, policy } => GateFrameV::PromptBlocked {
            reason: reason@,
            policy: opt_text(policy),
        },
        GateFrame::ToolBlocked { tool_use_id, tool_name, reason, policy } => GateFrameV::ToolBlocked {
            tool_use_id: opt_text(tool_use_id),
            tool_name: tool_name@,
            reason: reason@,
            policy: opt_text(policy),
        },
        GateFrame::ApprovalAuto { tool_name, tool_input, policy_chain } => GateFrameV::ApprovalAuto {
            tool_name: tool_name@,
            tool_input,
            policy_chain: texts(policy_chain@),
        },
    }
}

/// The frame each step shows. A policy refusal is a `PromptBlocked` for a
/// prompt and a `ToolBlocked` for a tool, carrying the policy's reason (or
/// `[GOVERNANCE] denied`) and the policy that refused; a scope refusal is a
/// `ToolBlocked` under `workspace_scope` carrying `[GOVERNANCE] {detail}`; an
/// auto-allowed tool is one `ApprovalAuto` carrying its input (null when it
/// had none) and the cleared chain. A cleared prompt shows nothing, and a
/// call put to a person shows what the person's wait shows.
pub open spec fn gate_action_spec(
    step: GateStep,
    kind: PayloadKind,
    tool_use_id: Option<Seq<char>>,
    tool_name: Seq<char>,
    tool_input: Option<crate::json::Json>,
    policy_reason: Option<Seq<char>>,
    policy: Option<Seq<char>>,
    scope_detail: Seq<char>,
    stages: Seq<StageOutcome>,
) -> Option<GateFrameV> {
    let reason = match policy_reason {
        Some(m) => m,
        None => "[GOVERNANCE] denied"@,
    };
    match step {
        GateStep::DenyByPolicy => match kind {
            PayloadKind::Prompt => Some(GateFrameV::PromptBlocked { reason, policy }),
            PayloadKind::Tool => Some(GateFrameV::ToolBlocked { tool_use_id, tool_name, reason, policy }),
        },
        GateStep::DenyByScope => Some(
            GateFrameV::ToolBlocked {
                tool_use_id,
                tool_name,
                reason: "[GOVERNANCE] "@ + scope_detail,
                policy: Some("workspace_scope"@),
            },
        ),
        GateStep::AutoAllow => Some(
            GateFrameV::ApprovalAuto {
                tool_name,
                tool_input: match tool_input {
                    Some(j) => j,
                    None => crate::json::Json::Null,
                },
                policy_chain: cleared_spec(stages),
            },
        ),
        GateStep::Allow | GateStep::AskHuman => None,
    }
}

/// The frame emitted for a settled call, if any.
pub fn gate_action(
    step: GateStep,
    kind: PayloadKind,
    tool_use_id: Option<String>,
    tool_name: String,
    tool_input: Option<crate::json::Json>,
    policy_reason: Option<String>,
    policy: Option<String>,
    scope_detail: &str,
    stages: &Vec<StageOutcome>,
) -> (f: Option<GateFrame>)
    ensures
        (match f {
            Some(x) => Some(gate_frame_view(x)),
            None => None,
        }) == gate_action_spec(
            step,
            kind,
            opt_text(tool_use_id),
            tool_name@,
            tool_input,
            opt_text(policy_reason),
            opt_text(policy),
            scope_detail@,
            stages@,
        ),
{
    match step {
        GateStep::DenyByPolicy => {
            let reason = denial_reason(policy_reason);
            match kind {
                PayloadKind::Prompt => Some(GateFrame::PromptBlocked { reason, policy }),
                PayloadKind::Tool => Some(GateFrame::ToolBlocked { tool_use_id, tool_name, reason, policy }),
            }
        },
        GateStep::DenyByScope => {
            let reason = scope_denial_reason(scope_detail);
            let policy = String::from_str(WORKSPACE_SCOPE);
            Some(GateFrame::ToolBlocked { tool_use_id, tool_name, reason, policy: Some(policy) })
        },
        GateStep::AutoAllow => {
            let chain = cleared_policies(stages);
            assert(texts(chain@) =~= cleared_spec(stages@));
            let input = match tool_input {
                Some(j) => j,
                None => crate::json::Json::Null,
            };
            Some(GateFrame::ApprovalAuto { tool_name, tool_input: input, policy_chain: chain })
        },
        GateStep::Allow | GateStep::AskHuman => None,
    }
}

/// A call the policy chain refused is shown as refused, to the kind of card
/// its kind calls for, and never as an approval: no auto-approval is shown
/// and no person is asked.
pub proof fn law_a_policy_refusal_is_shown_as_one(
    kind: PayloadKind,
    escapes_workspace: bool,
    approve_all: bool,
    tool_use_id: Option<Seq<char>>,
    tool_name: Seq<char>,
    tool_input: Option<crate::json::Json>,
    policy_reason: Option<Seq<char>>,
    policy: Option<Seq<char>>,
    scope_detail: Seq<char>,
    stages: Seq<StageOutcome>,
)
    ensures
        ({
            let step = gate_step_spec(kind, false, escapes_workspace, approve_all);
            let f = gate_action_spec(
                step,
                kind,
                tool_use_id,
                tool_name,
                tool_input,
                policy_reason,
                policy,
                scope_detail,
                stages,
            );
            &&& step == GateStep::DenyByPolicy
            &&& kind == PayloadKind::Prompt ==> (f is Some && f->0 is PromptBlocked)
            &&& kind == PayloadKind::Tool ==> (f is Some && f->0 is ToolBlocked)
        }),
{
}

} // verus!
