//! The audit report behind the terminal's rail: its rows, its transcript and
//! the digest that seals it.
//!
//! The trace timeline proves what policy decided; the transcript shows what
//! the human asked and what the model said back. The integrity digest is a
//! SHA-256 over the exact view data rendered beside it, keyed to the attested
//! session: re-fetch the page, re-hash what it shows, and a changed digest
//! means changed evidence. Reading the rows and writing the view data out as
//! JSON are the caller's; the shaping and the digest are here.
use vstd::prelude::*;

use crate::codec::{hex_lower, sha256, sha256_digest, to_hex_lower};
use crate::json::{get, get_spec, Json};
use crate::text::{chars_of, is_blank, trim_bounds};

verus! {

/// Whether an outcome is a refusal, which the timeline marks.
pub open spec fn is_denied_spec(outcome: Seq<char>) -> bool {
    outcome == "deny"@ || outcome == "denied"@ || outcome == "failed"@ || outcome == "rejected"@
}

fn same_text(a: &Vec<char>, lit: &str) -> (b: bool)
    ensures
        b == (a@ == lit@),
{
    let l = chars_of(lit);
    crate::text::chars_eq(a, &l)
}

/// Whether an outcome is a refusal.
pub fn is_denied(outcome: &str) -> (b: bool)
    ensures
        b == is_denied_spec(outcome@),
{
    let o = chars_of(outcome);
    same_text(&o, "deny") || same_text(&o, "denied") || same_text(&o, "failed") || same_text(
        &o,
        "rejected",
    )
}

/// How many of the outcomes are refusals.
pub open spec fn denial_count(outcomes: Seq<String>) -> nat
    decreases outcomes.len(),
{
    if outcomes.len() == 0 {
        0
    } else {
        denial_count(outcomes.drop_last()) + (if is_denied_spec(outcomes.last()@) {
            1nat
        } else {
            0nat
        })
    }
}

proof fn lemma_denial_count_bound(outcomes: Seq<String>)
    ensures
        denial_count(outcomes) <= outcomes.len(),
    decreases outcomes.len(),
{
    if outcomes.len() > 0 {
        lemma_denial_count_bound(outcomes.drop_last());
    }
}

/// The number of refused rows, for the report's summary.
pub fn denials(outcomes: &Vec<String>) -> (n: usize)
    ensures
        n == denial_count(outcomes@),
{
    let mut n: usize = 0;
    let mut i: usize = 0;
    while i < outcomes.len()
        invariant
            i <= outcomes.len(),
            n == denial_count(outcomes@.take(i as int)),
        decreases outcomes.len() - i,
    {
        proof {
            assert(outcomes@.take(i + 1).drop_last() =~= outcomes@.take(i as int));
            lemma_denial_count_bound(outcomes@.take(i as int));
        }
        if is_denied(outcomes[i].as_str()) {
            n = n + 1;
        }
        i = i + 1;
    }
    assert(outcomes@.take(outcomes.len() as int) =~= outcomes@);
    n
}

/// The string under `key`, or empty when there is none.
pub open spec fn text_or_empty(v: Json, key: Seq<char>) -> Seq<char> {
    match get_spec(v, key) {
        Some(Json::Str(s)) => s@,
        _ => Seq::empty(),
    }
}

fn text_at(v: &Json, key: &str) -> (s: String)
    ensures
        s@ == text_or_empty(*v, key@),
{
    match get(v, key) {
        Some(Json::Str(s)) => s.clone(),
        _ => String::new(),
    }
}

/// The wording of one stage of a recorded chain.
pub struct StageText {
    pub policy: String,
    pub result: String,
    pub detail: String,
}

pub open spec fn stage_text_matches(s: StageText, entry: Json) -> bool {
    &&& s.policy@ == text_or_empty(entry, "policy_id"@)
    &&& s.result@ == text_or_empty(entry, "result"@)
    &&& s.detail@ == text_or_empty(entry, "detail"@)
}

/// The entries of the recorded chain: the array under `chain`, or none.
pub open spec fn chain_of(rules: Json) -> Seq<Json> {
    match get_spec(rules, "chain"@) {
        Some(Json::Array(items)) => items@,
        _ => seq![],
    }
}

/// Each recorded stage's policy, result and detail, in chain order.
pub fn stage_texts(rules: &Json) -> (out: Vec<StageText>)
    ensures
        out.len() == chain_of(*rules).len(),
        forall|i: int| 0 <= i < out.len() ==> stage_text_matches(#[trigger] out@[i], chain_of(*rules)[i]),
{
    let mut out: Vec<StageText> = Vec::new();
    match get(rules, "chain") {
        Some(Json::Array(items)) => {
            let mut i: usize = 0;
            while i < items.len()
                invariant
                    i <= items.len(),
                    items@ == chain_of(*rules),
                    out.len() == i,
                    forall|k: int| 0 <= k < i ==> stage_text_matches(#[trigger] out@[k], items@[k]),
                decreases items.len() - i,
            {
                let e = &items[i];
                out.push(
                    StageText {
                        policy: text_at(e, "policy_id"),
                        result: text_at(e, "result"),
                        detail: text_at(e, "detail"),
                    },
                );
                i = i + 1;
            }
            out
        },
        _ => out,
    }
}

/// Who answered an approval card, as recorded; the decision time is left
/// as written for the caller to render.
pub struct ApproverText {
    pub name: String,
    pub action: String,
    pub user_id: String,
    pub decided_at: Option<String>,
}

/// The approver's record, when the rules hold one.
pub open spec fn approver_matches(a: Option<ApproverText>, rules: Json) -> bool {
    match get_spec(rules, "approver"@) {
        None => a is None,
        Some(ap) => match a {
            None => false,
            Some(t) => {
                &&& t.name@ == text_or_empty(ap, "username"@)
                &&& t.action@ == text_or_empty(ap, "action"@)
                &&& t.user_id@ == text_or_empty(ap, "user_id"@)
                &&& match get_spec(ap, "decided_at"@) {
                    Some(Json::Str(s)) => t.decided_at matches Some(d) && d@ == s@,
                    _ => t.decided_at is None,
                }
            },
        },
    }
}

/// The approver of a recorded call, if a person answered it.
pub fn approver_text(rules: &Json) -> (a: Option<ApproverText>)
    ensures
        approver_matches(a, *rules),
{
    match get(rules, "approver") {
        None => None,
        Some(ap) => {
            let decided_at = match get(ap, "decided_at") {
                Some(Json::Str(s)) => Some(s.clone()),
                _ => None,
            };
            Some(
                ApproverText {
                    name: text_at(ap, "username"),
                    action: text_at(ap, "action"),
                    user_id: text_at(ap, "user_id"),
                    decided_at,
                },
            )
        },
    }
}

/// One stored transcript message.
pub struct TranscriptMessage {
    pub kind: String,
    pub text: String,
    /// When it was said, already rendered for display.
    pub at: String,
}

/// One message of the report's transcript.
pub struct MessageView {
    pub role: &'static str,
    pub text: String,
    pub at: String,
}

pub open spec fn role_of(kind: Seq<char>) -> Seq<char> {
    if kind == "user_message"@ {
        "user"@
    } else {
        "assistant"@
    }
}

/// The messages with something to say, in order.
pub open spec fn spoken(messages: Seq<TranscriptMessage>) -> Seq<TranscriptMessage>
    decreases messages.len(),
{
    if messages.len() == 0 {
        seq![]
    } else {
        let p = spoken(messages.drop_last());
        if is_blank(messages.last().text@) {
            p
        } else {
            p.push(messages.last())
        }
    }
}

pub open spec fn view_matches(v: MessageView, m: TranscriptMessage) -> bool {
    v.role@ == role_of(m.kind@) && v.text@ == m.text@ && v.at@ == m.at@
}

/// The transcript as the report shows it: blank messages dropped, each
/// labelled as the user's or the assistant's.
pub fn message_views(messages: &Vec<TranscriptMessage>) -> (out: Vec<MessageView>)
    ensures
        out.len() == spoken(messages@).len(),
        forall|i: int| 0 <= i < out.len() ==> view_matches(#[trigger] out@[i], spoken(messages@)[i]),
{
    let mut out: Vec<MessageView> = Vec::new();
    let mut i: usize = 0;
    while i < messages.len()
        invariant
            i <= messages.len(),
            out.len() == spoken(messages@.take(i as int)).len(),
            forall|k: int|
                0 <= k < out.len() ==> view_matches(#[trigger] out@[k], spoken(messages@.take(i as int))[k]),
        decreases messages.len() - i,
    {
        proof {
            assert(messages@.take(i + 1).drop_last() =~= messages@.take(i as int));
            assert(messages@.take(i + 1).last() == messages@[i as int]);
        }
        let m = &messages[i];
        let cs = chars_of(m.text.as_str());
        let (a, b) = trim_bounds(&cs);
        if a != b {
            let k = chars_of(m.kind.as_str());
            let role: &'static str = if same_text(&k, "user_message") {
                "user"
            } else {
                "assistant"
            };
            out.push(MessageView { role, text: m.text.clone(), at: m.at.clone() });
        }
        i = i + 1;
    }
    assert(messages@.take(messages.len() as int) =~= messages@);
    out
}

/// The digest that seals a report: lowercase hex of the SHA-256 of the
/// attested payload's bytes.
pub fn integrity_digest(payload: &[u8]) -> (out: String)
    ensures
        out@ == hex_lower(sha256(payload@)),
{
    let d = sha256_digest(payload);
    to_hex_lower(&d)
}

/// An artifact a conversation produced, as the report links it.
pub struct ArtifactView {
    /// Where the terminal's viewer renders it.
    pub ui_href: String,
    pub title: String,
    pub artifact_type: String,
    pub server_name: String,
}

/// An artifact's entry in the report: linked to the viewer route for its id,
/// titled by its own title or, when it has none, by the server that made it.
pub fn artifact_view(artifact_id: &str, title: Option<String>, artifact_type: String, server_name: String) -> (v:
    ArtifactView)
    ensures
        v.ui_href@ == "/api/public/pi/artifacts/"@ + artifact_id@ + "/ui"@,
        v.title@ == (match title {
            Some(t) => t@,
            None => server_name@,
        }),
        v.artifact_type@ == artifact_type@,
        v.server_name@ == server_name@,
{
    let mut ui_href = String::from_str("/api/public/pi/artifacts/");
    ui_href.append(artifact_id);
    ui_href.append("/ui");
    let title = match title {
        Some(t) => t,
        None => server_name.clone(),
    };
    ArtifactView { ui_href, title, artifact_type, server_name }
}

} // verus!
