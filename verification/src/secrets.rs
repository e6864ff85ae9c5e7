//! The gateway's plaintext-credential scanner: what it reads of a request or
//! a response, and what it reports.
//!
//! It judges only the newest user turn of a request. Scanning the whole
//! conversation is a trap for a blocking scanner: a credential that appears
//! once would be re-found on every later turn, and the assistant's own turns
//! (a refused tool call replayed into the history among them) would keep the
//! session blocked with no new offending input. Judging the newest user turn
//! keeps the guarantee that matters, that no request carrying a plaintext
//! credential reaches a provider, while a refused turn stays a refused turn.
use vstd::prelude::*;

use crate::text::push_str;

verus! {

/// The scanner as the gateway registers it.
pub struct SecretsScanner {}

impl SecretsScanner {
    /// The scanner; it holds nothing.
    pub fn new() -> (s: SecretsScanner) {
        SecretsScanner {  }
    }

    /// The name the gateway's policies list it under.
    pub fn name(&self) -> (n: &'static str)
        ensures
            n@ == "secrets"@,
    {
        "secrets"
    }
}

/// One message of a request: whether the user said it, and its parts, each
/// holding its text when it is a text part.
pub struct Message {
    pub from_user: bool,
    pub parts: Vec<Option<String>>,
}

/// The text parts of `parts`, each followed by a newline.
pub open spec fn flatten(parts: Seq<Option<String>>) -> Seq<char>
    decreases parts.len(),
{
    if parts.len() == 0 {
        Seq::empty()
    } else {
        flatten(parts.drop_last()) + match parts.last() {
            Some(t) => t@ + "\n"@,
            None => Seq::empty(),
        }
    }
}

/// The newest message the user said, if any.
pub open spec fn newest_user(messages: Seq<Message>) -> Option<Message>
    decreases messages.len(),
{
    if messages.len() == 0 {
        None
    } else if messages.last().from_user {
        Some(messages.last())
    } else {
        newest_user(messages.drop_last())
    }
}

/// What a request is judged on: the newest user turn, flattened; nothing
/// when the user has said nothing.
pub open spec fn request_text(messages: Seq<Message>) -> Seq<char> {
    match newest_user(messages) {
        Some(m) => flatten(m.parts@),
        None => Seq::empty(),
    }
}

/// Only the newest user turn is judged: whatever came before it (earlier
/// user turns, the assistant's turns, replayed tool calls) and whatever the
/// assistant said after it, the text scanned is that turn's alone.
pub proof fn law_only_the_newest_user_turn_is_judged(before: Seq<Message>, turn: Message, after: Seq<Message>)
    requires
        turn.from_user,
        forall|j: int| 0 <= j < after.len() ==> !(#[trigger] after[j]).from_user,
    ensures
        request_text(before + seq![turn] + after) == flatten(turn.parts@),
    decreases after.len(),
{
    let m = before + seq![turn] + after;
    if after.len() == 0 {
        assert(m.last() == turn);
    } else {
        let a0 = after.drop_last();
        assert forall|j: int| 0 <= j < a0.len() implies !(#[trigger] a0[j]).from_user by {
            assert(a0[j] == after[j]);
        }
        law_only_the_newest_user_turn_is_judged(before, turn, a0);
        assert(m.drop_last() =~= before + seq![turn] + a0);
        assert(m.last() == after[after.len() - 1]);
    }
}

/// The text parts of `parts`, each followed by a newline.
pub fn flatten_parts(parts: &Vec<Option<String>>) -> (out: String)
    ensures
        out@ == flatten(parts@),
{
    let mut out = String::new();
    let mut i: usize = 0;
    while i < parts.len()
        invariant
            i <= parts.len(),
            out@ == flatten(parts@.take(i as int)),
        decreases parts.len() - i,
    {
        proof {
            assert(parts@.take(i + 1).drop_last() =~= parts@.take(i as int));
            assert(parts@.take(i + 1).last() == parts@[i as int]);
        }
        match &parts[i] {
            Some(t) => {
                push_str(&mut out, t.as_str());
                push_str(&mut out, "\n");
            },
            None => {},
        }
        i = i + 1;
    }
    assert(parts@.take(parts.len() as int) =~= parts@);
    out
}

/// The newest user turn of a request, flattened: the only part of a request
/// this scanner judges.
pub fn newest_user_text(messages: &Vec<Message>) -> (out: String)
    ensures
        out@ == request_text(messages@),
{
    let mut i = messages.len();
    assert(messages@.take(i as int) =~= messages@);
    while i > 0
        invariant
            i <= messages.len(),
            newest_user(messages@) == newest_user(messages@.take(i as int)),
        decreases i,
    {
        proof {
            let t = messages@.take(i as int);
            assert(t.drop_last() =~= messages@.take(i - 1));
            assert(t.last() == messages@[i - 1]);
        }
        if messages[i - 1].from_user {
            return flatten_parts(&messages[i - 1].parts);
        }
        i = i - 1;
    }
    assert(messages@.take(0) =~= Seq::<Message>::empty());
    String::new()
}

/// What the scanner reports when the scan found a credential.
pub struct Finding {
    /// `request` or `response`.
    pub phase: &'static str,
    pub category: String,
    /// The matched excerpt, already redacted by the scan.
    pub excerpt: Option<String>,
    pub scanner: &'static str,
}

/// The findings for one scan: one high-severity `secret` finding carrying the
/// excerpt when the scan matched, none otherwise.
pub fn findings(phase: &'static str, matched: Option<String>) -> (out: Vec<Finding>)
    ensures
        matched is None ==> out.len() == 0,
        matched matches Some(e) ==> {
            &&& out.len() == 1
            &&& out@[0].phase == phase
            &&& out@[0].category@ == "secret"@
            &&& out@[0].excerpt == Some(e)
            &&& out@[0].scanner@ == "secrets"@
        },
{
    let mut out: Vec<Finding> = Vec::new();
    match matched {
        Some(e) => {
            out.push(
                Finding {
                    phase,
                    category: String::from_str("secret"),
                    excerpt: Some(e),
                    scanner: "secrets",
                },
            );
        },
        None => {},
    }
    out
}

} // verus!
