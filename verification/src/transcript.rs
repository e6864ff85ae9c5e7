//! Rendering a stored conversation into something a resumed agent can read.
//!
//! A restored conversation's history goes into the workspace as Markdown, and
//! the agent reads it if the question needs it. What is rendered is narrower
//! than what is stored: the model reads who said what and which tools ran, not
//! the policy chains and approval cards a viewer sees. Feeding an agent its own
//! audit trail invites it to argue with the policy engine.
use vstd::prelude::*;

use crate::json::{get, get_spec, Json};
use crate::text::{chars_of, is_blank, push_chars, push_str, string_of_chars, string_of_range};

verus! {

/// The most characters one section carries before its middle is elided.
pub const MAX_CHARS: usize = 4000;

/// What marks an elision.
pub open spec fn elision() -> Seq<char> {
    "\n\n[… elided …]\n\n"@
}

/// `text` as a section carries it: whole when it has at most [`MAX_CHARS`]
/// characters, otherwise its first and last halves around an elision mark.
pub open spec fn clamp_spec(text: Seq<char>) -> Seq<char> {
    if text.len() <= MAX_CHARS {
        text
    } else {
        text.take((MAX_CHARS / 2) as int) + elision() + text.skip(text.len() - MAX_CHARS / 2)
    }
}

fn clamp_chars(cs: &Vec<char>) -> (out: String)
    ensures
        out@ == clamp_spec(cs@),
{
    let n = cs.len();
    if n <= MAX_CHARS {
        return string_of_chars(cs);
    }
    let half = MAX_CHARS / 2;
    let mut out = string_of_range(cs, 0, half);
    push_str(&mut out, "\n\n[… elided …]\n\n");
    let tail = string_of_range(cs, n - half, n);
    let tail_chars = chars_of(tail.as_str());
    push_chars(&mut out, &tail_chars);
    assert(cs@.subrange(0, half as int) =~= cs@.take(half as int));
    assert(cs@.subrange((n - half) as int, n as int) =~= cs@.skip(n - half));
    out
}

/// `text`, clamped to [`MAX_CHARS`] characters with its middle elided.
pub fn clamp(text: &str) -> (out: String)
    ensures
        out@ == clamp_spec(text@),
{
    let cs = chars_of(text);
    clamp_chars(&cs)
}

/// The non-blank string stored under `key`.
pub open spec fn text_of_spec(body: Json, key: Seq<char>) -> Option<Seq<char>> {
    match get_spec(body, key) {
        Some(Json::Str(s)) => if is_blank(s@) {
            None
        } else {
            Some(s@)
        },
        _ => None,
    }
}

fn text_of<'a>(body: &'a Json, key: &str) -> (r: Option<&'a String>)
    ensures
        match r {
            Some(s) => text_of_spec(*body, key@) == Some(s@),
            None => text_of_spec(*body, key@) is None,
        },
{
    match get(body, key) {
        Some(Json::Str(s)) => {
            let cs = chars_of(s.as_str());
            let (a, b) = crate::text::trim_bounds(&cs);
            if a == b {
                None
            } else {
                Some(s)
            }
        },
        _ => None,
    }
}

/// Whether a stored tool end says the tool succeeded: a `true` under `ok`,
/// anything else counting as failure.
pub open spec fn tool_ok(body: Json) -> bool {
    match get_spec(body, "ok"@) {
        Some(Json::Bool(b)) => b,
        _ => false,
    }
}

/// The Markdown section for one stored frame, or `None` for a frame the
/// model does not read (or one missing the text it would need).
pub open spec fn section_spec(kind: Seq<char>, body: Json) -> Option<Seq<char>> {
    if kind == "user_message"@ {
        match text_of_spec(body, "text"@) {
            Some(t) => Some("## User\n\n"@ + clamp_spec(t)),
            None => None,
        }
    } else if kind == "text_delta"@ {
        match text_of_spec(body, "text"@) {
            Some(t) => Some("## Assistant\n\n"@ + clamp_spec(t)),
            None => None,
        }
    } else if kind == "tool_end"@ {
        match text_of_spec(body, "tool_name"@) {
            Some(name) => Some(
                "## Tool\n\n`"@ + name + "` "@ + (if tool_ok(body) {
                    "succeeded"@
                } else {
                    "failed"@
                }) + "."@,
            ),
            None => None,
        }
    } else if kind == "tool_blocked"@ {
        match text_of_spec(body, "tool_name"@) {
            Some(name) => Some("## Tool\n\n`"@ + name + "` was not permitted."@),
            None => None,
        }
    } else {
        None
    }
}

fn is_kind(kind: &Vec<char>, lit: &str) -> (b: bool)
    ensures
        b == (kind@ == lit@),
{
    let l = chars_of(lit);
    crate::text::chars_eq(kind, &l)
}

/// The Markdown a resumed agent reads for one stored frame.
pub fn section(kind: &str, body: &Json) -> (out: Option<String>)
    ensures
        match out {
            Some(s) => section_spec(kind@, *body) == Some(s@),
            None => section_spec(kind@, *body) is None,
        },
{
    let k = chars_of(kind);
    if is_kind(&k, "user_message") || is_kind(&k, "text_delta") {
        let t = match text_of(body, "text") {
            Some(t) => t,
            None => {
                return None;
            },
        };
        let mut out = if is_kind(&k, "user_message") {
            String::from_str("## User\n\n")
        } else {
            String::from_str("## Assistant\n\n")
        };
        let c = clamp(t.as_str());
        let cc = chars_of(c.as_str());
        push_chars(&mut out, &cc);
        return Some(out);
    }
    let blocked = is_kind(&k, "tool_blocked");
    if is_kind(&k, "tool_end") || blocked {
        let name = match text_of(body, "tool_name") {
            Some(n) => n,
            None => {
                return None;
            },
        };
        let mut out = String::from_str("## Tool\n\n`");
        let nc = chars_of(name.as_str());
        push_chars(&mut out, &nc);
        if blocked {
            push_str(&mut out, "` was not permitted.");
        } else {
            let ok = match get(body, "ok") {
                Some(Json::Bool(b)) => *b,
                _ => false,
            };
            push_str(&mut out, "` ");
            if ok {
                push_str(&mut out, "succeeded");
            } else {
                push_str(&mut out, "failed");
            }
            push_str(&mut out, ".");
        }
        proof {
            reveal_strlit("tool_end");
            reveal_strlit("tool_blocked");
            reveal_strlit("user_message");
            reveal_strlit("text_delta");
            if blocked {
                assert("tool_blocked"@.len() != "tool_end"@.len());
                assert(kind@ != "tool_end"@);
                assert(out@ =~= "## Tool\n\n`"@ + name@ + "` was not permitted."@);
            } else {
                assert(kind@ == "tool_end"@);
            }
        }
        return Some(out);
    }
    None
}

/// What a resumed agent is told before the record.
pub open spec fn preamble() -> Seq<char> {
    "# Earlier in this conversation\n\nThis is the record of an earlier run of the conversation you are now in.\nThe user can see all of it; you were restarted and cannot. Treat it as\nsomething you said, not as something you were told about.\n\n"@
}

/// One stored frame: its kind and its body.
pub struct StoredFrame {
    pub kind: String,
    pub body: Json,
}

/// The sections of the frames the model reads, each followed by a blank line.
pub open spec fn sections_text(frames: Seq<StoredFrame>) -> Seq<char>
    decreases frames.len(),
{
    if frames.len() == 0 {
        Seq::empty()
    } else {
        let p = sections_text(frames.drop_last());
        match section_spec(frames.last().kind@, frames.last().body) {
            Some(sec) => p + sec + "\n\n"@,
            None => p,
        }
    }
}

/// The Markdown a resumed agent reads: the preamble and then a section per
/// frame it reads, or `None` when no frame gave one.
pub open spec fn render_spec(frames: Seq<StoredFrame>) -> Option<Seq<char>> {
    if sections_text(frames).len() == 0 {
        None
    } else {
        Some(preamble() + sections_text(frames))
    }
}

proof fn lemma_section_nonempty(kind: Seq<char>, body: Json)
    ensures
        section_spec(kind, body) matches Some(sec) ==> sec.len() > 0,
{
    reveal_strlit("## User\n\n");
    reveal_strlit("## Assistant\n\n");
    reveal_strlit("## Tool\n\n`");
}

/// The stored conversation, rendered for a resumed agent.
pub fn render(frames: &Vec<StoredFrame>) -> (out: Option<String>)
    ensures
        match out {
            Some(s) => render_spec(frames@) == Some(s@),
            None => render_spec(frames@) is None,
        },
{
    let mut out = String::from_str(
        "# Earlier in this conversation\n\nThis is the record of an earlier run of the conversation you are now in.\nThe user can see all of it; you were restarted and cannot. Treat it as\nsomething you said, not as something you were told about.\n\n",
    );
    let mut added = false;
    let mut i: usize = 0;
    while i < frames.len()
        invariant
            i <= frames.len(),
            out@ == preamble() + sections_text(frames@.take(i as int)),
            added == (sections_text(frames@.take(i as int)).len() > 0),
        decreases frames.len() - i,
    {
        proof {
            assert(frames@.take(i + 1).drop_last() =~= frames@.take(i as int));
            assert(frames@.take(i + 1).last() == frames@[i as int]);
            lemma_section_nonempty(frames@[i as int].kind@, frames@[i as int].body);
        }
        match section(frames[i].kind.as_str(), &frames[i].body) {
            Some(sec) => {
                let sc = chars_of(sec.as_str());
                push_chars(&mut out, &sc);
                push_str(&mut out, "\n\n");
                added = true;
            },
            None => {},
        }
        i = i + 1;
    }
    assert(frames@.take(frames.len() as int) =~= frames@);
    if added {
        Some(out)
    } else {
        None
    }
}

} // verus!
