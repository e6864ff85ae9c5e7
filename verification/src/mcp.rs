//! The bridge between a governed pi session and the documentation hub.
//!
//! The child's calls arrive here and are forwarded to the hub only for the
//! tools on an explicit allowlist; what the hub answers is turned into the text
//! the model reads. Everything in this module is a pure function over a
//! JSON-RPC frame: no identity, no transport, no session. A frame that renders
//! blank reads to a model as success, so the rendering rules are pinned here.
use vstd::prelude::*;

use crate::json::{entry, find_key, Json};
use crate::text::{
    chars_of, has_prefix, is_blank, join, lines, lines_of, push_chars, push_str,
    string_of_range, trim_bounds,
};

verus! {

/// The hub tools the proxy forwards, and nothing else: the child is the least
/// trusted thing in this system, so adding a hub tool means adding it here.
pub open spec fn forwardable_spec(tool: Seq<char>) -> bool {
    ||| tool == "list_topics"@
    ||| tool == "get_topic"@
    ||| tool == "search_docs"@
    ||| tool == "governance_stats"@
    ||| tool == "fetch_remote_docs"@
}

fn same_text(a: &Vec<char>, lit: &str) -> (b: bool)
    ensures
        b == (a@ == lit@),
{
    let l = chars_of(lit);
    crate::text::chars_eq(a, &l)
}

/// Whether the proxy forwards `tool` to the hub.
pub fn is_forwardable(tool: &str) -> (b: bool)
    ensures
        b == forwardable_spec(tool@),
{
    let t = chars_of(tool);
    same_text(&t, "list_topics") || same_text(&t, "get_topic") || same_text(&t, "search_docs")
        || same_text(&t, "governance_stats") || same_text(&t, "fetch_remote_docs")
}

/// The artifact body a tool's structured content carries: an object's own
/// `content` string if it has one, otherwise the first body found among its
/// values, in order; the first body among an array's items; nothing in a
/// scalar or a bare string.
pub open spec fn artifact_body_spec(v: Json) -> Option<Seq<char>>
    decreases v, 1int,
{
    match v {
        Json::Object(entries) => match entry(entries@, "content"@) {
            Some(Json::Str(s)) => Some(s@),
            _ => first_body_in_entries(entries@),
        },
        Json::Array(items) => first_body_in_items(items@),
        _ => None,
    }
}

pub open spec fn first_body_in_items(items: Seq<Json>) -> Option<Seq<char>>
    decreases items, 0int,
{
    if items.len() == 0 {
        None
    } else {
        match artifact_body_spec(items[0]) {
            Some(b) => Some(b),
            None => first_body_in_items(items.subrange(1, items.len() as int)),
        }
    }
}

pub open spec fn first_body_in_entries(entries: Seq<(String, Json)>) -> Option<Seq<char>>
    decreases entries, 0int,
{
    if entries.len() == 0 {
        None
    } else {
        match artifact_body_spec(entries[0].1) {
            Some(b) => Some(b),
            None => first_body_in_entries(entries.subrange(1, entries.len() as int)),
        }
    }
}

fn artifact_body(v: &Json) -> (r: Option<String>)
    ensures
        match r {
            Some(s) => artifact_body_spec(*v) == Some(s@),
            None => artifact_body_spec(*v) is None,
        },
    decreases v,
{
    match v {
        Json::Object(entries) => {
            match find_key(entries, "content") {
                Some(k) => match &entries[k].1 {
                    Json::Str(s) => {
                        return Some(s.clone());
                    },
                    _ => {},
                },
                None => {},
            }
            let n = entries.len();
            let mut i: usize = 0;
            assert(entries@.subrange(0, n as int) =~= entries@);
            while i < n
                invariant
                    n == entries.len(),
                    i <= n,
                    *v == Json::Object(*entries),
                    artifact_body_spec(*v) == first_body_in_entries(
                        entries@.subrange(i as int, n as int),
                    ),
                decreases n - i,
            {
                let ghost rest = entries@.subrange(i as int, n as int);
                assert(rest[0] == entries@[i as int]);
                assert(rest.subrange(1, rest.len() as int) =~= entries@.subrange(i + 1, n as int));
                proof {
                    assert(decreases_to!(*v => (*v)->Object_0));
                    assert(decreases_to!(*entries => entries@));
                    assert(decreases_to!(entries@ => entries@[i as int]));
                    assert(decreases_to!(entries@[i as int] => entries@[i as int].1));
                }
                match artifact_body(&entries[i].1) {
                    Some(b) => {
                        assert(first_body_in_entries(rest) == Some(b@));
                        return Some(b);
                    },
                    None => {},
                }
                i = i + 1;
            }
            None
        },
        Json::Array(items) => {
            let n = items.len();
            let mut i: usize = 0;
            assert(items@.subrange(0, n as int) =~= items@);
            while i < n
                invariant
                    n == items.len(),
                    i <= n,
                    *v == Json::Array(*items),
                    artifact_body_spec(*v) == first_body_in_items(
                        items@.subrange(i as int, n as int),
                    ),
                decreases n - i,
            {
                let ghost rest = items@.subrange(i as int, n as int);
                assert(rest[0] == items@[i as int]);
                assert(rest.subrange(1, rest.len() as int) =~= items@.subrange(i + 1, n as int));
                proof {
                    assert(decreases_to!(*v => (*v)->Array_0));
                    assert(decreases_to!(*items => items@));
                    assert(decreases_to!(items@ => items@[i as int]));
                }
                match artifact_body(&items[i]) {
                    Some(b) => {
                        assert(first_body_in_items(rest) == Some(b@));
                        return Some(b);
                    },
                    None => {},
                }
                i = i + 1;
            }
            None
        },
        _ => None,
    }
}

/// What the proxy hands back to the extension: the text the model reads, and
/// whether the hub answered with a result rather than an error. A tool error
/// is information, not a failure of the transport.
pub struct McpCallResult {
    pub text: String,
    pub ok: bool,
}

/// A JSON-RPC error member.
pub struct McpError {
    pub message: Option<String>,
}

/// One item of a tool result's `content` list.
pub struct McpContentItem {
    pub text: Option<String>,
}

/// A tool result: its content items, its own error flag, and the structured
/// artifact a tool may attach.
pub struct McpToolResult {
    pub content: Vec<McpContentItem>,
    pub is_error: bool,
    pub structured_content: Option<Json>,
}

/// One JSON-RPC response frame from the hub.
pub struct McpResponseFrame {
    pub result: Option<McpToolResult>,
    pub error: Option<McpError>,
}

impl McpResponseFrame {
    /// Whether the frame answers the request (rather than being a keepalive
    /// or a notification).
    pub fn is_answer(&self) -> (b: bool)
        ensures
            b == (self.result is Some || self.error is Some),
    {
        self.result.is_some() || self.error.is_some()
    }
}

/// The texts of the content items that carry one, in order.
pub open spec fn item_texts(items: Seq<McpContentItem>) -> Seq<Seq<char>>
    decreases items.len(),
{
    if items.len() == 0 {
        seq![]
    } else {
        let p = item_texts(items.drop_last());
        match items.last().text {
            Some(t) => p.push(t@),
            None => p,
        }
    }
}

/// What the model reads for a tool result: the item texts joined by newlines,
/// then the artifact body after a blank line when there is a non-blank one.
pub open spec fn result_text(r: McpToolResult) -> Seq<char> {
    let summary = join(item_texts(r.content@), "\n"@);
    match r.structured_content {
        Some(v) => match artifact_body_spec(v) {
            Some(b) if !is_blank(b) => if is_blank(summary) {
                b
            } else {
                summary + "\n\n"@ + b
            },
            _ => summary,
        },
        None => summary,
    }
}

/// The text and flag for a frame: a hub error becomes its message (or a
/// fixed refusal) with `ok` false; no result at all renders empty and ok.
pub open spec fn render_spec(frame: McpResponseFrame) -> (Seq<char>, bool) {
    match frame.error {
        Some(e) => (
            match e.message {
                Some(m) => m@,
                None => "the documentation hub refused the call"@,
            },
            false,
        ),
        None => match frame.result {
            None => (Seq::empty(), true),
            Some(r) => (result_text(r), !r.is_error),
        },
    }
}

fn joined_texts(items: &Vec<McpContentItem>) -> (out: String)
    ensures
        out@ == join(item_texts(items@), "\n"@),
{
    let mut out = String::new();
    let mut any = false;
    let mut i: usize = 0;
    while i < items.len()
        invariant
            i <= items.len(),
            out@ == join(item_texts(items@.take(i as int)), "\n"@),
            any == (item_texts(items@.take(i as int)).len() > 0),
        decreases items.len() - i,
    {
        proof {
            let t = items@.take(i + 1);
            assert(t.drop_last() =~= items@.take(i as int));
            assert(t.last() == items@[i as int]);
        }
        match &items[i].text {
            Some(t) => {
                if any {
                    push_str(&mut out, "\n");
                }
                let cs = chars_of(t.as_str());
                push_chars(&mut out, &cs);
                any = true;
                proof {
                    reveal_strlit("\n");
                    let p = item_texts(items@.take(i as int));
                    let q = p.push(t@);
                    assert(q.drop_last() =~= p);
                    if p.len() == 0 {
                        assert(join(p, "\n"@) =~= Seq::<char>::empty());
                        assert(out@ =~= q[0]);
                    }
                }
            },
            None => {},
        }
        i = i + 1;
    }
    assert(items@.take(items.len() as int) =~= items@);
    out
}

fn blank(s: &String) -> (b: bool)
    ensures
        b == is_blank(s@),
{
    let cs = chars_of(s.as_str());
    let (a, e) = trim_bounds(&cs);
    a == e
}

/// Turns a JSON-RPC frame into the text the model will read. A hub error is
/// text with `ok` false rather than a transport failure: "no such topic" is an
/// answer the model should see and act on.
pub fn render(frame: &McpResponseFrame) -> (out: McpCallResult)
    ensures
        (out.text@, out.ok) == render_spec(*frame),
{
    match &frame.error {
        Some(e) => {
            let text = match &e.message {
                Some(m) => m.clone(),
                None => String::from_str("the documentation hub refused the call"),
            };
            return McpCallResult { text, ok: false };
        },
        None => {},
    }
    let r = match &frame.result {
        Some(r) => r,
        None => {
            return McpCallResult { text: String::new(), ok: true };
        },
    };
    let summary = joined_texts(&r.content);
    let body = match &r.structured_content {
        Some(v) => artifact_body(v),
        None => None,
    };
    let text = match body {
        Some(b) => {
            if blank(&b) {
                summary
            } else if blank(&summary) {
                b
            } else {
                let mut t = summary;
                push_str(&mut t, "\n\n");
                let cs = chars_of(b.as_str());
                push_chars(&mut t, &cs);
                t
            }
        },
        None => summary,
    };
    McpCallResult { text, ok: !r.is_error }
}

/// What follows `data: ` on each line of an SSE body that has it, in order.
pub open spec fn data_payloads(ls: Seq<Seq<char>>) -> Seq<Seq<char>>
    decreases ls.len(),
{
    if ls.len() == 0 {
        seq![]
    } else {
        let p = data_payloads(ls.drop_last());
        if "data: "@.is_prefix_of(ls.last()) {
            p.push(ls.last().skip("data: "@.len() as int))
        } else {
            p
        }
    }
}

/// The `data:` payloads of an SSE body. The hub replies `text/event-stream`
/// even to a single request, so its answer arrives on one of these lines.
pub fn sse_data_lines(body: &str) -> (out: Vec<String>)
    ensures
        out.len() == data_payloads(lines(body@)).len(),
        forall|i: int| 0 <= i < out.len() ==> #[trigger] out[i]@ == data_payloads(lines(body@))[i],
{
    let cs = chars_of(body);
    let ls = lines_of(&cs);
    let prefix = chars_of("data: ");
    let ghost all = lines(body@);
    let mut out: Vec<String> = Vec::new();
    let mut i: usize = 0;
    while i < ls.len()
        invariant
            i <= ls.len(),
            ls.len() == all.len(),
            prefix@ == "data: "@,
            forall|k: int| 0 <= k < ls.len() ==> #[trigger] ls[k]@ == all[k],
            out.len() == data_payloads(all.take(i as int)).len(),
            forall|k: int| 0 <= k < out.len() ==> #[trigger] out[k]@ == data_payloads(
                all.take(i as int),
            )[k],
        decreases ls.len() - i,
    {
        proof {
            let t = all.take(i + 1);
            assert(t.drop_last() =~= all.take(i as int));
            assert(t.last() == all[i as int]);
        }
        let line = &ls[i];
        if has_prefix(line, &prefix) {
            let payload = string_of_range(line, prefix.len(), line.len());
            assert(payload@ =~= line@.skip("data: "@.len() as int));
            out.push(payload);
        }
        i = i + 1;
    }
    assert(all.take(ls.len() as int) =~= all);
    out
}

/// The first of the stream's parsed `data:` frames that answers, if any.
pub open spec fn first_answer(data: Seq<Option<McpResponseFrame>>) -> Option<McpResponseFrame>
    decreases data.len(),
{
    if data.len() == 0 {
        None
    } else {
        match data[0] {
            Some(f) => if f.result is Some || f.error is Some {
                Some(f)
            } else {
                first_answer(data.drop_first())
            },
            None => first_answer(data.drop_first()),
        }
    }
}

/// The frame a hub reply carries: the whole body when it parses as one,
/// otherwise the first `data:` payload of its event stream that parses and
/// answers. `whole` is the body parsed as a frame; `data` the payloads of
/// [`sse_data_lines`] parsed, in order, `None` where one does not parse.
pub fn reply_frame(whole: Option<McpResponseFrame>, data: Vec<Option<McpResponseFrame>>) -> (r: Option<
    McpResponseFrame,
>)
    ensures
        whole is Some ==> r == whole,
        whole is None ==> r == first_answer(data@),
{
    if whole.is_some() {
        return whole;
    }
    let ghost all = data@;
    let mut rest = data;
    let mut i: usize = 0;
    let n = rest.len();
    assert(all.skip(0) =~= all);
    while i < n
        invariant
            i <= n,
            n == all.len(),
            rest@ == all.skip(i as int),
            whole is None,
            all == data@,
            first_answer(all) == first_answer(all.skip(i as int)),
        decreases n - i,
    {
        let ghost before = rest@;
        assert(before.drop_first() =~= all.skip(i + 1));
        assert(before[0] == all[i as int]);
        let item = rest.remove(0);
        assert(item == all[i as int]);
        assert(rest@ =~= all.skip(i + 1));
        match item {
            Some(f) => {
                if f.is_answer() {
                    return Some(f);
                }
            },
            None => {},
        }
        i = i + 1;
    }
    None
}

/// The name a proxied hub call is governed under: its MCP name, so a verdict
/// here is the one the shim would reach for the same call.
pub open spec fn governed_mcp_name(tool: Seq<char>) -> Seq<char> {
    "mcp__systemprompt__"@ + tool
}

/// The proxy's first answer to a call from the child: a tool off the
/// allowlist is a 400 `unknown tool` and goes no further; any other is
/// governed under its MCP name.
pub fn proxy_admit(tool: &str) -> (r: Result<String, (u16, &'static str)>)
    ensures
        forwardable_spec(tool@) ==> (r matches Ok(name) && name@ == governed_mcp_name(tool@)),
        !forwardable_spec(tool@) ==> (r matches Err(e) && e.0 == 400 && e.1@ == "unknown tool"@),
{
    if !is_forwardable(tool) {
        return Err((400, "unknown tool"));
    }
    let mut name = String::from_str("mcp__systemprompt__");
    name.append(tool);
    Ok(name)
}

/// A proxied call the policy chain refused: answered 200 with the refusal as
/// the tool's own text (`ok` false), so the model reads the reason rather
/// than a broken tool, and shown to the widget as a `ToolBlocked` under the
/// governed name, carrying the same reason and the policy that refused.
pub fn proxy_refusal(governed_name: String, reason: Option<String>, policy: Option<String>) -> (r: (
    McpCallResult,
    crate::gate::GateFrame,
))
    ensures
        r.0.text@ == (match reason {
            Some(m) => m@,
            None => "[GOVERNANCE] denied"@,
        }),
        !r.0.ok,
        crate::gate::gate_frame_view(r.1) == (crate::gate::GateFrameV::ToolBlocked {
            tool_use_id: None,
            tool_name: governed_name@,
            reason: r.0.text@,
            policy: crate::gate::opt_text(policy),
        }),
{
    let reason = crate::gate::denial_reason(reason);
    let text = reason.clone();
    (
        McpCallResult { text, ok: false },
        crate::gate::GateFrame::ToolBlocked { tool_use_id: None, tool_name: governed_name, reason, policy },
    )
}

/// What the child is told when the hub cannot be reached.
pub fn hub_unreachable() -> (r: (u16, &'static str))
    ensures
        r.0 == 502,
        r.1@ == "the documentation hub is unreachable"@,
{
    (502, "the documentation hub is unreachable")
}

} // verus!
