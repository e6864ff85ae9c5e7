//! The conversation between the proxy and the documentation hub for one
//! tool call.
//!
//! Three requests, in order: `initialize` (which must hand back an
//! `mcp-session-id`), the `notifications/initialized` notice on that session,
//! and the `tools/call` itself, whose answer is rendered for the model. The
//! caller's identity goes on every request as headers derived from the
//! authorized session alone, so the child cannot name any user it likes.
//! Sending is the caller's; the order, the headers and the verdicts are here.
use vstd::prelude::*;

use crate::json::Json;
use crate::launch::{is_num, is_str};
use crate::mcp::{render, render_spec, McpCallResult, McpResponseFrame};

verus! {

/// What the hub records as the calling agent.
pub const AGENT_NAME: &'static str = "pi-widget";

/// The MCP protocol revision the hub was built against.
pub const PROTOCOL_VERSION: &'static str = "2024-11-05";

/// Which of the three requests is next.
#[derive(PartialEq, Eq, Structural, Clone, Copy, Debug)]
pub enum HubRequest {
    Initialize,
    Initialized,
    CallTool,
}

/// The hub's answer to one request, as far as the exchange reads it.
pub struct HubReply {
    /// The `mcp-session-id` header, when the hub sent one.
    pub mcp_session_id: Option<String>,
    /// The first JSON-RPC frame of the body, when there is one.
    pub payload: Option<McpResponseFrame>,
}

/// Where the exchange goes after a reply.
pub enum HubStep {
    /// Send `request` on the hub session `session`.
    Send { request: HubRequest, session: String },
    /// The call is over, with what the model reads.
    Done(McpCallResult),
    /// The call failed, for this reason.
    Failed(String),
}

/// The step after the reply to `sent`, given the session the exchange holds
/// (none until `initialize` is answered).
pub open spec fn hub_step_matches(s: HubStep, sent: HubRequest, held: Option<Seq<char>>, reply: HubReply) -> bool {
    match sent {
        HubRequest::Initialize => match reply.mcp_session_id {
            None => s matches HubStep::Failed(m) && m@ == "hub did not issue an mcp-session-id"@,
            Some(id) => s matches HubStep::Send { request, session } && request
                == HubRequest::Initialized && session@ == id@,
        },
        HubRequest::Initialized => match held {
            Some(h) => s matches HubStep::Send { request, session } && request
                == HubRequest::CallTool && session@ == h,
            None => s matches HubStep::Failed(m) && m@ == "hub did not issue an mcp-session-id"@,
        },
        HubRequest::CallTool => match reply.payload {
            None => s matches HubStep::Failed(m) && m@ == "hub returned no JSON-RPC frame"@,
            Some(f) => s matches HubStep::Done(r) && (r.text@, r.ok) == render_spec(f),
        },
    }
}

/// The next step of a tool call's exchange with the hub.
pub fn hub_step(sent: HubRequest, held: Option<&String>, reply: HubReply) -> (s: HubStep)
    ensures
        hub_step_matches(
            s,
            sent,
            match held {
                Some(h) => Some(h@),
                None => None,
            },
            reply,
        ),
{
    match sent {
        HubRequest::Initialize => match reply.mcp_session_id {
            None => HubStep::Failed(String::from_str("hub did not issue an mcp-session-id")),
            Some(id) => HubStep::Send { request: HubRequest::Initialized, session: id },
        },
        HubRequest::Initialized => match held {
            Some(h) => HubStep::Send { request: HubRequest::CallTool, session: h.clone() },
            None => HubStep::Failed(String::from_str("hub did not issue an mcp-session-id")),
        },
        HubRequest::CallTool => match &reply.payload {
            None => HubStep::Failed(String::from_str("hub returned no JSON-RPC frame")),
            Some(f) => HubStep::Done(render(f)),
        },
    }
}

/// The headers every request carries: JSON in, JSON or an event stream out,
/// the minted token, the authorized session's user and attested session, the
/// call's trace id, the agent name, and the hub session once there is one.
pub open spec fn hub_headers_spec(
    token: Seq<char>,
    user_id: Seq<char>,
    session_id: Seq<char>,
    trace_id: Seq<char>,
    mcp_session: Option<Seq<char>>,
) -> Seq<(Seq<char>, Seq<char>)> {
    seq![
        ("content-type"@, "application/json"@),
        ("accept"@, "application/json, text/event-stream"@),
        ("authorization"@, "Bearer "@ + token),
        ("x-user-id"@, user_id),
        ("x-session-id"@, session_id),
        ("x-trace-id"@, trace_id),
        ("x-agent-name"@, "pi-widget"@),
    ] + match mcp_session {
        Some(m) => seq![("mcp-session-id"@, m)],
        None => seq![],
    }
}

pub open spec fn pairs_view(v: Seq<(String, String)>) -> Seq<(Seq<char>, Seq<char>)> {
    v.map_values(|p: (String, String)| (p.0@, p.1@))
}

fn push_pair(out: &mut Vec<(String, String)>, k: &str, v: String)
    ensures
        pairs_view(final(out)@) == pairs_view(old(out)@).push((k@, v@)),
{
    let ghost before = out@;
    let ghost vv = v@;
    out.push((String::from_str(k), v));
    assert(pairs_view(out@) =~= pairs_view(before).push((k@, vv)));
}

/// The headers of one request to the hub.
pub fn hub_headers(
    token: &str,
    user_id: &str,
    session_id: &str,
    trace_id: &str,
    mcp_session: Option<&str>,
) -> (out: Vec<(String, String)>)
    ensures
        pairs_view(out@) == hub_headers_spec(
            token@,
            user_id@,
            session_id@,
            trace_id@,
            match mcp_session {
                Some(m) => Some(m@),
                None => None,
            },
        ),
{
    let mut out: Vec<(String, String)> = Vec::new();
    push_pair(&mut out, "content-type", String::from_str("application/json"));
    push_pair(&mut out, "accept", String::from_str("application/json, text/event-stream"));
    let mut bearer = String::from_str("Bearer ");
    bearer.append(token);
    push_pair(&mut out, "authorization", bearer);
    push_pair(&mut out, "x-user-id", String::from_str(user_id));
    push_pair(&mut out, "x-session-id", String::from_str(session_id));
    push_pair(&mut out, "x-trace-id", String::from_str(trace_id));
    push_pair(&mut out, "x-agent-name", String::from_str(AGENT_NAME));
    match mcp_session {
        Some(m) => push_pair(&mut out, "mcp-session-id", String::from_str(m)),
        None => {},
    }
    assert(pairs_view(out@) =~= hub_headers_spec(
        token@,
        user_id@,
        session_id@,
        trace_id@,
        match mcp_session {
            Some(m) => Some(m@),
            None => None,
        },
    ));
    out
}

/// The body of each request: `initialize` with the protocol revision and
/// who is asking, the `notifications/initialized` notice (which has no id),
/// and `tools/call` with the tool's name and its arguments as the model
/// gave them.
pub open spec fn hub_payload_is(p: Json, request: HubRequest, tool: Seq<char>, arguments: Json) -> bool {
    &&& p matches Json::Object(e)
    &&& e@.len() >= 2
    &&& e@[0].0@ == "jsonrpc"@ && is_str(e@[0].1, "2.0"@)
    &&& match request {
        HubRequest::Initialize => {
            &&& e@.len() == 4
            &&& e@[1].0@ == "id"@ && is_num(e@[1].1, "1"@)
            &&& e@[2].0@ == "method"@ && is_str(e@[2].1, "initialize"@)
            &&& e@[3].0@ == "params"@
            &&& e@[3].1 matches Json::Object(params)
            &&& params@.len() == 3
            &&& params@[0].0@ == "protocolVersion"@ && is_str(params@[0].1, PROTOCOL_VERSION@)
            &&& params@[1].0@ == "capabilities"@ && (params@[1].1 matches Json::Object(c) && c@.len()
                == 0)
            &&& params@[2].0@ == "clientInfo"@
            &&& params@[2].1 matches Json::Object(info)
            &&& info@.len() == 2
            &&& info@[0].0@ == "name"@ && is_str(info@[0].1, "systemprompt-pi-widget"@)
            &&& info@[1].0@ == "version"@ && is_str(info@[1].1, "1"@)
        },
        HubRequest::Initialized => {
            &&& e@.len() == 2
            &&& e@[1].0@ == "method"@ && is_str(e@[1].1, "notifications/initialized"@)
        },
        HubRequest::CallTool => {
            &&& e@.len() == 4
            &&& e@[1].0@ == "id"@ && is_num(e@[1].1, "2"@)
            &&& e@[2].0@ == "method"@ && is_str(e@[2].1, "tools/call"@)
            &&& e@[3].0@ == "params"@
            &&& e@[3].1 matches Json::Object(params)
            &&& params@.len() == 2
            &&& params@[0].0@ == "name"@ && is_str(params@[0].1, tool)
            &&& params@[1].0@ == "arguments"@ && params@[1].1 == arguments
        },
    }
}

fn text(s: &str) -> (v: Json)
    ensures
        is_str(v, s@),
{
    Json::Str(String::from_str(s))
}

fn field(k: &str, v: Json) -> (f: (String, Json))
    ensures
        f.0@ == k@,
        f.1 == v,
{
    (String::from_str(k), v)
}

/// The JSON-RPC body of `request`; `tool` and `arguments` are what a
/// `tools/call` carries and are not read for the other two.
pub fn hub_request_payload(request: HubRequest, tool: &str, arguments: Json) -> (p: Json)
    ensures
        hub_payload_is(p, request, tool@, arguments),
{
    let mut e: Vec<(String, Json)> = Vec::new();
    e.push(field("jsonrpc", text("2.0")));
    match request {
        HubRequest::Initialize => {
            e.push(field("id", Json::Number(String::from_str("1"))));
            e.push(field("method", text("initialize")));
            let mut info: Vec<(String, Json)> = Vec::new();
            info.push(field("name", text("systemprompt-pi-widget")));
            info.push(field("version", text("1")));
            let mut params: Vec<(String, Json)> = Vec::new();
            params.push(field("protocolVersion", text(PROTOCOL_VERSION)));
            params.push(field("capabilities", Json::Object(Vec::new())));
            params.push(field("clientInfo", Json::Object(info)));
            e.push(field("params", Json::Object(params)));
        },
        HubRequest::Initialized => {
            e.push(field("method", text("notifications/initialized")));
        },
        HubRequest::CallTool => {
            e.push(field("id", Json::Number(String::from_str("2"))));
            e.push(field("method", text("tools/call")));
            let mut params: Vec<(String, Json)> = Vec::new();
            params.push(field("name", text(tool)));
            params.push(field("arguments", arguments));
            e.push(field("params", Json::Object(params)));
        },
    }
    Json::Object(e)
}

/// A lowercase hexadecimal digit.
pub open spec fn is_lower_hex(c: char) -> bool {
    ('0' <= c && c <= '9') || ('a' <= c && c <= 'f')
}

/// A version-4 UUID as its `Display` writes it: 36 characters, hyphens
/// after the 8th, 12th, 16th and 20th digit, lowercase hexadecimal digits
/// elsewhere, the version digit `4`, and the variant digit one of `8`, `9`,
/// `a`, `b`.
pub open spec fn is_v4_uuid_text(s: Seq<char>) -> bool {
    &&& s.len() == 36
    &&& forall|i: int| 0 <= i < 36 ==> (if i == 8 || i == 13 || i == 18 || i == 23 {
        #[trigger] s[i] == '-'
    } else {
        is_lower_hex(s[i])
    })
    &&& s[14] == '4'
    &&& (s[19] == '8' || s[19] == '9' || s[19] == 'a' || s[19] == 'b')
}

/// `uuid::Uuid::new_v4`, written out by its `Display`: a fresh random
/// version-4 UUID in lowercase hyphenated form. Which UUID comes out is
/// chance, so only its form is stated.
#[verifier::external_body]
fn random_uuid() -> (s: String)
    ensures
        is_v4_uuid_text(s@),
{
    uuid::Uuid::new_v4().to_string()
}

/// A fresh trace id for one hub call: `pi-mcp-` and a random UUID, so the
/// hub's audit rows for the three requests of a call group together and
/// apart from every other call's.
pub fn hub_trace_id() -> (t: String)
    ensures
        t@.len() == 43,
        t@.take(7) == "pi-mcp-"@,
        is_v4_uuid_text(t@.skip(7)),
{
    let u = random_uuid();
    let mut t = String::from_str("pi-mcp-");
    t.append(u.as_str());
    proof {
        reveal_strlit("pi-mcp-");
        assert(t@.take(7) =~= "pi-mcp-"@);
        assert(t@.skip(7) =~= u@);
    }
    t
}

/// The exchange runs in order and cannot skip ahead: `initialize` is only
/// ever followed by the initialized notice, that notice only by the call, and
/// only the call's own reply is rendered for the model.
pub proof fn law_the_call_comes_last(s: HubStep, sent: HubRequest, held: Option<Seq<char>>, reply: HubReply)
    requires
        hub_step_matches(s, sent, held, reply),
    ensures
        s is Done ==> sent == HubRequest::CallTool,
        s matches HubStep::Send { request, .. } ==> (sent == HubRequest::Initialize && request
            == HubRequest::Initialized) || (sent == HubRequest::Initialized && request
            == HubRequest::CallTool),
{
}

} // verus!
