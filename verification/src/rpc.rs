//! pi's RPC wire: the JSONL lines this side writes, how the lines pi writes
//! are classified, and what each one leads to.
//!
//! Commands go to pi's stdin as one JSON object per line. What comes back is
//! either the governance shim asking for a verdict, a reply to a command, an
//! event for the widget, or not JSON at all (pi may print a warning), which is
//! logged and never fatal. Parsing a line into a JSON value happens at the
//! edge; everything after that is decided here.
use vstd::prelude::*;

use crate::json::{get, get_spec, push_quoted, quoted, Json};
use crate::text::{chars_eq, chars_of};

verus! {

/// A command written to pi.
pub enum RpcCommand {
    Prompt { message: String },
    Steer { message: String },
    FollowUp { message: String },
    Abort,
}

/// The JSON line a command is written as, newline included.
pub open spec fn command_line(c: RpcCommand) -> Seq<char> {
    match c {
        RpcCommand::Prompt { message } => "{\"type\":\"prompt\",\"message\":"@ + quoted(message@)
            + "}\n"@,
        RpcCommand::Steer { message } => "{\"type\":\"steer\",\"message\":"@ + quoted(message@)
            + "}\n"@,
        RpcCommand::FollowUp { message } => "{\"type\":\"follow_up\",\"message\":"@ + quoted(
            message@,
        ) + "}\n"@,
        RpcCommand::Abort => "{\"type\":\"abort\"}\n"@,
    }
}

impl RpcCommand {
    /// The command as one JSONL line, newline included.
    pub fn to_line(&self) -> (out: String)
        ensures
            out@ == command_line(*self),
    {
        match self {
            RpcCommand::Prompt { message } => {
                let mut out = String::from_str("{\"type\":\"prompt\",\"message\":");
                push_quoted(&mut out, message.as_str());
                out.append("}\n");
                out
            },
            RpcCommand::Steer { message } => {
                let mut out = String::from_str("{\"type\":\"steer\",\"message\":");
                push_quoted(&mut out, message.as_str());
                out.append("}\n");
                out
            },
            RpcCommand::FollowUp { message } => {
                let mut out = String::from_str("{\"type\":\"follow_up\",\"message\":");
                push_quoted(&mut out, message.as_str());
                out.append("}\n");
                out
            },
            RpcCommand::Abort => String::from_str("{\"type\":\"abort\"}\n"),
        }
    }
}

/// The answer to the shim's confirm request, as the line written back.
pub open spec fn ui_response_line(id: Seq<char>, confirmed: bool) -> Seq<char> {
    "{\"type\":\"extension_ui_response\",\"id\":"@ + quoted(id) + ",\"confirmed\":"@ + (if confirmed {
        "true"@
    } else {
        "false"@
    }) + "}\n"@
}

/// The answer to the shim's confirm request.
pub struct ExtensionUiResponse {
    pub id: String,
    pub confirmed: bool,
}

impl ExtensionUiResponse {
    /// The answer to request `id`: confirmed or not.
    pub fn new(id: &str, confirmed: bool) -> (r: ExtensionUiResponse)
        ensures
            r.id@ == id@,
            r.confirmed == confirmed,
    {
        ExtensionUiResponse { id: String::from_str(id), confirmed }
    }

    /// The answer as the line written back to pi, newline included.
    pub fn to_line(&self) -> (out: String)
        ensures
            out@ == ui_response_line(self.id@, self.confirmed),
    {
        let mut out = String::from_str("{\"type\":\"extension_ui_response\",\"id\":");
        push_quoted(&mut out, self.id.as_str());
        out.append(",\"confirmed\":");
        if self.confirmed {
            out.append("true");
        } else {
            out.append("false");
        }
        out.append("}\n");
        out
    }
}

/// The shim's request for a verdict.
pub struct UiRequest {
    pub id: String,
    pub method: String,
    /// For the governance shim, the JSON-encoded payload; for any other
    /// extension, prose.
    pub message: String,
}

/// One line from pi, classified.
pub enum RpcFrame {
    UiRequest(UiRequest),
    Response { success: bool, error: Option<String> },
    Event(Json),
    Unparseable(String),
}

/// The string under `key`, when there is one.
pub open spec fn str_at(v: Json, key: Seq<char>) -> Option<Seq<char>> {
    match get_spec(v, key) {
        Some(Json::Str(s)) => Some(s@),
        _ => None,
    }
}

/// A line's value read as the shim's request: `id` and `method` strings are
/// required, `message` a string when present and empty when absent.
pub open spec fn ui_request_fields(v: Json) -> Option<(Seq<char>, Seq<char>, Seq<char>)> {
    match (str_at(v, "id"@), str_at(v, "method"@)) {
        (Some(id), Some(method)) => match get_spec(v, "message"@) {
            None => Some((id, method, Seq::empty())),
            Some(Json::Str(m)) => Some((id, method, m@)),
            _ => None,
        },
        _ => None,
    }
}

/// How a line is classified: not JSON at all is unparseable; a value typed
/// `extension_ui_request` is the shim's request when it has that shape and an
/// event otherwise; a `response` carries whether the command succeeded (a
/// missing flag counting as failure) and its error text; anything else is an
/// event.
pub open spec fn frame_matches(f: RpcFrame, line: Seq<char>, parsed: Option<Json>) -> bool {
    match parsed {
        None => f matches RpcFrame::Unparseable(raw) && raw@ == line,
        Some(v) => {
            let kind = str_at(v, "type"@);
            if kind == Some("extension_ui_request"@) && ui_request_fields(v) is Some {
                f matches RpcFrame::UiRequest(r) && Some((r.id@, r.method@, r.message@))
                    == ui_request_fields(v)
            } else if kind == Some("response"@) {
                f matches RpcFrame::Response { success, error } && success == (match get_spec(
                    v,
                    "success"@,
                ) {
                    Some(Json::Bool(b)) => b,
                    _ => false,
                }) && (match error {
                    Some(e) => Some(e@),
                    None => None,
                }) == str_at(v, "error"@)
            } else {
                f matches RpcFrame::Event(e) && e == v
            }
        },
    }
}

fn str_field(v: &Json, key: &str) -> (r: Option<String>)
    ensures
        match r {
            Some(s) => str_at(*v, key@) == Some(s@),
            None => str_at(*v, key@) is None,
        },
{
    match get(v, key) {
        Some(Json::Str(s)) => Some(s.clone()),
        _ => None,
    }
}

fn is_text(s: &String, lit: &str) -> (b: bool)
    ensures
        b == (s@ == lit@),
{
    let a = chars_of(s.as_str());
    let l = chars_of(lit);
    chars_eq(&a, &l)
}

/// Classifies one line from pi's stdout; `parsed` is the line read as JSON,
/// `None` when it is not JSON.
pub fn parse_frame(line: &str, parsed: Option<Json>) -> (f: RpcFrame)
    ensures
        frame_matches(f, line@, parsed),
{
    let v = match parsed {
        None => {
            return RpcFrame::Unparseable(String::from_str(line));
        },
        Some(v) => v,
    };
    let kind = str_field(&v, "type");
    let is_request = match &kind {
        Some(k) => is_text(k, "extension_ui_request"),
        None => false,
    };
    if is_request {
        let id = str_field(&v, "id");
        let method = str_field(&v, "method");
        match (id, method) {
            (Some(id), Some(method)) => {
                let message = match get(&v, "message") {
                    None => Some(String::new()),
                    Some(Json::Str(m)) => Some(m.clone()),
                    _ => None,
                };
                match message {
                    Some(message) => {
                        return RpcFrame::UiRequest(UiRequest { id, method, message });
                    },
                    None => {},
                }
            },
            _ => {},
        }
        proof {
            reveal_strlit("extension_ui_request");
            reveal_strlit("response");
            assert("extension_ui_request"@.len() != "response"@.len());
            assert(str_at(v, "type"@) == Some("extension_ui_request"@));
            assert(ui_request_fields(v) is None);
        }
        return RpcFrame::Event(v);
    }
    let is_response = match &kind {
        Some(k) => is_text(k, "response"),
        None => false,
    };
    if is_response {
        let success = match get(&v, "success") {
            Some(Json::Bool(b)) => *b,
            _ => false,
        };
        let error = str_field(&v, "error");
        return RpcFrame::Response { success, error };
    }
    RpcFrame::Event(v)
}

/// The text the widget is shown when the shim's request cannot be read.
pub open spec fn unparseable_request_message() -> Seq<char> {
    "[GOVERNANCE] unparseable approval request — denied"@
}

/// What a classified line leads to.
pub enum LineAction {
    /// Nothing beyond a log line.
    Ignore,
    /// Refuse request `id` without asking anyone, telling the widget why.
    DenyUnreadable { id: String, message: String },
    /// Put request `id` to the governance gate.
    Decide { id: String },
    /// Show the widget an error.
    ShowError { message: String },
    /// Translate the event for the widget.
    Forward,
}

/// What the line leads to. Only `confirm` requests are governance's business,
/// and one whose payload does not parse (`payload_readable` false) is denied
/// rather than guessed at; a failed command is surfaced with pi's error, or a
/// fixed one when pi gave none.
pub open spec fn line_action_matches(a: LineAction, f: RpcFrame, payload_readable: bool) -> bool {
    match f {
        RpcFrame::UiRequest(r) => if r.method@ != "confirm"@ {
            a is Ignore
        } else if !payload_readable {
            a matches LineAction::DenyUnreadable { id, message } && id@ == r.id@ && message@
                == unparseable_request_message()
        } else {
            a matches LineAction::Decide { id } && id@ == r.id@
        },
        RpcFrame::Response { success, error } => if success {
            a is Ignore
        } else {
            a matches LineAction::ShowError { message } && message@ == (match error {
                Some(e) => e@,
                None => "pi rejected the command"@,
            })
        },
        RpcFrame::Event(_) => a is Forward,
        RpcFrame::Unparseable(_) => a is Ignore,
    }
}

/// What one classified line from pi leads to.
pub fn line_action(f: &RpcFrame, payload_readable: bool) -> (a: LineAction)
    ensures
        line_action_matches(a, *f, payload_readable),
{
    match f {
        RpcFrame::UiRequest(r) => {
            if !is_text(&r.method, "confirm") {
                LineAction::Ignore
            } else if !payload_readable {
                LineAction::DenyUnreadable {
                    id: r.id.clone(),
                    message: String::from_str("[GOVERNANCE] unparseable approval request — denied"),
                }
            } else {
                LineAction::Decide { id: r.id.clone() }
            }
        },
        RpcFrame::Response { success, error } => {
            if *success {
                LineAction::Ignore
            } else {
                let message = match error {
                    Some(e) => e.clone(),
                    None => String::from_str("pi rejected the command"),
                };
                LineAction::ShowError { message }
            }
        },
        RpcFrame::Event(_) => LineAction::Forward,
        RpcFrame::Unparseable(_) => LineAction::Ignore,
    }
}

} // verus!
