//! What the widget sees of pi's own event frames.
//!
//! The browser gets a small, stable vocabulary rather than pi's frames, so a
//! pi upgrade that renames its variants does not break the UI and nothing
//! internal can leak into a frame by accident. Dropping a frame is a filtering
//! decision: the browser never sees a tool starting, so a call governance later
//! denies cannot already have rendered as running.
use vstd::prelude::*;

use crate::text::{chars_eq, chars_of};

verus! {

/// An assistant message update, as pi reports it.
pub enum AssistantEvent {
    TextDelta { delta: Option<String>, text: Option<String> },
    ThinkingDelta { delta: Option<String>, text: Option<String> },
    Error { reason: Option<String>, error_message: Option<String> },
    Other,
}

/// The message a `message_end` frame closes.
pub struct EndedMessage {
    pub role: String,
    pub stop_reason: Option<String>,
    pub error_message: Option<String>,
}

/// One of pi's event frames, as far as the widget's vocabulary reads it.
pub enum WireFrame {
    TurnStart,
    TurnEnd,
    MessageUpdate(AssistantEvent),
    MessageEnd(EndedMessage),
    ToolExecutionEnd { tool_name: String, tool_call_id: Option<String>, is_error: bool },
    Other,
}

/// A frame for the widget.
pub enum WidgetFrame {
    TurnStart,
    TurnEnd,
    TextDelta(String),
    ThinkingDelta(String),
    ToolEnd { tool_use_id: Option<String>, tool_name: String, ok: bool },
    /// A provider failure, with the provider's own text (or a fixed one).
    ProviderError(String),
}

/// A widget frame as the contracts see it.
pub enum WidgetView {
    TurnStart,
    TurnEnd,
    TextDelta(Seq<char>),
    ThinkingDelta(Seq<char>),
    ToolEnd { tool_use_id: Option<Seq<char>>, tool_name: Seq<char>, ok: bool },
    ProviderError(Seq<char>),
}

pub open spec fn opt_view(o: Option<String>) -> Option<Seq<char>> {
    match o {
        Some(s) => Some(s@),
        None => None,
    }
}

pub open spec fn widget_view(f: WidgetFrame) -> WidgetView {
    match f {
        WidgetFrame::TurnStart => WidgetView::TurnStart,
        WidgetFrame::TurnEnd => WidgetView::TurnEnd,
        WidgetFrame::TextDelta(t) => WidgetView::TextDelta(t@),
        WidgetFrame::ThinkingDelta(t) => WidgetView::ThinkingDelta(t@),
        WidgetFrame::ToolEnd { tool_use_id, tool_name, ok } => WidgetView::ToolEnd {
            tool_use_id: opt_view(tool_use_id),
            tool_name: tool_name@,
            ok,
        },
        WidgetFrame::ProviderError(m) => WidgetView::ProviderError(m@),
    }
}

/// What a provider failure says when pi gave no text for it.
pub open spec fn fallback_failure() -> Seq<char> {
    "the provider request failed"@
}

/// The delta's own text, falling back to the accumulated text.
pub open spec fn delta_text(delta: Option<String>, text: Option<String>) -> Option<Seq<char>> {
    match delta {
        Some(d) => Some(d@),
        None => opt_view(text),
    }
}

/// What the widget is shown for one of pi's frames, if anything: turn
/// boundaries, prose and thinking deltas, tool ends (`ok` unless pi flagged
/// an error), and provider failures (but not a user's own abort, and only a
/// failed assistant turn); nothing for anything else.
pub open spec fn translate_spec(f: WireFrame) -> Option<WidgetView> {
    match f {
        WireFrame::TurnStart => Some(WidgetView::TurnStart),
        WireFrame::TurnEnd => Some(WidgetView::TurnEnd),
        WireFrame::MessageUpdate(e) => match e {
            AssistantEvent::TextDelta { delta, text } => match delta_text(delta, text) {
                Some(t) => Some(WidgetView::TextDelta(t)),
                None => None,
            },
            AssistantEvent::ThinkingDelta { delta, text } => match delta_text(delta, text) {
                Some(t) => Some(WidgetView::ThinkingDelta(t)),
                None => None,
            },
            AssistantEvent::Error { reason, error_message } => if opt_view(reason) == Some(
                "aborted"@,
            ) {
                None
            } else {
                Some(
                    WidgetView::ProviderError(
                        match error_message {
                            Some(m) => m@,
                            None => fallback_failure(),
                        },
                    ),
                )
            },
            AssistantEvent::Other => None,
        },
        WireFrame::MessageEnd(m) => if m.role@ != "assistant"@ || opt_view(m.stop_reason) != Some(
            "error"@,
        ) {
            None
        } else {
            Some(
                WidgetView::ProviderError(
                    match m.error_message {
                        Some(t) => t@,
                        None => fallback_failure(),
                    },
                ),
            )
        },
        WireFrame::ToolExecutionEnd { tool_name, tool_call_id, is_error } => Some(
            WidgetView::ToolEnd { tool_use_id: opt_view(tool_call_id), tool_name: tool_name@, ok: !is_error },
        ),
        WireFrame::Other => None,
    }
}

fn is_text(s: &String, lit: &str) -> (b: bool)
    ensures
        b == (s@ == lit@),
{
    let a = chars_of(s.as_str());
    let l = chars_of(lit);
    chars_eq(&a, &l)
}

fn pick_text(delta: Option<String>, text: Option<String>) -> (r: Option<String>)
    ensures
        opt_view(r) == delta_text(delta, text),
{
    match delta {
        Some(d) => Some(d),
        None => text,
    }
}

/// Translates one of pi's frames into at most one widget frame.
pub fn translate(f: WireFrame) -> (r: Option<WidgetFrame>)
    ensures
        match r {
            Some(w) => translate_spec(f) == Some(widget_view(w)),
            None => translate_spec(f) is None,
        },
{
    match f {
        WireFrame::TurnStart => Some(WidgetFrame::TurnStart),
        WireFrame::TurnEnd => Some(WidgetFrame::TurnEnd),
        WireFrame::MessageUpdate(e) => match e {
            AssistantEvent::TextDelta { delta, text } => match pick_text(delta, text) {
                Some(t) => Some(WidgetFrame::TextDelta(t)),
                None => None,
            },
            AssistantEvent::ThinkingDelta { delta, text } => match pick_text(delta, text) {
                Some(t) => Some(WidgetFrame::ThinkingDelta(t)),
                None => None,
            },
            AssistantEvent::Error { reason, error_message } => {
                let aborted = match &reason {
                    Some(r) => is_text(r, "aborted"),
                    None => false,
                };
                if aborted {
                    None
                } else {
                    let m = match error_message {
                        Some(m) => m,
                        None => String::from_str("the provider request failed"),
                    };
                    Some(WidgetFrame::ProviderError(m))
                }
            },
            AssistantEvent::Other => None,
        },
        WireFrame::MessageEnd(m) => {
            let failed = is_text(&m.role, "assistant") && match &m.stop_reason {
                Some(s) => is_text(s, "error"),
                None => false,
            };
            if !failed {
                None
            } else {
                let t = match m.error_message {
                    Some(t) => t,
                    None => String::from_str("the provider request failed"),
                };
                Some(WidgetFrame::ProviderError(t))
            }
        },
        WireFrame::ToolExecutionEnd { tool_name, tool_call_id, is_error } => Some(
            WidgetFrame::ToolEnd { tool_use_id: tool_call_id, tool_name, ok: !is_error },
        ),
        WireFrame::Other => None,
    }
}

/// The widget never sees a tool start: of everything pi reports about a tool,
/// only its end is forwarded.
pub proof fn law_no_frame_announces_a_running_tool(f: WireFrame)
    ensures
        translate_spec(f) matches Some(WidgetView::ToolEnd { .. }) ==> f is ToolExecutionEnd,
        f is Other ==> translate_spec(f) is None,
{
}

} // verus!
