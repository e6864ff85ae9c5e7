use web_admin::json::Json;
use web_admin::mcp::{
    hub_unreachable, is_forwardable, proxy_admit, proxy_refusal, render, reply_frame, sse_data_lines, McpContentItem, McpError, McpResponseFrame,
    McpToolResult,
};

fn text_item(t: &str) -> McpContentItem {
    McpContentItem { text: Some(t.to_string()) }
}

fn result_frame(items: Vec<McpContentItem>, structured: Option<Json>, is_error: bool) -> McpResponseFrame {
    McpResponseFrame {
        result: Some(McpToolResult { content: items, is_error, structured_content: structured }),
        error: None,
    }
}

#[test]
fn the_allowlist_is_explicit() {
    assert!(is_forwardable("list_topics"));
    assert!(is_forwardable("fetch_remote_docs"));
    assert!(!is_forwardable("bash"));
    assert!(!is_forwardable(""));
}

/// A JSON-RPC frame read off `text` the way the proxy reads one: an object
/// whose `result` holds the content items' texts, `isError` and any
/// structured content, and whose `error` holds a message.
fn frame_of(text: &str) -> Option<McpResponseFrame> {
    let v: serde_json::Value = serde_json::from_str(text).ok()?;
    let obj = v.as_object()?;
    let result = obj.get("result").filter(|r| !r.is_null()).map(|r| McpToolResult {
        content: r
            .get("content")
            .and_then(|c| c.as_array())
            .map(|items| {
                items
                    .iter()
                    .map(|i| McpContentItem { text: i.get("text").and_then(|t| t.as_str()).map(str::to_string) })
                    .collect()
            })
            .unwrap_or_default(),
        is_error: r.get("isError").and_then(|b| b.as_bool()).unwrap_or(false),
        structured_content: None,
    });
    let error = obj
        .get("error")
        .filter(|e| !e.is_null())
        .map(|e| McpError { message: e.get("message").and_then(|m| m.as_str()).map(str::to_string) });
    Some(McpResponseFrame { result, error })
}

/// The first frame of a hub reply: the whole body when it is one, otherwise
/// the first answering `data:` payload.
fn first_frame(body: &str) -> Option<McpResponseFrame> {
    let whole = frame_of(body);
    let data = if whole.is_some() {
        Vec::new()
    } else {
        sse_data_lines(body).iter().map(|line| frame_of(line)).collect()
    };
    reply_frame(whole, data)
}

#[test]
fn reads_a_frame_out_of_an_sse_body() {
    let body = "data: \nid: 0\nretry: 3000\n\ndata: {\"jsonrpc\":\"2.0\",\"id\":2,\
                \"result\":{\"content\":[{\"type\":\"text\",\"text\":\"hello\"}]}}\n";
    let payloads = sse_data_lines(body);
    assert_eq!(payloads.len(), 2);
    assert_eq!(payloads[0], "");
    let frame = first_frame(body).expect("a frame");
    let rendered = render(&frame);
    assert_eq!(rendered.text, "hello");
    assert!(rendered.ok);
}

#[test]
fn a_plain_json_body_still_parses() {
    let frame = first_frame(r#"{"jsonrpc":"2.0","id":2,"result":{"content":[]}}"#);
    assert!(frame.is_some());
}

#[test]
fn an_error_frame_becomes_text() {
    let frame = first_frame(r#"{"jsonrpc":"2.0","id":2,"error":{"code":-32602,"message":"Unknown topic 'x'"}}"#)
        .expect("a frame");
    let rendered = render(&frame);
    assert!(!rendered.ok);
    assert!(rendered.text.contains("Unknown topic"), "{}", rendered.text);
}

#[test]
fn an_error_without_a_message_still_reads_as_a_refusal() {
    let frame = McpResponseFrame { result: None, error: Some(McpError { message: None }) };
    let rendered = render(&frame);
    assert!(!rendered.ok);
    assert_eq!(rendered.text, "the documentation hub refused the call");
}

#[test]
fn a_frame_with_neither_result_nor_error_renders_empty() {
    let frame = McpResponseFrame { result: None, error: None };
    assert!(!frame.is_answer());
    let rendered = render(&frame);
    assert!(rendered.ok);
    assert_eq!(rendered.text, "");
}

#[test]
fn summaries_join_with_newlines_and_skip_textless_items() {
    let frame = result_frame(
        vec![text_item("a"), McpContentItem { text: None }, text_item("b")],
        None,
        true,
    );
    let rendered = render(&frame);
    assert_eq!(rendered.text, "a\nb");
    assert!(!rendered.ok);
}

#[test]
fn an_artifact_body_follows_the_summary() {
    let artifact = Json::Object(vec![
        ("title".to_string(), Json::Str("Doc".to_string())),
        ("content".to_string(), Json::Str("# Body".to_string())),
    ]);
    let rendered = render(&result_frame(vec![text_item("summary")], Some(artifact), false));
    assert_eq!(rendered.text, "summary\n\n# Body");
}

#[test]
fn an_artifact_body_alone_stands_in_for_a_blank_summary() {
    let nested = Json::Object(vec![(
        "items".to_string(),
        Json::Array(vec![
            Json::Number("1".to_string()),
            Json::Object(vec![("content".to_string(), Json::Str("deep".to_string()))]),
        ]),
    )]);
    let rendered = render(&result_frame(vec![text_item("  ")], Some(nested), false));
    assert_eq!(rendered.text, "deep");
}

#[test]
fn a_blank_artifact_body_is_ignored() {
    let artifact = Json::Object(vec![("content".to_string(), Json::Str("   ".to_string()))]);
    let rendered = render(&result_frame(vec![text_item("s")], Some(artifact), false));
    assert_eq!(rendered.text, "s");
}

#[test]
fn crlf_lines_and_other_fields_are_not_payloads() {
    let lines = sse_data_lines("event: message\r\ndata: one\r\ndata:two\ndata: three");
    assert_eq!(lines, vec!["one".to_string(), "three".to_string()]);
}

fn answer_with(text: &str) -> McpResponseFrame {
    McpResponseFrame {
        result: Some(McpToolResult {
            content: vec![McpContentItem { text: Some(text.to_string()) }],
            is_error: false,
            structured_content: None,
        }),
        error: None,
    }
}

#[test]
fn the_reply_frame_is_the_body_or_the_first_answering_event() {
    let keepalive = McpResponseFrame { result: None, error: None };
    let got = reply_frame(Some(answer_with("whole")), vec![Some(answer_with("event"))]).unwrap();
    assert_eq!(render(&got).text, "whole");
    let got = reply_frame(None, vec![None, Some(keepalive), Some(answer_with("second")), Some(answer_with("third"))])
        .unwrap();
    assert_eq!(render(&got).text, "second");
    assert!(reply_frame(None, vec![None]).is_none());
    assert!(reply_frame(None, Vec::new()).is_none());
}

#[test]
fn the_proxy_answers_unknown_tools_and_refusals_as_the_model_reads_them() {
    assert_eq!(proxy_admit("bash"), Err((400, "unknown tool")));
    assert_eq!(proxy_admit("list_topics"), Ok("mcp__systemprompt__list_topics".to_string()));
    let (result, frame) = proxy_refusal("mcp__systemprompt__list_topics".into(), None, Some("tool_blocklist".into()));
    assert_eq!(result.text, "[GOVERNANCE] denied");
    assert!(!result.ok);
    match frame {
        web_admin::gate::GateFrame::ToolBlocked { tool_use_id, tool_name, reason, policy } => {
            assert!(tool_use_id.is_none());
            assert_eq!(tool_name, "mcp__systemprompt__list_topics");
            assert_eq!(reason, "[GOVERNANCE] denied");
            assert_eq!(policy.as_deref(), Some("tool_blocklist"));
        },
        _ => panic!("expected a ToolBlocked frame"),
    }
    assert_eq!(hub_unreachable(), (502, "the documentation hub is unreachable"));
}
