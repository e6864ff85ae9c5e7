use web_admin::json::Json;
use web_admin::site::{index_body, page_body, parse_md_path, PageEntry};
use web_admin::skills::{escape, scalar};
use web_admin::transcript::{clamp, render, section, StoredFrame, MAX_CHARS};

#[test]
fn a_flat_config_yields_its_scalars() {
    let raw = "id: marketing_copy\ndescription: \"Writes copy\"\nenabled: 'false'\nfile:\n";
    assert_eq!(scalar(raw, "id"), Some("marketing_copy".to_string()));
    assert_eq!(scalar(raw, "description"), Some("Writes copy".to_string()));
    assert_eq!(scalar(raw, "enabled"), Some("false".to_string()));
    assert_eq!(scalar(raw, "file"), None);
    assert_eq!(scalar(raw, "missing"), None);
    assert_eq!(scalar("  id: indented\nid: second", "id"), Some("second".to_string()));
    assert_eq!(scalar("x: \"\"\nx: later", "x"), None);
}

#[test]
fn frontmatter_values_are_escaped() {
    assert_eq!(escape(r#"say "hi" \ bye"#), r#"say \"hi\" \\ bye"#);
    assert_eq!(escape("plain"), "plain");
}

#[test]
fn short_text_is_not_clamped() {
    let t = "a".repeat(MAX_CHARS);
    assert_eq!(clamp(&t), t);
}

#[test]
fn long_text_keeps_both_ends() {
    let t = format!("{}{}", "h".repeat(3_000), "t".repeat(3_000));
    let c = clamp(&t);
    assert_eq!(c, format!("{}\n\n[… elided …]\n\n{}", "h".repeat(2_000), "t".repeat(2_000)));
}

fn obj(entries: &[(&str, Json)]) -> Json {
    Json::Object(entries.iter().map(|(k, v)| (k.to_string(), clone_json(v))).collect())
}

fn clone_json(v: &Json) -> Json {
    match v {
        Json::Null => Json::Null,
        Json::Bool(b) => Json::Bool(*b),
        Json::Number(n) => Json::Number(n.clone()),
        Json::Str(s) => Json::Str(s.clone()),
        Json::Array(items) => Json::Array(items.iter().map(clone_json).collect()),
        Json::Object(e) => Json::Object(e.iter().map(|(k, v)| (k.clone(), clone_json(v))).collect()),
    }
}

#[test]
fn stored_frames_become_sections() {
    let text = obj(&[("text", Json::Str("hello".into()))]);
    assert_eq!(section("user_message", &text), Some("## User\n\nhello".to_string()));
    assert_eq!(section("text_delta", &text), Some("## Assistant\n\nhello".to_string()));
    let ok = obj(&[("tool_name", Json::Str("bash".into())), ("ok", Json::Bool(true))]);
    assert_eq!(section("tool_end", &ok), Some("## Tool\n\n`bash` succeeded.".to_string()));
    let bad = obj(&[("tool_name", Json::Str("bash".into()))]);
    assert_eq!(section("tool_end", &bad), Some("## Tool\n\n`bash` failed.".to_string()));
    assert_eq!(
        section("tool_blocked", &bad),
        Some("## Tool\n\n`bash` was not permitted.".to_string())
    );
    assert_eq!(section("policy_stages", &text), None);
    assert_eq!(section("user_message", &obj(&[("text", Json::Str("  ".into()))])), None);
}

#[test]
fn a_transcript_with_nothing_to_read_is_none() {
    let frames = vec![StoredFrame { kind: "turn_start".into(), body: Json::Null }];
    assert_eq!(render(&frames), None);
    let frames = vec![
        StoredFrame { kind: "user_message".into(), body: obj(&[("text", Json::Str("hi".into()))]) },
        StoredFrame { kind: "turn_start".into(), body: Json::Null },
    ];
    let out = render(&frames).unwrap();
    assert!(out.starts_with("# Earlier in this conversation\n\n"));
    assert!(out.ends_with("something you said, not as something you were told about.\n\n## User\n\nhi\n\n"));
}

#[test]
fn markdown_paths_parse_only_inside_the_grammar() {
    assert_eq!(parse_md_path("documentation/services/ai.md"), Some(("documentation", "services/ai")));
    assert_eq!(parse_md_path("blog/hello-world-2.md"), Some(("blog", "hello-world-2")));
    assert_eq!(parse_md_path("blog/hello"), None);
    assert_eq!(parse_md_path("secret/x.md"), None);
    assert_eq!(parse_md_path("blog/../etc.md"), None);
    assert_eq!(parse_md_path("blog/Upper.md"), None);
    assert_eq!(parse_md_path("blog/a//b.md"), None);
    assert_eq!(parse_md_path("blog/.md"), None);
    assert_eq!(parse_md_path("blog.md"), None);
    let long = format!("blog/{}.md", "a".repeat(201));
    assert_eq!(parse_md_path(&long), None);
    let max = format!("blog/{}.md", "a".repeat(200));
    assert!(parse_md_path(&max).is_some());
}

#[test]
fn the_index_groups_pages_by_section() {
    let page = |s: &str, slug: &str| PageEntry {
        source_id: s.into(),
        slug: slug.into(),
        title: "T".into(),
        description: "D".into(),
    };
    let body = index_body(&vec![page("blog", "a"), page("blog", "b"), page("documentation", "c")]);
    assert_eq!(
        body,
        "# systemprompt.io — page index\n\nEvery public page of this site, as source markdown. \
         Fetch any entry at its listed path.\n\
         \n## blog\n\n- [/md/blog/a.md](/md/blog/a.md) — **T** — D\n\
         - [/md/blog/b.md](/md/blog/b.md) — **T** — D\n\
         \n## documentation\n\n- [/md/documentation/c.md](/md/documentation/c.md) — **T** — D\n"
    );
}

#[test]
fn a_page_is_served_with_its_heading() {
    assert_eq!(page_body("Title", "Desc", "body\n\n  "), "# Title\n\nDesc\n\nbody\n");
}

#[test]
fn a_page_path_round_trips() {
    for (sec, slug) in [("documentation", "services/ai"), ("blog", "launch-2024")] {
        let path = format!("{sec}/{slug}.md");
        assert_eq!(parse_md_path(&path), Some((sec, slug)));
    }
    assert_eq!(parse_md_path("news/x.md"), None);
    assert_eq!(parse_md_path("blog/a//b.md"), None);
}
