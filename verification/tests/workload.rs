use web_admin::config::{ChildLimits, Fallbacks, PiConfig, PiConfigRaw, SandboxMode};
use web_admin::jail::{gateway_port, locate_candidates, wrap_args};
use web_admin::launch::{limited_command, ulimit_command};
use web_admin::models::{catalogue, resolve, GatewayModel};
use web_admin::stats::{
    credit_gauge, facets, model_mix, policy_stages, trace_counts, PerPolicyCounts, RequestRow,
    TraceRow,
};
use web_admin::trace::{
    approver_text, artifact_view, denials, integrity_digest, is_denied, message_views, stage_texts,
    TranscriptMessage,
};
use web_admin::json::Json;

fn fallbacks() -> Fallbacks {
    Fallbacks {
        base_url: "http://127.0.0.1:8080".into(),
        jail_binary: "/usr/bin/sp-pi-jail".into(),
        default_model: "default-model".into(),
    }
}

fn config() -> PiConfig {
    PiConfig::defaults(&fallbacks())
}

#[test]
fn the_gateway_port_comes_from_the_url() {
    assert_eq!(gateway_port("http://127.0.0.1:8080"), Some(8080));
    assert_eq!(gateway_port("https://example.com/path"), Some(443));
    assert_eq!(gateway_port("http://example.com"), Some(80));
    assert_eq!(gateway_port("http://[::1]:9000/x"), Some(9000));
    assert_eq!(gateway_port("http://user:pw@host:7000"), Some(7000));
    assert_eq!(gateway_port("http://host:99999"), Some(80));
    assert_eq!(gateway_port("ftp://host"), None);
    assert_eq!(gateway_port("host:80"), None);
}

#[test]
fn the_jail_argv_names_everything_the_child_may_touch() {
    let args = wrap_args("/ws", &vec!["/usr".to_string(), "/opt/pi".to_string()], "http://h:8080", "pi");
    assert_eq!(
        args,
        vec![
            "--workspace", "/ws", "--allow-read", "/usr", "--allow-read", "/opt/pi",
            "--allow-connect-tcp", "8080", "--", "pi",
        ]
    );
    let no_port = wrap_args("/ws", &vec![], "weird", "/bin/pi");
    assert_eq!(no_port, vec!["--workspace", "/ws", "--", "/bin/pi"]);
}

#[test]
fn a_binary_is_looked_for_along_the_path() {
    assert_eq!(locate_candidates("/opt/pi/bin/pi", "/a:/b"), vec!["/opt/pi/bin/pi"]);
    assert_eq!(locate_candidates("pi", "/a::/b/"), vec!["/a/pi", "/b/pi"]);
    assert_eq!(locate_candidates("pi", ""), Vec::<String>::new());
}

#[test]
fn ceilings_go_on_through_a_shell_preamble() {
    let argv = vec!["pi".to_string(), "--mode".to_string()];
    let none = ulimit_command(ChildLimits { nproc: 0, fsize: 0, address_space: 0 }, true, argv.clone());
    assert_eq!(none.program, "pi");
    assert_eq!(none.args, vec!["--mode"]);
    let all = ulimit_command(
        ChildLimits { nproc: 64, fsize: 10 * 1024 * 1024, address_space: 2048 },
        true,
        argv.clone(),
    );
    assert_eq!(all.program, "/bin/bash");
    assert_eq!(
        all.args,
        vec![
            "-c",
            "ulimit -u 64;ulimit -f 10240 2>/dev/null;ulimit -v 2 2>/dev/null; exec \"$@\"",
            "sh",
            "pi",
            "--mode",
        ]
    );
    let no_bash = ulimit_command(ChildLimits { nproc: 64, fsize: 1024, address_space: 0 }, false, argv);
    assert_eq!(no_bash.program, "/bin/sh");
    assert_eq!(no_bash.args[1], "ulimit -f 1 2>/dev/null; exec \"$@\"");
    let empty = ulimit_command(ChildLimits { nproc: 0, fsize: 0, address_space: 0 }, true, vec![]);
    assert_eq!(empty.program, "");
    assert!(empty.args.is_empty());
}

#[test]
fn a_required_sandbox_without_its_jail_refuses_to_start() {
    let mut raw = PiConfigRaw::default("default-model");
    raw.sandbox = SandboxMode::Required;
    let cfg = PiConfig::from_raw(raw, &fallbacks());
    let err = limited_command(&cfg, "/ws", &vec![], false, true).err().unwrap();
    assert_eq!(
        err,
        "services/config/pi.yaml sets sandbox: required but the jail binary /usr/bin/sp-pi-jail \
         is missing; build sp-pi-jail or set jail_binary"
    );
    let plan = limited_command(&cfg, "/ws", &vec![], true, true).unwrap();
    assert!(plan.args.iter().any(|a| a == "/usr/bin/sp-pi-jail"));
}

fn model(id: &str) -> GatewayModel {
    GatewayModel { id: id.into(), provider: "p".into(), context_window: None, max_output_tokens: None }
}

#[test]
fn the_default_model_leads_the_catalogue() {
    let mut cfg = config();
    cfg.model = "b".into();
    let ids: Vec<String> = catalogue(&cfg, vec![model("a"), model("b"), model("c")])
        .into_iter()
        .map(|m| m.id)
        .collect();
    assert_eq!(ids, vec!["b", "a", "c"]);
    cfg.models = vec!["c".into()];
    let ids: Vec<String> = catalogue(&cfg, vec![model("a"), model("b"), model("c")])
        .into_iter()
        .map(|m| m.id)
        .collect();
    assert_eq!(ids, vec!["b", "c"]);
    let fallback = catalogue(&cfg, vec![]);
    assert_eq!(fallback.len(), 1);
    assert_eq!(fallback[0].id, "b");
}

#[test]
fn a_requested_model_must_be_offered() {
    let mut cfg = config();
    cfg.model = "b".into();
    assert_eq!(resolve(&cfg, vec![model("a")], None), Some("b".to_string()));
    assert_eq!(resolve(&cfg, vec![model("a")], Some(" a ")), Some("a".to_string()));
    assert_eq!(resolve(&cfg, vec![model("a")], Some("z")), None);
}

fn row(model: Option<&str>, latency: Option<i32>) -> RequestRow {
    RequestRow {
        model: model.map(str::to_string),
        provider: None,
        route_match: None,
        requested_model: None,
        latency_ms: latency,
    }
}

#[test]
fn the_model_mix_counts_only_routed_requests() {
    let rows = vec![row(Some("x"), None), row(None, None), row(Some("y"), None), row(Some("y"), None), row(Some("z"), None)];
    let mix = model_mix(&rows);
    let view: Vec<(String, i64, i64)> = mix.into_iter().map(|s| (s.model, s.requests, s.percent)).collect();
    assert_eq!(
        view,
        vec![("y".to_string(), 2, 50), ("x".to_string(), 1, 25), ("z".to_string(), 1, 25)]
    );
    assert!(model_mix(&vec![row(None, None)]).is_empty());
}

#[test]
fn verdicts_are_counted_by_kind_and_outcome() {
    let t = |k: &str, o: &str| TraceRow { kind: k.into(), outcome: o.into() };
    let c = trace_counts(&vec![t("prompt", "deny"), t("tool", "deny"), t("tool", "allow"), t("fire", "x")]);
    assert_eq!((c.allowed, c.denied, c.prompts_blocked, c.tools_blocked, c.tool_calls), (1, 2, 1, 1, 1));
}

#[test]
fn every_configured_stage_is_shown() {
    let stages = vec![("secret_scan".to_string(), "Secrets".to_string()), ("rate".to_string(), "Rate".to_string())];
    let rows = vec![PerPolicyCounts { policy: "rate".into(), allowed: 4, denied: 1 }];
    let out = policy_stages(&stages, &rows);
    assert_eq!((out[0].passed, out[0].failed, out[0].active), (0, 0, false));
    assert_eq!((out[1].passed, out[1].failed, out[1].active), (4, 1, true));
    assert_eq!(out[1].label, "Rate");
}

#[test]
fn the_credit_gauge_clamps_to_the_meter() {
    assert_eq!(credit_gauge(4_830_000, 5_000_000), (96, false));
    assert_eq!(credit_gauge(-10, 5_000_000), (0, true));
    assert_eq!(credit_gauge(9_000_000, 5_000_000), (100, false));
    assert_eq!(credit_gauge(0, 0), (0, false));
}

#[test]
fn facets_read_the_newest_request() {
    let mut newest = row(Some("m"), Some(30));
    newest.requested_model = Some("asked".into());
    let f = facets(&vec![newest, row(Some("m"), Some(10)), row(None, None), row(None, Some(20))]);
    assert_eq!(f.latency_last_ms, Some(30));
    assert_eq!(f.latency_p50_ms, Some(20));
    assert_eq!(f.model.as_deref(), Some("m"));
    assert_eq!(f.requested_model.as_deref(), Some("asked"));
    let mut same = row(Some("m"), None);
    same.requested_model = Some("m".into());
    assert_eq!(facets(&vec![same]).requested_model, None);
    assert_eq!(facets(&vec![]).latency_p50_ms, None);
}

#[test]
fn the_trace_report_marks_and_seals() {
    assert!(is_denied("rejected"));
    assert!(!is_denied("allow"));
    assert_eq!(denials(&vec!["deny".into(), "allow".into(), "failed".into()]), 2);
    let rules = Json::Object(vec![
        (
            "chain".to_string(),
            Json::Array(vec![Json::Object(vec![
                ("policy_id".to_string(), Json::Str("secret_scan".into())),
                ("result".to_string(), Json::Str("fail".into())),
            ])]),
        ),
        (
            "approver".to_string(),
            Json::Object(vec![("username".to_string(), Json::Str("ed".into()))]),
        ),
    ]);
    let stages = stage_texts(&rules);
    assert_eq!(stages.len(), 1);
    assert_eq!((stages[0].policy.as_str(), stages[0].result.as_str(), stages[0].detail.as_str()), ("secret_scan", "fail", ""));
    let ap = approver_text(&rules).unwrap();
    assert_eq!((ap.name.as_str(), ap.action.as_str(), ap.decided_at.is_none()), ("ed", "", true));
    assert!(approver_text(&Json::Null).is_none());
    let msgs = message_views(&vec![
        TranscriptMessage { kind: "user_message".into(), text: "hi".into(), at: "t1".into() },
        TranscriptMessage { kind: "text_delta".into(), text: " ".into(), at: "t2".into() },
        TranscriptMessage { kind: "text_delta".into(), text: "yo".into(), at: "t3".into() },
    ]);
    assert_eq!(msgs.len(), 2);
    assert_eq!((msgs[0].role, msgs[1].role), ("user", "assistant"));
    assert_eq!(
        integrity_digest(b"abc"),
        "ba7816bf8f01cfea414140de5dae2223b00361a396177a9cb410ff61f20015ad"
    );
}

#[test]
fn an_artifact_links_to_its_viewer_and_falls_back_to_its_server() {
    let v = artifact_view("a1", None, "chart".into(), "docs-hub".into());
    assert_eq!(v.ui_href, "/api/public/pi/artifacts/a1/ui");
    assert_eq!(v.title, "docs-hub");
    assert_eq!(v.artifact_type, "chart");
    let v = artifact_view("a2", Some("Spend by day".into()), "chart".into(), "docs-hub".into());
    assert_eq!(v.title, "Spend by day");
    assert_eq!(v.server_name, "docs-hub");
}
