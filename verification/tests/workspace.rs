use web_admin::admission::{orphaned_workspaces, WorkspaceDir, WORKSPACE_GRACE_MS};
use web_admin::config::{Fallbacks, PiConfig};
use web_admin::json::Json;
use web_admin::launch::models_document;
use web_admin::skills::{read_header, skill_command, skill_file, sort_by_slug, Skill};

fn skill(slug: &str, description: &str) -> Skill {
    Skill {
        slug: slug.to_string(),
        description: description.to_string(),
        body: String::new(),
    }
}

#[test]
fn a_skill_config_yields_its_slug_description_and_file() {
    let h = read_header("id: code_review\ndescription: \"Reviews code\"\n")
        .unwrap()
        .unwrap();
    assert_eq!(h.slug, "code-review");
    assert_eq!(h.description, "Reviews code");
    assert_eq!(h.file, "SKILL.md");

    let h = read_header("id: x\ndescription: d\nfile: body.md\n").unwrap().unwrap();
    assert_eq!(h.file, "body.md");
}

#[test]
fn a_disabled_or_incomplete_skill_config() {
    assert!(read_header("enabled: false\nid: x\ndescription: d\n").unwrap().is_none());
    assert!(read_header("enabled: true\nid: x\ndescription: d\n").unwrap().is_some());
    assert_eq!(read_header("description: d\n").err(), Some("no `id:`".to_string()));
    assert_eq!(read_header("id: x\n").err(), Some("no `description:`".to_string()));
}

#[test]
fn the_skill_file_carries_escaped_frontmatter() {
    assert_eq!(
        skill_file("code-review", "say \"hi\" \\ bye", "Body\n"),
        "---\nname: \"code-review\"\ndescription: \"say \\\"hi\\\" \\\\ bye\"\n---\n\nBody\n"
    );
    assert_eq!(skill_command("code-review"), "/skill:code-review");
}

#[test]
fn skills_are_ordered_by_slug_keeping_ties_in_place() {
    let out = sort_by_slug(vec![
        skill("zeta", "1"),
        skill("alpha", "2"),
        skill("beta", "3"),
        skill("alpha", "4"),
        skill("Beta", "5"),
        skill("alphabet", "6"),
    ]);
    let got: Vec<(String, String)> = out.into_iter().map(|s| (s.slug, s.description)).collect();
    let want: Vec<(String, String)> = [("Beta", "5"), ("alpha", "2"), ("alpha", "4"), ("alphabet", "6"), ("beta", "3"), ("zeta", "1")]
        .iter()
        .map(|(a, b)| (a.to_string(), b.to_string()))
        .collect();
    assert_eq!(got, want);
    assert!(sort_by_slug(Vec::new()).is_empty());
}

#[test]
fn only_old_unowned_workspaces_are_swept() {
    let dirs = vec![
        WorkspaceDir { name: "live-1".into(), age_ms: Some(WORKSPACE_GRACE_MS * 3) },
        WorkspaceDir { name: "dead-1".into(), age_ms: Some(WORKSPACE_GRACE_MS) },
        WorkspaceDir { name: "young".into(), age_ms: Some(WORKSPACE_GRACE_MS - 1) },
        WorkspaceDir { name: "unknown".into(), age_ms: None },
        WorkspaceDir { name: "dead-2".into(), age_ms: Some(u64::MAX) },
    ];
    assert_eq!(
        orphaned_workspaces(&dirs, &vec!["live-1".to_string()]),
        vec!["dead-1".to_string(), "dead-2".to_string()]
    );
    assert!(orphaned_workspaces(&Vec::new(), &Vec::new()).is_empty());
}

fn text(v: &Json) -> Option<&str> {
    match v {
        Json::Str(s) => Some(s.as_str()),
        _ => None,
    }
}

fn field<'a>(v: &'a Json, key: &str) -> &'a Json {
    match v {
        Json::Object(entries) => &entries.iter().find(|(k, _)| k == key).expect("field").1,
        _ => panic!("not an object"),
    }
}

#[test]
fn the_models_file_points_pi_at_the_gateway() {
    let cfg = PiConfig::defaults(&Fallbacks {
        base_url: "http://127.0.0.1:8080".into(),
        jail_binary: "/usr/bin/sp-pi-jail".into(),
        default_model: "default-model".into(),
    });
    let doc = models_document(&cfg, "sp-live-key");
    let provider = field(field(&doc, "providers"), &cfg.provider);
    assert_eq!(text(field(provider, "baseUrl")), Some("http://127.0.0.1:8080"));
    assert_eq!(text(field(provider, "api")), Some("anthropic-messages"));
    assert_eq!(text(field(provider, "apiKey")), Some("sp-live-key"));
    let model = match field(provider, "models") {
        Json::Array(items) => &items[0],
        _ => panic!("models is not an array"),
    };
    assert_eq!(text(field(model, "id")), Some("default-model"));
    assert!(matches!(field(model, "reasoning"), Json::Bool(true)));
    assert!(matches!(field(model, "contextWindow"), Json::Number(n) if n == "200000"));
    assert!(matches!(field(model, "maxTokens"), Json::Number(n) if n == "8000"));
}
