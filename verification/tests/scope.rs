use web_admin::json::Json;
use web_admin::scope::{input_escape_reason, link_escape_reason};

fn input(path: &str) -> Json {
    Json::Object(vec![("path".to_string(), Json::Str(path.to_string()))])
}

#[test]
fn allows_paths_inside_the_workspace() {
    let ws = "/tmp/pi/abc";
    assert!(input_escape_reason(ws, Some(&input("README.md"))).is_none());
    assert!(input_escape_reason(ws, Some(&input("./sub/dir/x.txt"))).is_none());
    assert!(input_escape_reason(ws, Some(&input("/tmp/pi/abc/home/x"))).is_none());
    assert!(input_escape_reason(ws, Some(&input("sub/../README.md"))).is_none());
}

#[test]
fn rejects_every_way_out() {
    let ws = "/tmp/pi/abc";
    for path in [
        "/var/www/html/systemprompt-demo/.systemprompt/profiles/local/secrets.json",
        "~/.pi/agent/models.json",
        "../../../etc/passwd",
        "../def/home/.pi/agent/models.json",
        "/proc/self/environ",
    ] {
        assert!(
            input_escape_reason(ws, Some(&input(path))).is_some(),
            "{path} should have been refused"
        );
    }
}

#[test]
fn does_not_confuse_a_sibling_prefix_for_containment() {
    assert!(input_escape_reason("/tmp/pi/abc", Some(&input("/tmp/pi/abcdef/x"))).is_some());
}

#[test]
fn ignores_calls_with_no_path_argument() {
    let ws = "/tmp/pi/abc";
    assert!(input_escape_reason(ws, None).is_none());
    let args = Json::Object(vec![("pattern".to_string(), Json::Str("TODO".to_string()))]);
    assert!(input_escape_reason(ws, Some(&args)).is_none());
}

#[test]
fn each_way_out_is_named_for_what_it_is() {
    let ws = "/tmp/pi/abc";
    assert_eq!(
        input_escape_reason(ws, Some(&input("~/x"))).unwrap(),
        "path `~/x` refers to a home directory outside the session workspace"
    );
    assert_eq!(
        input_escape_reason(ws, Some(&input("/etc/passwd"))).unwrap(),
        "path `/etc/passwd` is outside the session workspace"
    );
    assert_eq!(
        input_escape_reason(ws, Some(&input("../x"))).unwrap(),
        "path `../x` traverses out of the session workspace"
    );
}

#[test]
fn file_path_is_read_when_path_is_not_a_string() {
    let args = Json::Object(vec![
        ("path".to_string(), Json::Number("3".to_string())),
        ("file_path".to_string(), Json::Str("/etc/shadow".to_string())),
    ]);
    assert!(input_escape_reason("/tmp/pi/abc", Some(&args)).is_some());
}

#[test]
fn a_link_out_of_the_workspace_is_refused_by_where_it_resolves() {
    assert_eq!(link_escape_reason("/tmp/pi/abc", "notes.txt", None), None);
    assert_eq!(link_escape_reason("/tmp/pi/abc", "notes.txt", Some("/tmp/pi/abc/notes.txt")), None);
    assert_eq!(
        link_escape_reason("/tmp/pi/abc", "notes.txt", Some("/etc/passwd")),
        Some("path `notes.txt` resolves through a link to /etc/passwd, outside the session workspace".to_string())
    );
    assert_eq!(
        link_escape_reason("/tmp/pi/abc", "x", Some("/tmp/pi/abcdef/x")),
        Some("path `x` resolves through a link to /tmp/pi/abcdef/x, outside the session workspace".to_string())
    );
}
