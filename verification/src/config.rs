//! Runtime configuration for the pi web terminal.
//!
//! Raw settings, as read from `services/config/pi.yaml` with every absent key
//! defaulted, are checked by [`PiConfig::validate`] and frozen into a
//! [`PiConfig`]; nothing downstream handles a half-checked config. A file that
//! does not validate is reported and replaced by the all-defaults state.
//! Reading the file, and the two values the environment supplies when a key is
//! absent, are the caller's.
use vstd::prelude::*;

use crate::text::{is_blank, trim, trimmed};

verus! {

/// Whether the child must start inside a Landlock jail. There is no "best
/// effort" value: a boundary that silently downgrades is not a boundary.
#[derive(PartialEq, Eq, Structural, Clone, Copy, Debug)]
pub enum SandboxMode {
    /// No child starts unless the jail confirms it is fully enforced.
    Required,
    Off,
}

/// How a mismatch between the installed pi and `expected_version` is treated.
#[derive(PartialEq, Eq, Structural, Clone, Copy, Debug)]
pub enum VersionCheckMode {
    Off,
    Warn,
    Enforce,
}

/// `timeouts:` in seconds.
#[derive(Clone, Copy)]
pub struct TimeoutsRaw {
    pub approval_secs: u64,
    pub idle_secs: u64,
    pub max_lifetime_secs: u64,
}

/// `sessions:` ceilings.
#[derive(Clone, Copy)]
pub struct SessionsRaw {
    pub max_per_user: usize,
    pub max_total: usize,
}

/// `throttle:` per-address limits on the two minting endpoints.
#[derive(Clone, Copy)]
pub struct ThrottleRaw {
    pub session_per_ip: usize,
    pub embed_token_per_ip: usize,
    pub window_secs: u64,
}

/// `limits:` resource ceilings for the child; zero means unset.
#[derive(Clone, Copy)]
pub struct LimitsRaw {
    pub nproc: u64,
    pub fsize: u64,
    pub address_space: u64,
}

/// The file's settings with every absent key defaulted.
pub struct PiConfigRaw {
    pub binary: String,
    pub expected_version: Option<String>,
    pub version_check: VersionCheckMode,
    pub child_path: String,
    pub workspace_root: String,
    pub base_url: Option<String>,
    pub provider: String,
    pub model: String,
    pub models: Vec<String>,
    pub persona: String,
    pub tools: Vec<String>,
    pub sandbox: SandboxMode,
    pub approve_all: bool,
    pub timeouts: TimeoutsRaw,
    pub sessions: SessionsRaw,
    pub throttle: ThrottleRaw,
    pub limits: LimitsRaw,
    pub jail_binary: Option<String>,
    pub jail_read_paths: Option<Vec<String>>,
    pub mcp_url: String,
}

/// What the environment supplies for keys the file leaves out: the profile's
/// internal URL, `sp-pi-jail` beside the running executable, and the model a
/// session runs when nothing names one.
pub struct Fallbacks {
    pub base_url: String,
    pub jail_binary: String,
    pub default_model: String,
}

/// Resource ceilings the child starts under.
#[derive(Clone, Copy)]
pub struct ChildLimits {
    pub nproc: u64,
    pub fsize: u64,
    pub address_space: u64,
}

/// The checked runtime configuration.
pub struct PiConfig {
    pub binary: String,
    pub expected_version: Option<String>,
    pub version_check: VersionCheckMode,
    pub workspace_root: String,
    pub base_url: String,
    pub provider: String,
    pub model: String,
    pub models: Vec<String>,
    pub persona: String,
    pub tools: Vec<String>,
    pub child_path: String,
    pub approval_timeout_secs: u64,
    pub approve_all: bool,
    pub idle_timeout_secs: u64,
    pub max_lifetime_secs: u64,
    pub max_sessions_per_user: usize,
    pub max_sessions_total: usize,
    pub throttle_session_per_ip: usize,
    pub throttle_embed_token_per_ip: usize,
    pub throttle_window_secs: u64,
    pub limits: ChildLimits,
    pub sandbox: SandboxMode,
    pub jail_binary: String,
    pub jail_read_paths: Vec<String>,
    pub mcp_url: String,
}

/// One problem with the file.
pub struct ConfigError {
    pub field: String,
    pub message: String,
    pub suggestion: Option<String>,
}

/// Everything wrong with the file, in the order it was found.
pub struct ConfigErrors {
    pub extension: String,
    pub errors: Vec<ConfigError>,
}

/// The tools a session may use by default. Read-only on purpose.
pub open spec fn default_tools() -> Seq<Seq<char>> {
    seq![
        "read"@,
        "mcp__systemprompt__list_topics"@,
        "mcp__systemprompt__get_topic"@,
        "mcp__systemprompt__search_docs"@,
        "mcp__systemprompt__governance_stats"@,
        "mcp__systemprompt__fetch_remote_docs"@,
    ]
}

/// The directories the jailed child may read and execute from by default.
/// `/proc` is deliberately absent: `/proc/<server-pid>/environ` holds the
/// server's secrets.
pub open spec fn default_jail_read_paths() -> Seq<Seq<char>> {
    seq![
        "/usr/bin"@,
        "/usr/lib"@,
        "/usr/local/bin"@,
        "/usr/local/lib"@,
        "/bin"@,
        "/lib"@,
        "/lib64"@,
        "/etc/ssl"@,
        "/etc/ca-certificates"@,
        "/etc/resolv.conf"@,
        "/etc/hosts"@,
        "/etc/nsswitch.conf"@,
        "/dev/null"@,
        "/dev/urandom"@,
    ]
}

pub open spec fn strings_view(v: Seq<String>) -> Seq<Seq<char>> {
    v.map_values(|s: String| s@)
}

proof fn lemma_strings_view_push(v: Seq<String>, s: String)
    ensures
        strings_view(v.push(s)) == strings_view(v).push(s@),
{
    assert(strings_view(v.push(s)) =~= strings_view(v).push(s@));
}

fn strings_of(items: &[&str]) -> (out: Vec<String>)
    ensures
        strings_view(out@) == items@.map_values(|s: &str| s@),
{
    let mut out: Vec<String> = Vec::new();
    let mut i: usize = 0;
    while i < items.len()
        invariant
            i <= items.len(),
            strings_view(out@) == items@.map_values(|s: &str| s@).take(i as int),
        decreases items.len() - i,
    {
        let s = String::from_str(items[i]);
        proof {
            lemma_strings_view_push(out@, s);
        }
        out.push(s);
        i = i + 1;
        assert(strings_view(out@) =~= items@.map_values(|s: &str| s@).take(i as int));
    }
    assert(items@.map_values(|s: &str| s@).take(items.len() as int) =~= items@.map_values(
        |s: &str| s@,
    ));
    out
}

/// The default tool list.
pub fn default_tool_list() -> (out: Vec<String>)
    ensures
        strings_view(out@) == default_tools(),
{
    let items: [&str; 6] = [
        "read",
        "mcp__systemprompt__list_topics",
        "mcp__systemprompt__get_topic",
        "mcp__systemprompt__search_docs",
        "mcp__systemprompt__governance_stats",
        "mcp__systemprompt__fetch_remote_docs",
    ];
    let out = strings_of(&items);
    assert(items@.map_values(|s: &str| s@) =~= default_tools());
    out
}

/// The default read-execute paths of the jail.
pub fn default_jail_read_path_list() -> (out: Vec<String>)
    ensures
        strings_view(out@) == default_jail_read_paths(),
{
    let items: [&str; 14] = [
        "/usr/bin",
        "/usr/lib",
        "/usr/local/bin",
        "/usr/local/lib",
        "/bin",
        "/lib",
        "/lib64",
        "/etc/ssl",
        "/etc/ca-certificates",
        "/etc/resolv.conf",
        "/etc/hosts",
        "/etc/nsswitch.conf",
        "/dev/null",
        "/dev/urandom",
    ];
    let out = strings_of(&items);
    assert(items@.map_values(|s: &str| s@) =~= default_jail_read_paths());
    out
}

impl TimeoutsRaw {
    pub fn default() -> (t: TimeoutsRaw)
        ensures
            t.approval_secs == 120,
            t.idle_secs == 600,
            t.max_lifetime_secs == 3_600,
    {
        TimeoutsRaw { approval_secs: 120, idle_secs: 600, max_lifetime_secs: 3_600 }
    }
}

impl SessionsRaw {
    pub fn default() -> (s: SessionsRaw)
        ensures
            s.max_per_user == 1,
            s.max_total == 8,
    {
        SessionsRaw { max_per_user: 1, max_total: 8 }
    }
}

impl ThrottleRaw {
    /// Both lanes off (a zero limit lets everything through), over a minute.
    pub fn default() -> (t: ThrottleRaw)
        ensures
            t.session_per_ip == 0,
            t.embed_token_per_ip == 0,
            t.window_secs == 60,
    {
        ThrottleRaw { session_per_ip: 0, embed_token_per_ip: 0, window_secs: 60 }
    }
}

impl LimitsRaw {
    /// Only the per-file size limit is on by default, at 64 MiB.
    pub fn default() -> (l: LimitsRaw)
        ensures
            l.nproc == 0,
            l.fsize == 64 * 1024 * 1024,
            l.address_space == 0,
    {
        LimitsRaw { nproc: 0, fsize: 64 * 1024 * 1024, address_space: 0 }
    }
}

/// The all-defaults state, field by field, with `model` as the default model.
pub open spec fn is_default_raw(r: PiConfigRaw, model: Seq<char>) -> bool {
    &&& r.binary@ == "pi"@
    &&& r.expected_version is None
    &&& r.version_check == VersionCheckMode::Warn
    &&& r.child_path@ == "/usr/local/bin:/usr/bin:/bin"@
    &&& r.workspace_root@ == "/tmp/systemprompt-pi-sessions"@
    &&& r.base_url is None
    &&& r.provider@ == "systemprompt"@
    &&& r.model@ == model
    &&& r.models@.len() == 0
    &&& r.persona@ == Seq::<char>::empty()
    &&& strings_view(r.tools@) == default_tools()
    &&& r.sandbox == SandboxMode::Required
    &&& r.approve_all
    &&& r.timeouts.approval_secs == 120
    &&& r.timeouts.idle_secs == 600
    &&& r.timeouts.max_lifetime_secs == 3_600
    &&& r.sessions.max_per_user == 1
    &&& r.sessions.max_total == 8
    &&& r.throttle.session_per_ip == 0
    &&& r.throttle.embed_token_per_ip == 0
    &&& r.throttle.window_secs == 60
    &&& r.limits.nproc == 0
    &&& r.limits.fsize == 64 * 1024 * 1024
    &&& r.limits.address_space == 0
    &&& r.jail_binary is None
    &&& r.jail_read_paths is None
    &&& r.mcp_url@ == "http://127.0.0.1:5010/mcp"@
}

impl PiConfigRaw {
    /// The all-defaults state: what a missing file means, running
    /// `default_model` unless the file names another.
    pub fn default(default_model: &str) -> (r: PiConfigRaw)
        ensures
            is_default_raw(r, default_model@),
    {
        PiConfigRaw {
            binary: String::from_str("pi"),
            expected_version: None,
            version_check: VersionCheckMode::Warn,
            child_path: String::from_str("/usr/local/bin:/usr/bin:/bin"),
            workspace_root: String::from_str("/tmp/systemprompt-pi-sessions"),
            base_url: None,
            provider: String::from_str("systemprompt"),
            model: String::from_str(default_model),
            models: Vec::new(),
            persona: String::new(),
            tools: default_tool_list(),
            sandbox: SandboxMode::Required,
            approve_all: true,
            timeouts: TimeoutsRaw::default(),
            sessions: SessionsRaw::default(),
            throttle: ThrottleRaw::default(),
            limits: LimitsRaw::default(),
            jail_binary: None,
            jail_read_paths: None,
            mcp_url: String::from_str("http://127.0.0.1:5010/mcp"),
        }
    }
}

/// The entries of a list trimmed, blank ones dropped, order kept.
pub open spec fn clean_list(v: Seq<Seq<char>>) -> Seq<Seq<char>>
    decreases v.len(),
{
    if v.len() == 0 {
        seq![]
    } else {
        let p = clean_list(v.drop_last());
        if trim(v.last()).len() == 0 {
            p
        } else {
            p.push(trim(v.last()))
        }
    }
}

/// Trim every entry and drop the blank ones.
pub fn cleaned(v: &Vec<String>) -> (out: Vec<String>)
    ensures
        strings_view(out@) == clean_list(strings_view(v@)),
{
    let mut out: Vec<String> = Vec::new();
    let mut i: usize = 0;
    let ghost sv = strings_view(v@);
    assert(sv.take(0) =~= Seq::<Seq<char>>::empty());
    assert(strings_view(out@) =~= Seq::<Seq<char>>::empty());
    while i < v.len()
        invariant
            sv == strings_view(v@),
            i <= v.len(),
            strings_view(out@) == clean_list(sv.take(i as int)),
        decreases v.len() - i,
    {
        proof {
            let t = sv.take(i + 1);
            assert(t.drop_last() =~= sv.take(i as int));
            assert(t.last() == v@[i as int]@);
        }
        let t = trimmed(v[i].as_str());
        if t.unicode_len() > 0 {
            let ghost before = out@;
            let ghost tv = t@;
            out.push(t);
            assert(strings_view(out@) =~= strings_view(before).push(tv));
        }
        i = i + 1;
    }
    assert(sv.take(v.len() as int) =~= sv);
    out
}

/// Whether every entry is blank (vacuously so for an empty list).
pub open spec fn all_blank(v: Seq<Seq<char>>) -> bool {
    forall|i: int| 0 <= i < v.len() ==> is_blank(#[trigger] v[i])
}

/// One problem as the contracts see it: field, message and suggestion.
pub type ProblemV = (Seq<char>, Seq<char>, Option<Seq<char>>);

pub open spec fn problem_view(e: ConfigError) -> ProblemV {
    (
        e.field@,
        e.message@,
        match e.suggestion {
            Some(s) => Some(s@),
            None => None,
        },
    )
}

pub open spec fn opt_problem(cond: bool, p: ProblemV) -> Seq<ProblemV> {
    if cond {
        seq![p]
    } else {
        seq![]
    }
}

pub open spec fn zero_timeout(field: Seq<char>) -> ProblemV {
    (
        field,
        "Zero is not a timeout; it would expire immediately"@,
        Some("Give a positive number of seconds, or omit the key to take the default"@),
    )
}

/// Every problem with a raw configuration, in the order they are checked.
pub open spec fn problems(raw: PiConfigRaw) -> Seq<ProblemV> {
    opt_problem(
        all_blank(strings_view(raw.tools@)),
        (
            "tools"@,
            "At least one tool is required; a session with no tools cannot do anything"@,
            Some("Use the default: tools: [read]"@),
        ),
    ) + opt_problem(
        is_blank(raw.binary@),
        (
            "binary"@,
            "The pi binary name cannot be empty"@,
            Some("Use `pi` and make sure it is on `child_path`"@),
        ),
    ) + opt_problem(raw.timeouts.approval_secs == 0, zero_timeout("timeouts.approval_secs"@))
        + opt_problem(raw.timeouts.idle_secs == 0, zero_timeout("timeouts.idle_secs"@))
        + opt_problem(
        raw.timeouts.max_lifetime_secs == 0,
        zero_timeout("timeouts.max_lifetime_secs"@),
    ) + opt_problem(
        raw.sessions.max_per_user == 0,
        (
            "sessions.max_per_user"@,
            "Zero would refuse every session"@,
            Some("Use 1, or raise it to allow concurrent conversations per account"@),
        ),
    ) + opt_problem(
        raw.sessions.max_total == 0,
        (
            "sessions.max_total"@,
            "Zero would refuse every session"@,
            Some("Use 8, or size it to what the host can carry"@),
        ),
    )
}

pub open spec fn opt_string_view(o: Option<String>) -> Option<Seq<char>> {
    match o {
        Some(s) => Some(s@),
        None => None,
    }
}

/// The runtime configuration a raw one freezes into.
pub open spec fn from_raw_spec(raw: PiConfigRaw, fallbacks: Fallbacks, cfg: PiConfig) -> bool {
    &&& cfg.binary@ == raw.binary@
    &&& opt_string_view(cfg.expected_version) == match raw.expected_version {
        Some(v) => if trim(v@).len() == 0 {
            None
        } else {
            Some(trim(v@))
        },
        None => None,
    }
    &&& cfg.version_check == raw.version_check
    &&& cfg.workspace_root@ == raw.workspace_root@
    &&& cfg.base_url@ == match raw.base_url {
        Some(u) => u@,
        None => fallbacks.base_url@,
    }
    &&& cfg.provider@ == raw.provider@
    &&& cfg.model@ == raw.model@
    &&& strings_view(cfg.models@) == clean_list(strings_view(raw.models@))
    &&& cfg.persona@ == raw.persona@
    &&& strings_view(cfg.tools@) == clean_list(strings_view(raw.tools@))
    &&& cfg.child_path@ == raw.child_path@
    &&& cfg.approval_timeout_secs == raw.timeouts.approval_secs
    &&& cfg.approve_all == raw.approve_all
    &&& cfg.idle_timeout_secs == raw.timeouts.idle_secs
    &&& cfg.max_lifetime_secs == raw.timeouts.max_lifetime_secs
    &&& cfg.max_sessions_per_user == raw.sessions.max_per_user
    &&& cfg.max_sessions_total == raw.sessions.max_total
    &&& cfg.throttle_session_per_ip == raw.throttle.session_per_ip
    &&& cfg.throttle_embed_token_per_ip == raw.throttle.embed_token_per_ip
    &&& cfg.throttle_window_secs == if raw.throttle.window_secs >= 1 {
        raw.throttle.window_secs
    } else {
        1
    }
    &&& cfg.limits.nproc == raw.limits.nproc
    &&& cfg.limits.fsize == raw.limits.fsize
    &&& cfg.limits.address_space == raw.limits.address_space
    &&& cfg.sandbox == raw.sandbox
    &&& cfg.jail_binary@ == match raw.jail_binary {
        Some(b) => b@,
        None => fallbacks.jail_binary@,
    }
    &&& strings_view(cfg.jail_read_paths@) == match raw.jail_read_paths {
        Some(p) => strings_view(p@),
        None => default_jail_read_paths(),
    }
    &&& cfg.mcp_url@ == raw.mcp_url@
}

fn clone_strings(v: &Vec<String>) -> (out: Vec<String>)
    ensures
        strings_view(out@) == strings_view(v@),
{
    let mut out: Vec<String> = Vec::new();
    let mut i: usize = 0;
    while i < v.len()
        invariant
            i <= v.len(),
            strings_view(out@) == strings_view(v@).take(i as int),
        decreases v.len() - i,
    {
        let s = v[i].clone();
        proof {
            lemma_strings_view_push(out@, s);
        }
        out.push(s);
        i = i + 1;
        assert(strings_view(out@) =~= strings_view(v@).take(i as int));
    }
    assert(strings_view(v@).take(v.len() as int) =~= strings_view(v@));
    out
}

fn problem(field: &str, message: &str, suggestion: &str) -> (e: ConfigError)
    ensures
        problem_view(e) == (field@, message@, Some(suggestion@)),
{
    ConfigError {
        field: String::from_str(field),
        message: String::from_str(message),
        suggestion: Some(String::from_str(suggestion)),
    }
}

fn all_blank_exec(v: &Vec<String>) -> (b: bool)
    ensures
        b == all_blank(strings_view(v@)),
{
    let mut i: usize = 0;
    while i < v.len()
        invariant
            i <= v.len(),
            forall|k: int| 0 <= k < i ==> is_blank(#[trigger] strings_view(v@)[k]),
        decreases v.len() - i,
    {
        let t = trimmed(v[i].as_str());
        if t.unicode_len() > 0 {
            assert(!is_blank(strings_view(v@)[i as int]));
            return false;
        }
        i = i + 1;
    }
    true
}

pub open spec fn problems_view(v: Seq<ConfigError>) -> Seq<ProblemV> {
    v.map_values(|e: ConfigError| problem_view(e))
}

fn push_if(errors: &mut Vec<ConfigError>, cond: bool, e: ConfigError)
    ensures
        problems_view(final(errors)@) == problems_view(old(errors)@) + opt_problem(
            cond,
            problem_view(e),
        ),
{
    let ghost before = errors@;
    if cond {
        let ghost ev = problem_view(e);
        errors.push(e);
        assert(problems_view(errors@) =~= problems_view(before) + seq![ev]);
    } else {
        assert(problems_view(errors@) =~= problems_view(before));
    }
}

fn zero_timeout_problem(field: &str) -> (e: ConfigError)
    ensures
        problem_view(e) == zero_timeout(field@),
{
    problem(
        field,
        "Zero is not a timeout; it would expire immediately",
        "Give a positive number of seconds, or omit the key to take the default",
    )
}

impl PiConfig {
    /// Freeze checked raw settings into the runtime type.
    pub fn from_raw(raw: PiConfigRaw, fallbacks: &Fallbacks) -> (cfg: PiConfig)
        ensures
            from_raw_spec(raw, *fallbacks, cfg),
    {
        let expected_version = match &raw.expected_version {
            Some(v) => {
                let t = trimmed(v.as_str());
                if t.unicode_len() == 0 {
                    None
                } else {
                    Some(t)
                }
            },
            None => None,
        };
        let base_url = match &raw.base_url {
            Some(u) => u.clone(),
            None => fallbacks.base_url.clone(),
        };
        let jail_binary = match &raw.jail_binary {
            Some(b) => b.clone(),
            None => fallbacks.jail_binary.clone(),
        };
        let jail_read_paths = match &raw.jail_read_paths {
            Some(p) => clone_strings(p),
            None => default_jail_read_path_list(),
        };
        let models = cleaned(&raw.models);
        let tools = cleaned(&raw.tools);
        let window = if raw.throttle.window_secs >= 1 {
            raw.throttle.window_secs
        } else {
            1
        };
        PiConfig {
            binary: raw.binary,
            expected_version,
            version_check: raw.version_check,
            workspace_root: raw.workspace_root,
            base_url,
            provider: raw.provider,
            model: raw.model,
            models,
            persona: raw.persona,
            tools,
            child_path: raw.child_path,
            approval_timeout_secs: raw.timeouts.approval_secs,
            approve_all: raw.approve_all,
            idle_timeout_secs: raw.timeouts.idle_secs,
            max_lifetime_secs: raw.timeouts.max_lifetime_secs,
            max_sessions_per_user: raw.sessions.max_per_user,
            max_sessions_total: raw.sessions.max_total,
            throttle_session_per_ip: raw.throttle.session_per_ip,
            throttle_embed_token_per_ip: raw.throttle.embed_token_per_ip,
            throttle_window_secs: window,
            limits: ChildLimits {
                nproc: raw.limits.nproc,
                fsize: raw.limits.fsize,
                address_space: raw.limits.address_space,
            },
            sandbox: raw.sandbox,
            jail_binary,
            jail_read_paths,
            mcp_url: raw.mcp_url,
        }
    }

    /// Check raw settings: the configuration they freeze into, or every
    /// problem found.
    pub fn validate(raw: PiConfigRaw, fallbacks: &Fallbacks) -> (r: Result<PiConfig, ConfigErrors>)
        ensures
            match r {
                Ok(cfg) => problems(raw).len() == 0 && from_raw_spec(raw, *fallbacks, cfg),
                Err(e) => problems(raw).len() > 0 && problems_view(e.errors@) == problems(raw)
                    && e.extension@ == "pi"@,
            },
    {
        let mut errors: Vec<ConfigError> = Vec::new();
        assert(problems_view(errors@) =~= Seq::<ProblemV>::empty());
        let blank_tools = all_blank_exec(&raw.tools);
        push_if(
            &mut errors,
            blank_tools,
            problem(
                "tools",
                "At least one tool is required; a session with no tools cannot do anything",
                "Use the default: tools: [read]",
            ),
        );
        let b = trimmed(raw.binary.as_str());
        push_if(
            &mut errors,
            b.unicode_len() == 0,
            problem(
                "binary",
                "The pi binary name cannot be empty",
                "Use `pi` and make sure it is on `child_path`",
            ),
        );
        push_if(
            &mut errors,
            raw.timeouts.approval_secs == 0,
            zero_timeout_problem("timeouts.approval_secs"),
        );
        push_if(&mut errors, raw.timeouts.idle_secs == 0, zero_timeout_problem("timeouts.idle_secs"));
        push_if(
            &mut errors,
            raw.timeouts.max_lifetime_secs == 0,
            zero_timeout_problem("timeouts.max_lifetime_secs"),
        );
        push_if(
            &mut errors,
            raw.sessions.max_per_user == 0,
            problem(
                "sessions.max_per_user",
                "Zero would refuse every session",
                "Use 1, or raise it to allow concurrent conversations per account",
            ),
        );
        push_if(
            &mut errors,
            raw.sessions.max_total == 0,
            problem(
                "sessions.max_total",
                "Zero would refuse every session",
                "Use 8, or size it to what the host can carry",
            ),
        );
        assert(problems_view(errors@) =~= problems(raw));
        if errors.len() == 0 {
            Ok(Self::from_raw(raw, fallbacks))
        } else {
            Err(ConfigErrors { extension: String::from_str("pi"), errors })
        }
    }

    /// The all-defaults configuration the terminal falls back to when the
    /// file does not validate.
    pub fn defaults(fallbacks: &Fallbacks) -> (cfg: PiConfig)
        ensures
            exists|raw: PiConfigRaw|
                is_default_raw(raw, fallbacks.default_model@) && from_raw_spec(raw, *fallbacks, cfg),
    {
        let raw = PiConfigRaw::default(fallbacks.default_model.as_str());
        let ghost r = raw;
        let cfg = Self::from_raw(raw, fallbacks);
        assert(is_default_raw(r, fallbacks.default_model@) && from_raw_spec(r, *fallbacks, cfg));
        cfg
    }

    pub fn model_name(&self) -> (s: &str)
        ensures
            s@ == self.model@,
    {
        self.model.as_str()
    }

    pub fn base_url(&self) -> (s: &str)
        ensures
            s@ == self.base_url@,
    {
        self.base_url.as_str()
    }

    pub fn tools(&self) -> (t: &[String])
        ensures
            t@ == self.tools@,
    {
        self.tools.as_slice()
    }

    pub fn sandbox(&self) -> (m: SandboxMode)
        ensures
            m == self.sandbox,
    {
        self.sandbox
    }

    pub fn expected_version(&self) -> (v: Option<&str>)
        ensures
            match v {
                Some(s) => self.expected_version matches Some(e) && s@ == e@,
                None => self.expected_version is None,
            },
    {
        match &self.expected_version {
            Some(e) => Some(e.as_str()),
            None => None,
        }
    }

    pub fn version_check(&self) -> (m: VersionCheckMode)
        ensures
            m == self.version_check,
    {
        self.version_check
    }

    pub fn approve_all(&self) -> (b: bool)
        ensures
            b == self.approve_all,
    {
        self.approve_all
    }

    pub fn jail_read_paths(&self) -> (p: &[String])
        ensures
            p@ == self.jail_read_paths@,
    {
        self.jail_read_paths.as_slice()
    }

    /// Whether the startup warning about running unsandboxed applies: pi
    /// children then run with this process's filesystem access.
    pub fn warn_if_unsandboxed(&self) -> (b: bool)
        ensures
            b == (self.sandbox == SandboxMode::Off),
    {
        self.sandbox == SandboxMode::Off
    }
}

} // verus!
