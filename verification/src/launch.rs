//! The command line a pi child is started with.
//!
//! Resource ceilings go on through a one-line shell preamble (`ulimit …;
//! exec "$@"`) rather than `setrlimit` in a `pre_exec` hook, which would need
//! `unsafe`. No argument is ever interpolated into the script text: the binary
//! and its argv arrive positionally through `"$@"`, so the preamble adds no
//! quoting surface. When the sandbox is required the child runs inside the
//! jail, and a missing jail is an error rather than a silent fallback to an
//! unsandboxed child.
use vstd::prelude::*;

use crate::config::{ChildLimits, PiConfig, SandboxMode};
use crate::decimal::{decimal, u64_to_string};
use crate::jail::{strs_view, wrap_args, wrap_args_spec};
use crate::json::Json;
use crate::text::push_str;

verus! {

/// A program and the arguments it is started with.
pub struct LaunchPlan {
    pub program: String,
    pub args: Vec<String>,
}

/// The `ulimit` clauses for the configured ceilings, in order: processes
/// (only when bash is there to apply it; dash has no `ulimit -u`), then file
/// size and address space, both converted from bytes to 1 KiB blocks.
pub open spec fn ulimit_script(limits: ChildLimits, bash_available: bool) -> Seq<char> {
    (if limits.nproc > 0 && bash_available {
        "ulimit -u "@ + decimal(limits.nproc as int) + ";"@
    } else {
        Seq::empty()
    }) + (if limits.fsize > 0 {
        "ulimit -f "@ + decimal((limits.fsize / 1024) as int) + " 2>/dev/null;"@
    } else {
        Seq::empty()
    }) + (if limits.address_space > 0 {
        "ulimit -v "@ + decimal((limits.address_space / 1024) as int) + " 2>/dev/null;"@
    } else {
        Seq::empty()
    })
}

/// The program and arguments that start `argv` under the ceilings: with no
/// ceiling to set, `argv` itself; otherwise a shell (bash when it is needed
/// for the process cap and present) running the preamble and then `exec
/// "$@"`, with `sh` as its `$0` and `argv` after it.
pub open spec fn ulimit_plan(limits: ChildLimits, bash_available: bool, argv: Seq<Seq<char>>) -> (
    Seq<char>,
    Seq<Seq<char>>,
) {
    let script = ulimit_script(limits, bash_available);
    if script.len() == 0 {
        if argv.len() == 0 {
            (Seq::empty(), seq![])
        } else {
            (argv[0], argv.skip(1))
        }
    } else {
        (
            if limits.nproc > 0 && bash_available {
                "/bin/bash"@
            } else {
                "/bin/sh"@
            },
            seq!["-c"@, script + " exec \"$@\""@, "sh"@] + argv,
        )
    }
}

fn push_arg(out: &mut Vec<String>, s: String)
    ensures
        strs_view(final(out)@) == strs_view(old(out)@).push(s@),
{
    let ghost before = out@;
    let ghost sv = s@;
    out.push(s);
    assert(strs_view(out@) =~= strs_view(before).push(sv));
}

/// The command that starts `argv` under `limits`. Whether bash is installed
/// is the caller's to find out.
pub fn ulimit_command(limits: ChildLimits, bash_available: bool, argv: Vec<String>) -> (plan:
    LaunchPlan)
    ensures
        (plan.program@, strs_view(plan.args@)) == ulimit_plan(limits, bash_available, strs_view(argv@)),
{
    let ghost av = strs_view(argv@);
    let mut script = String::new();
    let uses_bash = limits.nproc > 0 && bash_available;
    if uses_bash {
        push_str(&mut script, "ulimit -u ");
        let n = u64_to_string(limits.nproc);
        push_str(&mut script, n.as_str());
        push_str(&mut script, ";");
    }
    let ghost s1 = script@;
    if limits.fsize > 0 {
        push_str(&mut script, "ulimit -f ");
        let n = u64_to_string(limits.fsize / 1024);
        push_str(&mut script, n.as_str());
        push_str(&mut script, " 2>/dev/null;");
    }
    let ghost s2 = script@;
    if limits.address_space > 0 {
        push_str(&mut script, "ulimit -v ");
        let n = u64_to_string(limits.address_space / 1024);
        push_str(&mut script, n.as_str());
        push_str(&mut script, " 2>/dev/null;");
    }
    assert(script@ =~= ulimit_script(limits, bash_available));
    if script.unicode_len() == 0 {
        if argv.len() == 0 {
            return LaunchPlan { program: String::new(), args: Vec::new() };
        }
        let program = argv[0].clone();
        let mut args: Vec<String> = Vec::new();
        let mut i: usize = 1;
        assert(av.skip(1).take(0) =~= Seq::<Seq<char>>::empty());
        while i < argv.len()
            invariant
                1 <= i <= argv.len(),
                av == strs_view(argv@),
                strs_view(args@) == av.skip(1).take(i - 1),
            decreases argv.len() - i,
        {
            push_arg(&mut args, argv[i].clone());
            i = i + 1;
            assert(strs_view(args@) =~= av.skip(1).take(i - 1));
        }
        assert(av.skip(1).take(argv.len() - 1) =~= av.skip(1));
        return LaunchPlan { program, args };
    }
    push_str(&mut script, " exec \"$@\"");
    let program = if uses_bash {
        String::from_str("/bin/bash")
    } else {
        String::from_str("/bin/sh")
    };
    let mut args: Vec<String> = Vec::new();
    push_arg(&mut args, String::from_str("-c"));
    push_arg(&mut args, script);
    push_arg(&mut args, String::from_str("sh"));
    let ghost head = strs_view(args@);
    let mut i: usize = 0;
    assert(head + av.take(0) =~= head);
    while i < argv.len()
        invariant
            i <= argv.len(),
            av == strs_view(argv@),
            strs_view(args@) == head + av.take(i as int),
        decreases argv.len() - i,
    {
        push_arg(&mut args, argv[i].clone());
        i = i + 1;
        assert(strs_view(args@) =~= head + av.take(i as int));
    }
    assert(av.take(argv.len() as int) =~= av);
    LaunchPlan { program, args }
}

/// Why a child cannot be started.
pub open spec fn missing_jail_message(jail_binary: Seq<char>) -> Seq<char> {
    "services/config/pi.yaml sets sandbox: required but the jail binary "@ + jail_binary
        + " is missing; build sp-pi-jail or set jail_binary"@
}

/// The argv a child is started with before any ceiling: inside the jail when
/// the sandbox is required, otherwise pi itself.
pub open spec fn child_argv(cfg: PiConfig, workspace: Seq<char>, read_paths: Seq<Seq<char>>) -> Seq<
    Seq<char>,
> {
    if cfg.sandbox == SandboxMode::Required {
        seq![cfg.jail_binary@] + wrap_args_spec(workspace, read_paths, cfg.base_url@, cfg.binary@)
    } else {
        seq![cfg.binary@]
    }
}

/// The command a child is started with: jailed when the sandbox is required
/// (failing when the jail binary is missing), under the configured ceilings.
/// `read_paths` are the configured directories and then pi's own, as found on
/// this host; whether the jail and bash exist is the caller's to find out.
pub fn limited_command(
    cfg: &PiConfig,
    workspace: &str,
    read_paths: &Vec<String>,
    jail_present: bool,
    bash_available: bool,
) -> (r: Result<LaunchPlan, String>)
    ensures
        match r {
            Ok(plan) => cfg.sandbox != SandboxMode::Required || jail_present,
            Err(msg) => cfg.sandbox == SandboxMode::Required && !jail_present && msg@
                == missing_jail_message(cfg.jail_binary@),
        },
        r matches Ok(plan) ==> (plan.program@, strs_view(plan.args@)) == ulimit_plan(
            cfg.limits,
            bash_available,
            child_argv(*cfg, workspace@, strs_view(read_paths@)),
        ),
{
    let mut argv: Vec<String> = Vec::new();
    if cfg.sandbox == SandboxMode::Required {
        if !jail_present {
            let mut msg = String::from_str(
                "services/config/pi.yaml sets sandbox: required but the jail binary ",
            );
            push_str(&mut msg, cfg.jail_binary.as_str());
            push_str(&mut msg, " is missing; build sp-pi-jail or set jail_binary");
            return Err(msg);
        }
        push_arg(&mut argv, cfg.jail_binary.clone());
        let ghost head = strs_view(argv@);
        let rest = wrap_args(workspace, read_paths, cfg.base_url.as_str(), cfg.binary.as_str());
        let ghost rv = strs_view(rest@);
        let mut i: usize = 0;
        assert(head + rv.take(0) =~= head);
        while i < rest.len()
            invariant
                i <= rest.len(),
                rv == strs_view(rest@),
                strs_view(argv@) == head + rv.take(i as int),
            decreases rest.len() - i,
        {
            push_arg(&mut argv, rest[i].clone());
            i = i + 1;
            assert(strs_view(argv@) =~= head + rv.take(i as int));
        }
        assert(rv.take(rest.len() as int) =~= rv);
    } else {
        push_arg(&mut argv, cfg.binary.clone());
    }
    assert(strs_view(argv@) =~= child_argv(*cfg, workspace@, strs_view(read_paths@)));
    Ok(ulimit_command(cfg.limits, bash_available, argv))
}

/// The arguments pi itself is started with, after the jail and the ceilings:
/// RPC mode, no extensions but the governance shim and the hub client, the
/// configured provider, model and tools, none of pi's own sessions, context
/// files, skills or prompt templates, and the session's own skills when there
/// are any.
pub open spec fn pi_arguments_spec(
    cfg: PiConfig,
    shim: Seq<char>,
    mcp_client: Seq<char>,
    skills_dir: Option<Seq<char>>,
) -> Seq<Seq<char>> {
    seq![
        "--mode"@,
        "rpc"@,
        "--no-extensions"@,
        "-e"@,
        shim,
        "-e"@,
        mcp_client,
        "--provider"@,
        cfg.provider@,
        "--model"@,
        cfg.model@,
        "--tools"@,
        crate::text::join(strs_view(cfg.tools@), ","@),
        "--no-session"@,
        "--no-context-files"@,
        "--no-skills"@,
        "--no-prompt-templates"@,
    ] + match skills_dir {
        Some(d) => seq!["--skill"@, d],
        None => seq![],
    }
}

fn joined(parts: &Vec<String>, sep: &str) -> (out: String)
    ensures
        out@ == crate::text::join(strs_view(parts@), sep@),
{
    let ghost pv = strs_view(parts@);
    let mut out = String::new();
    let mut i: usize = 0;
    while i < parts.len()
        invariant
            i <= parts.len(),
            pv == strs_view(parts@),
            out@ == crate::text::join(pv.take(i as int), sep@),
        decreases parts.len() - i,
    {
        proof {
            assert(pv.take(i + 1).drop_last() =~= pv.take(i as int));
            assert(pv.take(i + 1).last() == parts@[i as int]@);
        }
        if i > 0 {
            push_str(&mut out, sep);
        }
        push_str(&mut out, parts[i].as_str());
        proof {
            if i == 0 {
                assert(pv.take(0) =~= Seq::<Seq<char>>::empty());
                assert(out@ =~= pv.take(1)[0]);
            }
        }
        i = i + 1;
    }
    assert(pv.take(parts.len() as int) =~= pv);
    out
}

/// The arguments pi is started with.
pub fn pi_arguments(cfg: &PiConfig, shim: &str, mcp_client: &str, skills_dir: Option<&str>) -> (out:
    Vec<String>)
    ensures
        strs_view(out@) == pi_arguments_spec(
            *cfg,
            shim@,
            mcp_client@,
            match skills_dir {
                Some(d) => Some(d@),
                None => None,
            },
        ),
{
    let mut out: Vec<String> = Vec::new();
    push_arg(&mut out, String::from_str("--mode"));
    push_arg(&mut out, String::from_str("rpc"));
    push_arg(&mut out, String::from_str("--no-extensions"));
    push_arg(&mut out, String::from_str("-e"));
    push_arg(&mut out, String::from_str(shim));
    push_arg(&mut out, String::from_str("-e"));
    push_arg(&mut out, String::from_str(mcp_client));
    push_arg(&mut out, String::from_str("--provider"));
    push_arg(&mut out, cfg.provider.clone());
    push_arg(&mut out, String::from_str("--model"));
    push_arg(&mut out, cfg.model.clone());
    push_arg(&mut out, String::from_str("--tools"));
    push_arg(&mut out, joined(&cfg.tools, ","));
    push_arg(&mut out, String::from_str("--no-session"));
    push_arg(&mut out, String::from_str("--no-context-files"));
    push_arg(&mut out, String::from_str("--no-skills"));
    push_arg(&mut out, String::from_str("--no-prompt-templates"));
    match skills_dir {
        Some(d) => {
            push_arg(&mut out, String::from_str("--skill"));
            push_arg(&mut out, String::from_str(d));
        },
        None => {},
    }
    assert(strs_view(out@) =~= pi_arguments_spec(
        *cfg,
        shim@,
        mcp_client@,
        match skills_dir {
            Some(d) => Some(d@),
            None => None,
        },
    ));
    out
}

pub open spec fn pairs_view(v: Seq<(String, String)>) -> Seq<(Seq<char>, Seq<char>)> {
    v.map_values(|p: (String, String)| (p.0@, p.1@))
}

/// The child's whole environment: nothing is inherited, so only these reach
/// it. Its home is inside the workspace, and it learns the gateway, its
/// attested session, its conversation and its hub token, with pi kept offline
/// and its module cache off.
pub open spec fn child_env_spec(
    cfg: PiConfig,
    home: Seq<char>,
    attested_session: Seq<char>,
    conversation_id: Seq<char>,
    mcp_token: Seq<char>,
) -> Seq<(Seq<char>, Seq<char>)> {
    seq![
        ("HOME"@, home),
        ("PATH"@, cfg.child_path@),
        ("SYSTEMPROMPT_BASE_URL"@, cfg.base_url@),
        ("SYSTEMPROMPT_PI_SESSION"@, attested_session),
        ("SP_PI_CONVERSATION"@, conversation_id),
        ("SP_PI_MCP_TOKEN"@, mcp_token),
        ("PI_OFFLINE"@, "1"@),
        ("JITI_CACHE"@, "false"@),
    ]
}

fn push_pair(out: &mut Vec<(String, String)>, k: &str, v: &str)
    ensures
        pairs_view(final(out)@) == pairs_view(old(out)@).push((k@, v@)),
{
    let ghost before = out@;
    out.push((String::from_str(k), String::from_str(v)));
    assert(pairs_view(out@) =~= pairs_view(before).push((k@, v@)));
}

/// The environment a child starts with, in place of the server's own.
pub fn child_env(
    cfg: &PiConfig,
    home: &str,
    attested_session: &str,
    conversation_id: &str,
    mcp_token: &str,
) -> (out: Vec<(String, String)>)
    ensures
        pairs_view(out@) == child_env_spec(*cfg, home@, attested_session@, conversation_id@, mcp_token@),
{
    let mut out: Vec<(String, String)> = Vec::new();
    push_pair(&mut out, "HOME", home);
    push_pair(&mut out, "PATH", cfg.child_path.as_str());
    push_pair(&mut out, "SYSTEMPROMPT_BASE_URL", cfg.base_url.as_str());
    push_pair(&mut out, "SYSTEMPROMPT_PI_SESSION", attested_session);
    push_pair(&mut out, "SP_PI_CONVERSATION", conversation_id);
    push_pair(&mut out, "SP_PI_MCP_TOKEN", mcp_token);
    push_pair(&mut out, "PI_OFFLINE", "1");
    push_pair(&mut out, "JITI_CACHE", "false");
    assert(pairs_view(out@) =~= child_env_spec(*cfg, home@, attested_session@, conversation_id@, mcp_token@));
    out
}

pub open spec fn is_str(v: Json, s: Seq<char>) -> bool {
    v matches Json::Str(x) && x@ == s
}

pub open spec fn is_num(v: Json, s: Seq<char>) -> bool {
    v matches Json::Number(x) && x@ == s
}

/// The one model pi is told about: the configured model, able to reason,
/// text in, with the gateway's context and output ceilings.
pub open spec fn model_entry_is(v: Json, model: Seq<char>) -> bool {
    &&& v matches Json::Object(e)
    &&& e@.len() == 6
    &&& e@[0].0@ == "id"@ && is_str(e@[0].1, model)
    &&& e@[1].0@ == "name"@ && is_str(e@[1].1, "Governed gateway model"@)
    &&& e@[2].0@ == "reasoning"@ && e@[2].1 == Json::Bool(true)
    &&& e@[3].0@ == "input"@ && (e@[3].1 matches Json::Array(a) && a@.len() == 1 && is_str(
        a@[0],
        "text"@,
    ))
    &&& e@[4].0@ == "contextWindow"@ && is_num(e@[4].1, "200000"@)
    &&& e@[5].0@ == "maxTokens"@ && is_num(e@[5].1, "8000"@)
}

/// The provider entry: the gateway's base URL, spoken to as Anthropic
/// messages, with the session's own credential and the one model.
pub open spec fn provider_entry_is(v: Json, base_url: Seq<char>, api_key: Seq<char>, model: Seq<char>) -> bool {
    &&& v matches Json::Object(e)
    &&& e@.len() == 4
    &&& e@[0].0@ == "baseUrl"@ && is_str(e@[0].1, base_url)
    &&& e@[1].0@ == "api"@ && is_str(e@[1].1, "anthropic-messages"@)
    &&& e@[2].0@ == "apiKey"@ && is_str(e@[2].1, api_key)
    &&& e@[3].0@ == "models"@ && (e@[3].1 matches Json::Array(a) && a@.len() == 1 && model_entry_is(
        a@[0],
        model,
    ))
}

/// The `models.json` a session's pi reads: one provider, named as
/// configured, pointing at this deployment's gateway.
pub open spec fn models_document_is(
    doc: Json,
    provider: Seq<char>,
    base_url: Seq<char>,
    api_key: Seq<char>,
    model: Seq<char>,
) -> bool {
    &&& doc matches Json::Object(top)
    &&& top@.len() == 1
    &&& top@[0].0@ == "providers"@
    &&& top@[0].1 matches Json::Object(ps)
    &&& ps@.len() == 1
    &&& ps@[0].0@ == provider
    &&& provider_entry_is(ps@[0].1, base_url, api_key, model)
}

fn text_value(s: &str) -> (v: Json)
    ensures
        is_str(v, s@),
{
    Json::Str(String::from_str(s))
}

/// The provider configuration written under a session's `HOME`; the
/// credential in it is that session's own.
pub fn models_document(cfg: &PiConfig, api_key: &str) -> (doc: Json)
    ensures
        models_document_is(doc, cfg.provider@, cfg.base_url@, api_key@, cfg.model@),
{
    let mut model: Vec<(String, Json)> = Vec::new();
    model.push((String::from_str("id"), text_value(cfg.model.as_str())));
    model.push((String::from_str("name"), text_value("Governed gateway model")));
    model.push((String::from_str("reasoning"), Json::Bool(true)));
    let mut input: Vec<Json> = Vec::new();
    input.push(text_value("text"));
    model.push((String::from_str("input"), Json::Array(input)));
    model.push((String::from_str("contextWindow"), Json::Number(String::from_str("200000"))));
    model.push((String::from_str("maxTokens"), Json::Number(String::from_str("8000"))));
    let model = Json::Object(model);
    let mut models: Vec<Json> = Vec::new();
    models.push(model);
    let mut entry: Vec<(String, Json)> = Vec::new();
    entry.push((String::from_str("baseUrl"), text_value(cfg.base_url.as_str())));
    entry.push((String::from_str("api"), text_value("anthropic-messages")));
    entry.push((String::from_str("apiKey"), text_value(api_key)));
    entry.push((String::from_str("models"), Json::Array(models)));
    let mut providers: Vec<(String, Json)> = Vec::new();
    providers.push((cfg.provider.clone(), Json::Object(entry)));
    let mut top: Vec<(String, Json)> = Vec::new();
    top.push((String::from_str("providers"), Json::Object(providers)));
    Json::Object(top)
}

/// What a fresh workspace holds, so a read-only agent has something to read:
/// tiny and inert, no credentials and no repository.
pub const SEED_README: &'static str = "# Scratch workspace\n\nThis is a throwaway workspace for one governed pi session. Nothing here is\npersisted; it is deleted when the session ends.\n\nThe agent reading this runs inside a Landlock ruleset. This directory is the\nonly path it can write, and the only path outside a read-only interpreter and\nits shared libraries that it can read at all \u{2014} the host's configuration,\ncredentials, and other sessions' workspaces are not reachable from here. Its\noutbound network is confined to the governed gateway's port.\n";

/// pi's own settings for a session: no startup banner on the stream the
/// widget parses, and `/skill:<name>` commands switched on.
pub const AGENT_SETTINGS: &'static str = "{\"quietStartup\":true,\"enableSkillCommands\":true}";

} // verus!
