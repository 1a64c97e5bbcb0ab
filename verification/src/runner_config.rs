//! What the fixture runner hands the agent: the Codex configuration of an
//! arm, the prompt, and the environment and command line of the agent.
use vstd::prelude::*;
use crate::json::{Json, json_text, to_json_text};
use crate::text::{decimal, owned, push_all, u64_text};

verus! {

/// A value quoted as a JSON (and TOML) string.
pub open spec fn quoted(s: Seq<char>) -> Seq<char> {
    json_text(Json::Str(s))
}

fn quote(s: &str) -> (r: String)
    ensures
        r@ == quoted(s@),
{
    to_json_text(&crate::json_object::text_value(s))
}

/// The configuration lines before the sandbox section is placed: the
/// transparent backend's command (for that arm), the provider and model,
/// the disabled features and the relay provider.
pub open spec fn base_config_lines(backend: Seq<char>, launcher: Seq<char>, mbtx: Seq<char>, model: Seq<char>, effort: Seq<char>, port: u16) -> Seq<Seq<char>> {
    let head: Seq<Seq<char>> = if backend == "transparent"@ {
        seq!["mbtx_command = ["@ + quoted(launcher) + ", "@ + quoted(mbtx) + "]"@, "mbtx_backend = \"transparent\""@]
    } else {
        Seq::empty()
    };
    head + seq![
        "model_provider = \"M5Relay\""@,
        "model = "@ + quoted(model),
        "model_reasoning_effort = "@ + quoted(effort),
        "approval_policy = \"never\""@,
        "sandbox_mode = \"workspace-write\""@,
        "web_search = \"disabled\""@,
        "[agents]"@,
        "enabled = false"@,
        "[features]"@,
        "shell_snapshot = false"@,
        "shell_snapshot_v2 = false"@,
        "code_mode = false"@,
        "code_mode_only = false"@,
        "goals = false"@,
        "[model_providers.M5Relay]"@,
        "name = \"M5 relay via isolated proxy\""@,
        "base_url = \"http://127.0.0.1:"@ + decimal(port as nat) + "/v1\""@,
        "wire_api = \"responses\""@,
        "requires_openai_auth = false"@,
        "supports_websockets = false"@,
        "request_max_retries = 2"@,
        "stream_max_retries = 1"@,
    ]
}

/// The sandbox section: network access, and the MoonBit cache as a
/// writable root where MoonBit is configured.
pub open spec fn sandbox_lines(moon_cache: Option<Seq<char>>) -> Seq<Seq<char>> {
    seq!["[sandbox_workspace_write]"@, "network_access = true"@] + match moon_cache {
        Some(c) => seq!["writable_roots = ["@ + quoted(c) + "]"@],
        None => Seq::empty(),
    }
}

/// The configuration lines of an arm: the model catalog (where one is
/// configured) as the third line, and the sandbox section just before the
/// relay provider's section.
pub open spec fn spec_config_lines(backend: Seq<char>, launcher: Seq<char>, mbtx: Seq<char>, model: Seq<char>, effort: Seq<char>,
    port: u16, catalog: Option<Seq<char>>, moon_cache: Option<Seq<char>>) -> Seq<Seq<char>> {
    let base = base_config_lines(backend, launcher, mbtx, model, effort, port);
    let lines = match catalog {
        Some(c) => base.insert(2, "model_catalog_json = "@ + quoted(c)),
        None => base,
    };
    let k = (if backend == "transparent"@ { 2int } else { 0int }) + 14 + (if catalog is Some { 1int } else { 0int });
    lines.take(k) + sandbox_lines(moon_cache) + lines.skip(k)
}

/// Lines each followed by a line break.
pub open spec fn lines_text(lines: Seq<Seq<char>>) -> Seq<char>
    decreases lines.len(),
{
    if lines.len() == 0 {
        Seq::empty()
    } else {
        lines_text(lines.drop_last()) + lines.last() + "\n"@
    }
}

/// Writes the Codex configuration of an arm: `launcher` and `mbtx` are the
/// paths of the trusted launcher and of MBTX, `port` the isolating proxy's,
/// `moon_cache` the MoonBit cache directory where MoonBit is configured.
pub fn codex_config(backend: &str, launcher: &str, mbtx: &str, model: &str, effort: &str, port: u16,
    catalog: Option<&str>, moon_cache: Option<&str>) -> (r: String)
    ensures
        r@ == lines_text(spec_config_lines(backend@, launcher@, mbtx@, model@, effort@, port,
            match catalog { Some(c) => Some(c@), None => None }, match moon_cache { Some(c) => Some(c@), None => None })),
{
    let transparent = crate::json::str_eq(backend, "transparent");
    let mut lines: Vec<String> = Vec::new();
    if transparent {
        let mut l = owned("mbtx_command = [");
        push_all(&mut l, quote(launcher).as_str());
        push_all(&mut l, ", ");
        push_all(&mut l, quote(mbtx).as_str());
        push_all(&mut l, "]");
        lines.push(l);
        lines.push(owned("mbtx_backend = \"transparent\""));
    }
    let head_len = lines.len();
    lines.push(owned("model_provider = \"M5Relay\""));
    let mut l = owned("model = ");
    push_all(&mut l, quote(model).as_str());
    lines.push(l);
    let mut l = owned("model_reasoning_effort = ");
    push_all(&mut l, quote(effort).as_str());
    lines.push(l);
    lines.push(owned("approval_policy = \"never\""));
    lines.push(owned("sandbox_mode = \"workspace-write\""));
    lines.push(owned("web_search = \"disabled\""));
    lines.push(owned("[agents]"));
    lines.push(owned("enabled = false"));
    lines.push(owned("[features]"));
    lines.push(owned("shell_snapshot = false"));
    lines.push(owned("shell_snapshot_v2 = false"));
    lines.push(owned("code_mode = false"));
    lines.push(owned("code_mode_only = false"));
    lines.push(owned("goals = false"));
    lines.push(owned("[model_providers.M5Relay]"));
    lines.push(owned("name = \"M5 relay via isolated proxy\""));
    let mut l = owned("base_url = \"http://127.0.0.1:");
    push_all(&mut l, u64_text(port as u64).as_str());
    push_all(&mut l, "/v1\"");
    lines.push(l);
    lines.push(owned("wire_api = \"responses\""));
    lines.push(owned("requires_openai_auth = false"));
    lines.push(owned("supports_websockets = false"));
    lines.push(owned("request_max_retries = 2"));
    lines.push(owned("stream_max_retries = 1"));
    let ghost cat = match catalog { Some(c) => Some(c@), None => None };
    let ghost mc = match moon_cache { Some(c) => Some(c@), None => None };
    assert(crate::collection::arg_views(lines@) =~= base_config_lines(backend@, launcher@, mbtx@, model@, effort@, port));
    match catalog {
        Some(c) => {
            let mut l = owned("model_catalog_json = ");
            push_all(&mut l, quote(c).as_str());
            let ghost before = crate::collection::arg_views(lines@);
            let ghost lv = l@;
            lines.insert(2, l);
            assert(crate::collection::arg_views(lines@) =~= before.insert(2, lv));
        },
        None => {},
    }
    let ghost with_catalog = crate::collection::arg_views(lines@);
    let k = head_len + 14 + match catalog { Some(_) => 1usize, None => 0usize };
    let mut sandbox: Vec<String> = Vec::new();
    sandbox.push(owned("[sandbox_workspace_write]"));
    sandbox.push(owned("network_access = true"));
    match moon_cache {
        Some(c) => {
            let mut l = owned("writable_roots = [");
            push_all(&mut l, quote(c).as_str());
            push_all(&mut l, "]");
            sandbox.push(l);
        },
        None => {},
    }
    assert(crate::collection::arg_views(sandbox@) =~= sandbox_lines(mc));
    let mut text = String::new();
    let ghost all = with_catalog.take(k as int) + sandbox_lines(mc) + with_catalog.skip(k as int);
    assert(all == spec_config_lines(backend@, launcher@, mbtx@, model@, effort@, port, cat, mc));
    let mut i: usize = 0;
    assert(all.take(0) =~= Seq::<Seq<char>>::empty());
    let total = lines.len() + sandbox.len();
    while i < total
        invariant
            total == lines@.len() + sandbox@.len(),
            k <= lines@.len(),
            with_catalog == crate::collection::arg_views(lines@),
            all == with_catalog.take(k as int) + crate::collection::arg_views(sandbox@) + with_catalog.skip(k as int),
            i <= lines@.len() + sandbox@.len(),
            text@ == lines_text(all.take(i as int)),
        decreases total - i,
    {
        let line: &str = if i < k {
            lines[i].as_str()
        } else if i < k + sandbox.len() {
            sandbox[i - k].as_str()
        } else {
            lines[i - sandbox.len()].as_str()
        };
        assert(line@ == all[i as int]);
        push_all(&mut text, line);
        push_all(&mut text, "\n");
        assert(all.take(i + 1).drop_last() =~= all.take(i as int));
        i += 1;
    }
    assert(all.take(all.len() as int) =~= all);
    text
}


/// The prompt of a task: for script tasks, with the MoonBit reference
/// appended where the reference file exists (`reference`, its text).
pub open spec fn spec_task_prompt(cohort: Seq<char>, prompt: Seq<char>, reference: Option<Seq<char>>) -> Seq<char> {
    if cohort != "script"@ {
        prompt
    } else {
        match reference {
            Some(t) => prompt + "\n\nReference:\n"@ + t,
            None => prompt,
        }
    }
}

/// Writes the prompt of a task.
pub fn task_prompt(task: &crate::m5_runner::TaskSpec, reference: Option<&str>) -> (r: String)
    ensures
        r@ == spec_task_prompt(task.cohort@, task.prompt@, match reference { Some(t) => Some(t@), None => None }),
{
    if !crate::json::str_eq(task.cohort.as_str(), "script") {
        return owned(task.prompt.as_str());
    }
    match reference {
        Some(t) => {
            let mut out = owned(task.prompt.as_str());
            push_all(&mut out, "\n\nReference:\n");
            push_all(&mut out, t);
            out
        },
        None => owned(task.prompt.as_str()),
    }
}

/// The agent's search path: its own `bin` directory, the configured tool
/// path (where not empty), MoonBit's `bin` directory (where configured),
/// and the system directories.
pub open spec fn spec_agent_path(agent_bin: Seq<char>, tool_path: Seq<char>, moon_bin: Option<Seq<char>>) -> Seq<char> {
    agent_bin
        + (if tool_path.len() > 0 { ":"@ + tool_path } else { Seq::empty() })
        + (match moon_bin { Some(m) => ":"@ + m, None => Seq::empty() })
        + ":/usr/local/bin:/usr/bin:/bin"@
}

/// The paths and values the agent's environment is made of.
pub struct AgentPaths {
    pub agent_bin: String,
    pub tool_path: String,
    pub moon_bin: Option<String>,
    pub home: String,
    pub trace_file: String,
    pub launcher_trace: String,
    pub output_prefix: String,
    pub receipt_file: String,
    pub real_python: String,
    pub moon: Option<String>,
    pub moon_home: Option<String>,
}

/// An optional string's view.
pub open spec fn opt_seq(o: Option<String>) -> Option<Seq<char>> {
    match o {
        Some(s) => Some(s@),
        None => None,
    }
}

/// The agent's environment, sorted by name.
pub open spec fn spec_agent_environment(p: AgentPaths, task_id: Seq<char>, nonce: Seq<char>) -> Seq<(Seq<char>, Seq<char>)> {
    seq![("CODEX_HOME"@, p.home@), ("HOME"@, p.home@), ("M5_OUTPUT_PREFIX"@, p.output_prefix@)]
        + (match p.moon { Some(m) => seq![("M5_REAL_PROGRAM_MOON"@, m@)], None => Seq::empty() })
        + seq![
            ("M5_REAL_PROGRAM_PYTHON3"@, p.real_python@),
            ("M5_RECEIPT_PATH"@, p.receipt_file@),
            ("M5_TASK"@, task_id),
            ("M5_TASK_NONCE"@, nonce),
            ("M5_TRACE_FILE"@, p.trace_file@),
            ("M5_TRANSPARENT_TRACE_FILE"@, p.launcher_trace@),
        ]
        + (match p.moon_home { Some(m) => seq![("MOON_HOME"@, m@)], None => Seq::empty() })
        + seq![("PATH"@, spec_agent_path(p.agent_bin@, p.tool_path@, opt_seq(p.moon_bin)))]
}

/// The views of name and value pairs.
pub open spec fn pair_views(v: Seq<(String, String)>) -> Seq<(Seq<char>, Seq<char>)> {
    Seq::new(v.len(), |i: int| (v[i].0@, v[i].1@))
}

fn push_pair(v: &mut Vec<(String, String)>, name: &str, value: &str)
    ensures
        pair_views(final(v)@) == pair_views(old(v)@).push((name@, value@)),
{
    let ghost before = pair_views(v@);
    v.push((owned(name), owned(value)));
    assert(pair_views(v@) =~= before.push((name@, value@)));
}

/// Builds the agent's environment for a task.
pub fn agent_environment(p: &AgentPaths, task_id: &str, nonce: &str) -> (r: Vec<(String, String)>)
    ensures
        pair_views(r@) == spec_agent_environment(*p, task_id@, nonce@),
{
    let mut path = owned(p.agent_bin.as_str());
    if crate::text::chars_of(p.tool_path.as_str()).len() > 0 {
        push_all(&mut path, ":");
        push_all(&mut path, p.tool_path.as_str());
    }
    match &p.moon_bin {
        Some(m) => {
            push_all(&mut path, ":");
            push_all(&mut path, m.as_str());
        },
        None => {},
    }
    push_all(&mut path, ":/usr/local/bin:/usr/bin:/bin");
    assert(path@ =~= spec_agent_path(p.agent_bin@, p.tool_path@, opt_seq(p.moon_bin)));
    let mut v: Vec<(String, String)> = Vec::new();
    assert(pair_views(v@) =~= Seq::<(Seq<char>, Seq<char>)>::empty());
    push_pair(&mut v, "CODEX_HOME", p.home.as_str());
    push_pair(&mut v, "HOME", p.home.as_str());
    push_pair(&mut v, "M5_OUTPUT_PREFIX", p.output_prefix.as_str());
    match &p.moon {
        Some(m) => push_pair(&mut v, "M5_REAL_PROGRAM_MOON", m.as_str()),
        None => {},
    }
    push_pair(&mut v, "M5_REAL_PROGRAM_PYTHON3", p.real_python.as_str());
    push_pair(&mut v, "M5_RECEIPT_PATH", p.receipt_file.as_str());
    push_pair(&mut v, "M5_TASK", task_id);
    push_pair(&mut v, "M5_TASK_NONCE", nonce);
    push_pair(&mut v, "M5_TRACE_FILE", p.trace_file.as_str());
    push_pair(&mut v, "M5_TRANSPARENT_TRACE_FILE", p.launcher_trace.as_str());
    match &p.moon_home {
        Some(m) => push_pair(&mut v, "MOON_HOME", m.as_str()),
        None => {},
    }
    push_pair(&mut v, "PATH", path.as_str());
    assert(pair_views(v@) =~= spec_agent_environment(*p, task_id@, nonce@));
    v
}

/// The arguments of `codex exec` for the task.
pub open spec fn spec_codex_arguments(workspace: Seq<char>, prompt: Seq<char>) -> Seq<Seq<char>> {
    seq!["exec"@, "--json"@, "--strict-config"@, "--ephemeral"@, "--ignore-rules"@, "--skip-git-repo-check"@, "-C"@, workspace, prompt]
}

/// How the agent is started: Codex itself where unprivileged runs are
/// allowed (with exactly the environment), else through `sudo` as the
/// evaluator user with the environment passed to `env -i` as assignments.
pub open spec fn spec_agent_command(allow_unprivileged: bool, agent_user: Seq<char>, codex: Seq<char>,
    env: Seq<(Seq<char>, Seq<char>)>, workspace: Seq<char>, prompt: Seq<char>) -> (Seq<char>, Seq<Seq<char>>) {
    if allow_unprivileged {
        (codex, spec_codex_arguments(workspace, prompt))
    } else {
        ("sudo"@, seq!["-n"@, "-u"@, agent_user, "--"@, "/usr/bin/env"@, "-i"@]
            + Seq::new(env.len(), |i: int| env[i].0 + "="@ + env[i].1)
            + seq![codex] + spec_codex_arguments(workspace, prompt))
    }
}

/// Gives the program and arguments that start the agent.
pub fn agent_command(allow_unprivileged: bool, agent_user: &str, codex: &str, env: &Vec<(String, String)>,
    workspace: &str, prompt: &str) -> (r: (String, Vec<String>))
    ensures
        r.0@ == spec_agent_command(allow_unprivileged, agent_user@, codex@, pair_views(env@), workspace@, prompt@).0,
        crate::collection::arg_views(r.1@) == spec_agent_command(allow_unprivileged, agent_user@, codex@, pair_views(env@), workspace@, prompt@).1,
{
    let mut args: Vec<String> = Vec::new();
    let ghost ev = pair_views(env@);
    let program = if allow_unprivileged {
        owned(codex)
    } else {
        args.push(owned("-n"));
        args.push(owned("-u"));
        args.push(owned(agent_user));
        args.push(owned("--"));
        args.push(owned("/usr/bin/env"));
        args.push(owned("-i"));
        let ghost start = crate::collection::arg_views(args@);
        assert(start =~= seq!["-n"@, "-u"@, agent_user@, "--"@, "/usr/bin/env"@, "-i"@]);
        let mut i: usize = 0;
        while i < env.len()
            invariant
                i <= env@.len(),
                ev == pair_views(env@),
                crate::collection::arg_views(args@) == start + Seq::new(i as nat, |j: int| ev[j].0 + "="@ + ev[j].1),
            decreases env.len() - i,
        {
            let mut a = owned(env[i].0.as_str());
            push_all(&mut a, "=");
            push_all(&mut a, env[i].1.as_str());
            assert(ev[i as int] == (env@[i as int].0@, env@[i as int].1@));
            assert(a@ == ev[i as int].0 + "="@ + ev[i as int].1);
            let ghost before = crate::collection::arg_views(args@);
            let ghost av = a@;
            args.push(a);
            assert(crate::collection::arg_views(args@) =~= before.push(av));
            assert(Seq::new((i + 1) as nat, |j: int| ev[j].0 + "="@ + ev[j].1) =~= Seq::new(i as nat, |j: int| ev[j].0 + "="@ + ev[j].1).push(av));
            assert(crate::collection::arg_views(args@) =~= start + Seq::new((i + 1) as nat, |j: int| ev[j].0 + "="@ + ev[j].1));
            i += 1;
        }
        let ghost mid = crate::collection::arg_views(args@);
        args.push(owned(codex));
        assert(crate::collection::arg_views(args@) =~= mid.push(codex@));
        assert(crate::collection::arg_views(args@) =~= seq!["-n"@, "-u"@, agent_user@, "--"@, "/usr/bin/env"@, "-i"@]
            + Seq::new(ev.len(), |j: int| ev[j].0 + "="@ + ev[j].1) + seq![codex@]);
        owned("sudo")
    };
    let ghost before = crate::collection::arg_views(args@);
    assert(allow_unprivileged ==> before =~= Seq::<Seq<char>>::empty());
    args.push(owned("exec"));
    args.push(owned("--json"));
    args.push(owned("--strict-config"));
    args.push(owned("--ephemeral"));
    args.push(owned("--ignore-rules"));
    args.push(owned("--skip-git-repo-check"));
    args.push(owned("-C"));
    args.push(owned(workspace));
    args.push(owned(prompt));
    assert(crate::collection::arg_views(args@) =~= before + spec_codex_arguments(workspace@, prompt@));
    (program, args)
}

} // verus!
