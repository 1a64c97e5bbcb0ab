//! Decisions of the evidence collector: reading its command line and
//! deciding when infrastructure failures should stop a collection.
use vstd::prelude::*;
use std::collections::VecDeque;
use crate::json::{Json, JsonNumber, JsonValue, Num, spec_as_str, spec_field, spec_is_text, str_eq, to_serde};
use crate::json_object::{member_views, object_of, push_member, text_value};
use crate::text::{chars_of, owned, parse_int, push_all, spec_int_error_message, spec_parse_int, IntError};

verus! {

/// The texts of some strings.
pub open spec fn arg_views(args: Seq<String>) -> Seq<Seq<char>> {
    args.map_values(|a: String| a@)
}

/// The first position of `key` among `args`.
pub open spec fn position(args: Seq<Seq<char>>, key: Seq<char>) -> Option<nat>
    decreases args.len(),
{
    if args.len() == 0 {
        None
    } else if args[0] == key {
        Some(0)
    } else {
        match position(args.drop_first(), key) {
            Some(i) => Some(i + 1),
            None => None,
        }
    }
}

proof fn lemma_position(args: Seq<Seq<char>>, key: Seq<char>, i: int)
    requires
        0 <= i <= args.len(),
        forall|j: int| 0 <= j < i ==> args[j] != key,
        i < args.len() ==> args[i] == key,
    ensures
        i < args.len() ==> position(args, key) == Some(i as nat),
        i == args.len() ==> position(args, key) is None,
    decreases i,
{
    if i > 0 {
        assert forall|j: int| 0 <= j < i - 1 implies args.drop_first()[j] != key by {
            assert(args.drop_first()[j] == args[j + 1]);
        }
        if i < args.len() {
            assert(args.drop_first()[i - 1] == args[i]);
        }
        lemma_position(args.drop_first(), key, i - 1);
    }
}

/// The value that follows the first occurrence of `key` on a command line.
pub open spec fn spec_option(args: Seq<Seq<char>>, key: Seq<char>) -> Option<Seq<char>> {
    match position(args, key) {
        Some(i) => if i + 1 < args.len() { Some(args[i + 1int]) } else { None },
        None => None,
    }
}

/// The value that follows the first occurrence of `key` on a command line,
/// if there is one.
pub fn option(args: &[String], key: &str) -> (r: Option<String>)
    ensures
        match r {
            Some(v) => spec_option(arg_views(args@), key@) == Some(v@),
            None => spec_option(arg_views(args@), key@) is None,
        },
{
    let ghost views = arg_views(args@);
    let mut i: usize = 0;
    while i < args.len()
        invariant
            i <= args.len(),
            views == arg_views(args@),
            forall|j: int| 0 <= j < i ==> views[j] != key@,
        decreases args.len() - i,
    {
        assert(views[i as int] == args@[i as int]@);
        if str_eq(args[i].as_str(), key) {
            proof {
                lemma_position(views, key@, i as int);
            }
            if i + 1 < args.len() {
                assert(views[i + 1] == args@[i + 1]@);
                return Some(owned(args[i + 1].as_str()));
            }
            return None;
        }
        i += 1;
    }
    proof {
        lemma_position(views, key@, i as int);
    }
    None
}

/// The message for a missing required option.
pub open spec fn missing_message(key: Seq<char>) -> Seq<char> {
    "missing "@ + key
}

/// The value of a required option.
pub fn required(args: &[String], key: &str) -> (r: Result<String, String>)
    ensures
        match r {
            Ok(v) => spec_option(arg_views(args@), key@) == Some(v@),
            Err(e) => spec_option(arg_views(args@), key@) is None && e@ == missing_message(key@),
        },
{
    match option(args, key) {
        Some(v) => Ok(v),
        None => {
            let mut message = owned("missing ");
            push_all(&mut message, key);
            Err(message)
        },
    }
}

/// The value of a numeric option: `default` when absent, the parse error's
/// message when it is not a `usize`.
pub open spec fn spec_number(args: Seq<Seq<char>>, key: Seq<char>, default: usize) -> Result<usize, Seq<char>> {
    match spec_option(args, key) {
        None => Ok(default),
        Some(v) => match spec_parse_int(v, usize::MAX as nat) {
            Ok(n) => Ok(n as usize),
            Err(e) => Err(spec_int_error_message(e)),
        },
    }
}

/// A numeric option, with a default.
pub fn number(args: &[String], key: &str, default: usize) -> (r: Result<usize, String>)
    ensures
        match r {
            Ok(n) => spec_number(arg_views(args@), key@, default) == Ok::<usize, Seq<char>>(n),
            Err(e) => spec_number(arg_views(args@), key@, default) == Err::<usize, Seq<char>>(e@),
        },
{
    match option(args, key) {
        None => Ok(default),
        Some(v) => {
            let chars = chars_of(v.as_str());
            match parse_int(chars.as_slice(), usize::MAX as u128) {
                Ok(n) => Ok(n as usize),
                Err(e) => Err(owned(e.message())),
            }
        },
    }
}

/// The number of `true` entries.
pub open spec fn count_true(w: Seq<bool>) -> nat
    decreases w.len(),
{
    if w.len() == 0 {
        0
    } else {
        count_true(w.drop_last()) + if w.last() { 1nat } else { 0nat }
    }
}

/// Whether the recent arms show an infrastructure problem: the last five
/// failed, or at least half of a full window of sixteen failed.
pub open spec fn spec_unhealthy(w: Seq<bool>) -> bool {
    (w.len() >= 5 && forall|i: int| w.len() - 5 <= i < w.len() ==> #[trigger] w[i])
        || (w.len() == 16 && count_true(w) >= 8)
}

/// Whether the window of recent infrastructure failures calls for stopping.
pub fn unhealthy(window: &VecDeque<bool>) -> (r: bool)
    ensures
        r == spec_unhealthy(window@),
{
    let n = window.len();
    let mut last_five = n >= 5;
    if last_five {
        let mut i = n - 5;
        while i < n
            invariant
                n == window@.len(),
                n >= 5,
                n - 5 <= i <= n,
                last_five == forall|j: int| n - 5 <= j < i ==> #[trigger] window@[j],
            decreases n - i,
        {
            if !window[i] {
                last_five = false;
            }
            i += 1;
        }
    }
    if last_five {
        return true;
    }
    if n != 16 {
        return false;
    }
    let mut count: usize = 0;
    let mut i: usize = 0;
    while i < n
        invariant
            n == window@.len(),
            i <= n,
            count == count_true(window@.take(i as int)),
            count <= i,
        decreases n - i,
    {
        assert(window@.take(i + 1).drop_last() =~= window@.take(i as int));
        if window[i] {
            count += 1;
        }
        i += 1;
    }
    assert(window@.take(n as int) =~= window@);
    count >= 8
}

/// Whether an arm's status counts as an infrastructure failure.
pub open spec fn infrastructure_failure(row: Json) -> bool {
    let status = spec_as_str(spec_field(row, "status"@));
    status == Some("relay_error"@) || status == Some("provider_error"@) || status == Some("harness_error"@)
}

/// The window after an arm: arms replayed from earlier evidence are not
/// counted; the window keeps the latest sixteen.
pub open spec fn spec_track(w: Seq<bool>, row: Json) -> Seq<bool> {
    let pushed = if spec_field(row, "reused"@) != Json::Bool(true) { w.push(infrastructure_failure(row)) } else { w };
    if pushed.len() > 16 { pushed.drop_first() } else { pushed }
}

/// Records one arm in the window of recent infrastructure failures.
pub fn track_infrastructure(window: &mut VecDeque<bool>, row: &JsonValue)
    ensures
        final(window)@ == spec_track(old(window)@, row@),
{
    let reused = match row.get("reused") {
        Some(JsonValue::Bool(true)) => true,
        _ => false,
    };
    if !reused {
        let failed = match row.field_str("status") {
            Some(s) => str_eq(s, "relay_error") || str_eq(s, "provider_error") || str_eq(s, "harness_error"),
            None => false,
        };
        window.push_back(failed);
    }
    if window.len() > 16 {
        window.pop_front();
    }
}

/// The window never holds more than sixteen arms.
pub proof fn lemma_window_bounded(w: Seq<bool>, row: Json)
    requires
        w.len() <= 16,
    ensures
        spec_track(w, row).len() <= 16,
{
}


/// The TOML document that `toml::to_string_pretty` writes for a value, or
/// its error message.
pub uninterp spec fn toml_document(value: Json) -> Result<Seq<char>, Seq<char>>;

/// Writes a value as a pretty TOML document with `toml::to_string_pretty`;
/// the result, text or error message, is named, not restated.
#[verifier::external_body]
fn toml_pretty(value: &JsonValue) -> (r: Result<String, String>)
    ensures
        match r {
            Ok(t) => toml_document(value@) == Ok::<Seq<char>, Seq<char>>(t@),
            Err(e) => toml_document(value@) == Err::<Seq<char>, Seq<char>>(e@),
        },
{
    toml::to_string_pretty(&to_serde(value)).map_err(|e| e.to_string())
}

/// A JSON integer.
pub open spec fn int_json(n: u64) -> Json {
    Json::Number(Num::PosInt(n))
}

/// The Codex configuration of one arm: the evaluation endpoint as the only
/// provider, no retries, the workspace sandbox with network, Code Mode when
/// asked for, and, for the transparent arm, the launcher as MBTX backend.
pub open spec fn spec_config_value(model: Seq<char>, url: Seq<char>, launcher: Option<Seq<char>>, direct: bool, tool_mode: Seq<char>) -> Json {
    let provider = Json::Object(seq![
        ("name"@, Json::Str("Evaluation Responses endpoint"@)),
        ("base_url"@, Json::Str(url)),
        ("wire_api"@, Json::Str("responses"@)),
        ("env_key"@, Json::Str("OPENAI_API_KEY"@)),
        ("requires_openai_auth"@, Json::Bool(false)),
        ("request_max_retries"@, int_json(0)),
        ("stream_max_retries"@, int_json(0)),
    ]);
    let features = seq![
        ("unified_exec"@, Json::Bool(true)),
        ("code_mode_host"@, Json::Bool(tool_mode == "code"@)),
        ("plugins"@, Json::Bool(false)),
    ];
    let base = seq![
        ("model_provider"@, Json::Str("evaluation"@)),
        ("model"@, Json::Str(model)),
        ("review_model"@, Json::Str(model)),
        ("model_reasoning_effort"@, Json::Str("xhigh"@)),
        ("approval_policy"@, Json::Str("never"@)),
        ("sandbox_mode"@, Json::Str("workspace-write"@)),
        ("model_providers"@, Json::Object(seq![("evaluation"@, provider)])),
        ("sandbox_workspace_write"@, Json::Object(seq![("network_access"@, Json::Bool(true))])),
        ("shell_environment_policy"@, Json::Object(seq![("inherit"@, Json::Str("all"@))])),
        ("features"@, Json::Object(if direct { features.push(("unified_exec_zsh_fork"@, Json::Bool(false))) } else { features })),
    ];
    Json::Object(match launcher {
        Some(path) => base + seq![
            ("mbtx_backend"@, Json::Str("transparent"@)),
            ("mbtx_command"@, Json::Array(seq![Json::Str(path)])),
        ],
        None => base,
    })
}

fn object_value(m: Vec<(String, JsonValue)>) -> (r: JsonValue)
    ensures
        r@ == Json::Object(member_views(m@)),
{
    object_of(m)
}

/// The configuration value of one arm (see [`spec_config_value`]).
pub fn config_value(model: &str, url: &str, launcher: Option<&str>, direct: bool, tool_mode: &str) -> (r: JsonValue)
    ensures
        r@ == spec_config_value(model@, url@, match launcher { Some(p) => Some(p@), None => None }, direct, tool_mode@),
{
    let mut provider: Vec<(String, JsonValue)> = Vec::new();
    push_member(&mut provider, "name", text_value("Evaluation Responses endpoint"));
    push_member(&mut provider, "base_url", text_value(url));
    push_member(&mut provider, "wire_api", text_value("responses"));
    push_member(&mut provider, "env_key", text_value("OPENAI_API_KEY"));
    push_member(&mut provider, "requires_openai_auth", JsonValue::Bool(false));
    push_member(&mut provider, "request_max_retries", JsonValue::Number(JsonNumber::PosInt(0)));
    push_member(&mut provider, "stream_max_retries", JsonValue::Number(JsonNumber::PosInt(0)));
    assert(member_views(provider@) =~= seq![
        ("name"@, Json::Str("Evaluation Responses endpoint"@)),
        ("base_url"@, Json::Str(url@)),
        ("wire_api"@, Json::Str("responses"@)),
        ("env_key"@, Json::Str("OPENAI_API_KEY"@)),
        ("requires_openai_auth"@, Json::Bool(false)),
        ("request_max_retries"@, int_json(0)),
        ("stream_max_retries"@, int_json(0)),
    ]);
    let mut providers: Vec<(String, JsonValue)> = Vec::new();
    push_member(&mut providers, "evaluation", object_value(provider));
    assert(member_views(providers@) =~= seq![("evaluation"@, Json::Object(member_views(provider@)))]);
    let mut sandbox: Vec<(String, JsonValue)> = Vec::new();
    push_member(&mut sandbox, "network_access", JsonValue::Bool(true));
    let mut shell: Vec<(String, JsonValue)> = Vec::new();
    push_member(&mut shell, "inherit", text_value("all"));
    let mut features: Vec<(String, JsonValue)> = Vec::new();
    push_member(&mut features, "unified_exec", JsonValue::Bool(true));
    push_member(&mut features, "code_mode_host", JsonValue::Bool(str_eq(tool_mode, "code")));
    push_member(&mut features, "plugins", JsonValue::Bool(false));
    let ghost fv = seq![
        ("unified_exec"@, Json::Bool(true)),
        ("code_mode_host"@, Json::Bool(tool_mode@ == "code"@)),
        ("plugins"@, Json::Bool(false)),
    ];
    assert(member_views(features@) =~= fv);
    if direct {
        push_member(&mut features, "unified_exec_zsh_fork", JsonValue::Bool(false));
    }
    assert(member_views(features@) =~= if direct { fv.push(("unified_exec_zsh_fork"@, Json::Bool(false))) } else { fv });
    assert(member_views(sandbox@) =~= seq![("network_access"@, Json::Bool(true))]);
    assert(member_views(shell@) =~= seq![("inherit"@, Json::Str("all"@))]);
    let mut m: Vec<(String, JsonValue)> = Vec::new();
    push_member(&mut m, "model_provider", text_value("evaluation"));
    push_member(&mut m, "model", text_value(model));
    push_member(&mut m, "review_model", text_value(model));
    push_member(&mut m, "model_reasoning_effort", text_value("xhigh"));
    push_member(&mut m, "approval_policy", text_value("never"));
    push_member(&mut m, "sandbox_mode", text_value("workspace-write"));
    push_member(&mut m, "model_providers", object_value(providers));
    push_member(&mut m, "sandbox_workspace_write", object_value(sandbox));
    push_member(&mut m, "shell_environment_policy", object_value(shell));
    push_member(&mut m, "features", object_value(features));
    let ghost base = member_views(m@);
    match launcher {
        Some(path) => {
            push_member(&mut m, "mbtx_backend", text_value("transparent"));
            let mut command: Vec<JsonValue> = Vec::new();
            command.push(text_value(path));
            let arr = JsonValue::Array(command);
            assert(arr@ == Json::Array(seq![Json::Str(path@)])) by {
                if let Json::Array(a) = arr@ {
                    assert(a =~= seq![Json::Str(path@)]);
                }
            }
            push_member(&mut m, "mbtx_command", arr);
        },
        None => {},
    }
    let r = object_value(m);
    assert(r@ =~= spec_config_value(model@, url@, match launcher { Some(p) => Some(p@), None => None }, direct, tool_mode@)) by {
        if let Json::Object(a) = r@ {
            if let Json::Object(b) = spec_config_value(model@, url@, match launcher { Some(p) => Some(p@), None => None }, direct, tool_mode@) {
                assert(a =~= b);
            }
        }
    }
    r
}

/// The Codex configuration file of one arm, as TOML.
pub fn config(model: &str, url: &str, launcher: Option<&str>, direct: bool, tool_mode: &str) -> (r: Result<String, String>)
    ensures
        match r {
            Ok(t) => toml_document(spec_config_value(model@, url@, match launcher { Some(p) => Some(p@), None => None }, direct, tool_mode@)) == Ok::<Seq<char>, Seq<char>>(t@),
            Err(e) => toml_document(spec_config_value(model@, url@, match launcher { Some(p) => Some(p@), None => None }, direct, tool_mode@)) == Err::<Seq<char>, Seq<char>>(e@),
        },
{
    let value = config_value(model, url, launcher, direct, tool_mode);
    toml_pretty(&value)
}


/// Accepts only the two collection suites.
pub fn suite_check(name: &str) -> (r: Result<(), String>)
    ensures
        r is Ok <==> (name@ == "codex-relay"@ || name@ == "codex-replay"@),
        r is Err ==> r->Err_0@ == "suite must be codex-relay or codex-replay"@,
{
    if str_eq(name, "codex-relay") || str_eq(name, "codex-replay") {
        Ok(())
    } else {
        Err(owned("suite must be codex-relay or codex-replay"))
    }
}

/// Refuses a frozen run's input outside offline replay.
pub fn frozen_check(frozen: bool, suite: &str) -> (r: Result<(), String>)
    ensures
        r is Ok <==> !(frozen && suite@ != "codex-replay"@),
        r is Err ==> r->Err_0@ == "frozen input requires offline replay"@,
{
    if frozen && !str_eq(suite, "codex-replay") {
        Err(owned("frozen input requires offline replay"))
    } else {
        Ok(())
    }
}

/// The scenarios a suite protocol names: its `tasks`, followed by its
/// `offline_boundaries` where `--boundaries` asks for them (offline replay
/// only).
pub open spec fn spec_suite_tasks(protocol: Json, boundaries: bool, suite: Seq<char>) -> Result<Seq<Json>, Seq<char>> {
    match spec_field(protocol, "tasks"@) {
        Json::Array(tasks) => if !boundaries {
            Ok(tasks)
        } else if suite != "codex-replay"@ {
            Err("--boundaries is only supported by offline replay"@)
        } else {
            match spec_field(protocol, "offline_boundaries"@) {
                Json::Array(extra) => Ok(tasks + extra),
                _ => Ok(tasks),
            }
        },
        _ => Err("invalid suite"@),
    }
}

fn array_items(v: &JsonValue) -> (r: Option<Vec<JsonValue>>)
    ensures
        match v@ {
            Json::Array(items) => r matches Some(x) && crate::evidence::value_views(x@) == items,
            _ => r is None,
        },
{
    match v {
        JsonValue::Array(items) => {
            let ghost iv = match v@ { Json::Array(x) => x, _ => Seq::empty() };
            let mut out: Vec<JsonValue> = Vec::new();
            let mut i: usize = 0;
            while i < items.len()
                invariant
                    i <= items.len(),
                    iv.len() == items@.len(),
                    forall|j: int| 0 <= j < items@.len() ==> #[trigger] iv[j] == items@[j]@,
                    crate::evidence::value_views(out@) == iv.take(i as int),
                decreases items.len() - i,
            {
                assert(iv[i as int] == items@[i as int]@);
                let ghost before = crate::evidence::value_views(out@);
                out.push(items[i].copy());
                assert(crate::evidence::value_views(out@) =~= before.push(iv[i as int]));
                assert(iv.take(i + 1) =~= iv.take(i as int).push(iv[i as int]));
                i += 1;
            }
            assert(iv.take(i as int) =~= iv);
            Some(out)
        },
        _ => None,
    }
}

/// Reads the scenarios of a suite protocol (see [`spec_suite_tasks`]).
pub fn suite_tasks(protocol: &JsonValue, boundaries: bool, suite: &str) -> (r: Result<Vec<JsonValue>, String>)
    ensures
        match spec_suite_tasks(protocol@, boundaries, suite@) {
            Ok(t) => r matches Ok(x) && crate::evidence::value_views(x@) == t,
            Err(m) => r matches Err(e) && e@ == m,
        },
{
    let mut tasks = match array_items(&protocol.field("tasks")) {
        Some(t) => t,
        None => { return Err(owned("invalid suite")); },
    };
    if !boundaries {
        return Ok(tasks);
    }
    if !str_eq(suite, "codex-replay") {
        return Err(owned("--boundaries is only supported by offline replay"));
    }
    match array_items(&protocol.field("offline_boundaries")) {
        Some(mut extra) => {
            let ghost a = crate::evidence::value_views(tasks@);
            let ghost b = crate::evidence::value_views(extra@);
            tasks.append(&mut extra);
            assert(crate::evidence::value_views(tasks@) =~= a + b);
            Ok(tasks)
        },
        None => Ok(tasks),
    }
}

/// `prior.binaries.<name>.<field>`.
pub open spec fn binary_field(prior: Json, name: Seq<char>, field: Seq<char>) -> Json {
    spec_field(spec_field(spec_field(prior, "binaries"@), name), field)
}

/// Why a frozen run cannot be replayed here, if it cannot: it must run on
/// the original platform with the original `PATH`, with the original
/// fixture path (commands are never rewritten), and with binaries whose
/// digests match the recorded ones, checked in the order codex, launcher,
/// fixture, evaluation model.
pub open spec fn spec_frozen_refusal(prior: Json, platform: Seq<char>, path: Option<Seq<char>>, fixture: Seq<char>,
    codex_sha: Seq<char>, launcher_sha: Seq<char>, fixture_sha: Seq<char>, model_sha: Seq<char>) -> Option<Seq<char>> {
    if !spec_is_text(spec_field(prior, "platform"@), platform)
        || !crate::json_object::json_same(spec_field(prior, "path"@), match path { Some(p) => Json::Str(p), None => Json::Null }) {
        Some("frozen replay requires the original platform and environment PATH"@)
    } else if !spec_is_text(binary_field(prior, "fixture"@, "path"@), fixture) {
        Some("frozen argv requires the original fixture path; no command rewriting is performed"@)
    } else if !spec_is_text(binary_field(prior, "codex"@, "sha256"@), codex_sha) {
        Some("frozen replay codex binary hash differs"@)
    } else if !spec_is_text(binary_field(prior, "launcher"@, "sha256"@), launcher_sha) {
        Some("frozen replay launcher binary hash differs"@)
    } else if !spec_is_text(binary_field(prior, "fixture"@, "sha256"@), fixture_sha) {
        Some("frozen replay fixture binary hash differs"@)
    } else if !spec_is_text(binary_field(prior, "evaluation_model"@, "sha256"@), model_sha) {
        Some("frozen replay evaluation_model binary hash differs"@)
    } else {
        None
    }
}

fn binary_text_is(prior: &JsonValue, name: &str, field: &str, text: &str) -> (r: bool)
    ensures
        r == spec_is_text(binary_field(prior@, name@, field@), text@),
{
    prior.field("binaries").field(name).field(field).is_text(text)
}

/// Checks a frozen run's manifest `prior` against this machine (see
/// [`spec_frozen_refusal`]); the digests are those of the binaries given
/// now.
pub fn frozen_refusal(prior: &JsonValue, platform: &str, path: Option<&str>, fixture: &str,
    codex_sha: &str, launcher_sha: &str, fixture_sha: &str, model_sha: &str) -> (r: Option<String>)
    ensures
        match spec_frozen_refusal(prior@, platform@, match path { Some(p) => Some(p@), None => None }, fixture@,
            codex_sha@, launcher_sha@, fixture_sha@, model_sha@) {
            None => r is None,
            Some(m) => r matches Some(t) && t@ == m,
        },
{
    let recorded = match path {
        Some(p) => text_value(p),
        None => JsonValue::Null,
    };
    if !prior.field("platform").is_text(platform) || !crate::json_object::json_eq(&prior.field("path"), &recorded) {
        return Some(owned("frozen replay requires the original platform and environment PATH"));
    }
    if !binary_text_is(prior, "fixture", "path", fixture) {
        return Some(owned("frozen argv requires the original fixture path; no command rewriting is performed"));
    }
    if !binary_text_is(prior, "codex", "sha256", codex_sha) {
        return Some(owned("frozen replay codex binary hash differs"));
    }
    if !binary_text_is(prior, "launcher", "sha256", launcher_sha) {
        return Some(owned("frozen replay launcher binary hash differs"));
    }
    if !binary_text_is(prior, "fixture", "sha256", fixture_sha) {
        return Some(owned("frozen replay fixture binary hash differs"));
    }
    if !binary_text_is(prior, "evaluation_model", "sha256", model_sha) {
        return Some(owned("frozen replay evaluation_model binary hash differs"));
    }
    None
}

/// Refuses a frozen Code Mode run whose host binary differs from the
/// recorded one.
pub fn code_host_check(prior: &JsonValue, host_sha: &str) -> (r: Result<(), String>)
    ensures
        r is Ok <==> spec_is_text(binary_field(prior@, "code_mode_host"@, "sha256"@), host_sha@),
        r is Err ==> r->Err_0@ == "frozen replay Code Mode host hash differs"@,
{
    if binary_text_is(prior, "code_mode_host", "sha256", host_sha) {
        Ok(())
    } else {
        Err(owned("frozen replay Code Mode host hash differs"))
    }
}

/// Accepts a fault injection only for offline replay, and only the known
/// faults.
pub fn fault_check(fault: &str, replay: bool) -> (r: Result<(), String>)
    ensures
        r is Ok <==> ((fault@ == "none"@ || fault@ == "429"@ || fault@ == "503"@ || fault@ == "disconnect"@)
            && (replay || fault@ == "none"@)),
        r is Err ==> r->Err_0@ == "--fault is only available for codex-replay: 429, 503 or disconnect"@,
{
    let known = str_eq(fault, "none") || str_eq(fault, "429") || str_eq(fault, "503") || str_eq(fault, "disconnect");
    if !known || (!replay && !str_eq(fault, "none")) {
        Err(owned("--fault is only available for codex-replay: 429, 503 or disconnect"))
    } else {
        Ok(())
    }
}

/// Accepts the two tool modes.
pub fn tool_mode_check(mode: &str) -> (r: Result<(), String>)
    ensures
        r is Ok <==> (mode@ == "code"@ || mode@ == "direct"@),
        r is Err ==> r->Err_0@ == "--tool-mode must be code or direct"@,
{
    if str_eq(mode, "code") || str_eq(mode, "direct") {
        Ok(())
    } else {
        Err(owned("--tool-mode must be code or direct"))
    }
}

/// The default number of pairs per task: ten offline, eight online.
pub open spec fn default_pairs(replay: bool) -> usize {
    if replay { 10 } else { 8 }
}

/// The number of pairs per task: `--pairs`, which must be positive.
pub fn pairs_per_task(args: &[String], replay: bool) -> (r: Result<usize, String>)
    ensures
        match r {
            Ok(n) => n > 0 && spec_number(arg_views(args@), "--pairs"@, default_pairs(replay)) == Ok::<usize, Seq<char>>(n),
            Err(e) => match spec_number(arg_views(args@), "--pairs"@, default_pairs(replay)) {
                Ok(n) => n == 0 && e@ == "--pairs must be positive"@,
                Err(m) => e@ == m,
            },
        },
{
    match number(args, "--pairs", if replay { 10 } else { 8 }) {
        Ok(0) => Err(owned("--pairs must be positive")),
        Ok(n) => Ok(n),
        Err(e) => Err(e),
    }
}

/// Online collection splits the pairs of a task over two rounds when there
/// are at least two; offline replay runs one round.
pub open spec fn spec_rounds(replay: bool, per_task: usize) -> usize {
    if replay || per_task < 2 { 1 } else { 2 }
}

/// The number of rounds.
pub fn rounds_for(replay: bool, per_task: usize) -> (r: usize)
    ensures
        r == spec_rounds(replay, per_task),
{
    if replay || per_task < 2 { 1 } else { 2 }
}

/// A run is formal only with the full number of pairs and at least 24 tasks.
pub fn purpose_for(replay: bool, per_task: usize, tasks: usize) -> (r: &'static str)
    ensures
        r@ == (if per_task < default_pairs(replay) || tasks < 24 { "validation"@ } else { "formal"@ }),
{
    if per_task < (if replay { 10 } else { 8 }) || tasks < 24 { "validation" } else { "formal" }
}

/// The minimum interval between upstream requests: `--min-interval-ms`
/// (15 s by default), never below 6 s.
pub fn request_interval(args: &[String]) -> (r: Result<usize, String>)
    ensures
        match r {
            Ok(n) => match spec_number(arg_views(args@), "--min-interval-ms"@, 15000) {
                Ok(v) => n == (if v > 6000 { v } else { 6000 }),
                Err(_) => false,
            },
            Err(e) => spec_number(arg_views(args@), "--min-interval-ms"@, 15000) == Err::<usize, Seq<char>>(e@),
        },
{
    match number(args, "--min-interval-ms", 15000) {
        Ok(v) => Ok(if v > 6000 { v } else { 6000 }),
        Err(e) => Err(e),
    }
}

/// The pairs a task needs in one round: an even share, the remainder going
/// to the first rounds.
pub open spec fn spec_quota(per_task: usize, rounds: usize, round: usize) -> int {
    per_task / rounds + if round < per_task % rounds { 1int } else { 0int }
}

/// The pairs a task needs in one round.
pub fn round_quota(per_task: usize, rounds: usize, round: usize) -> (r: usize)
    requires
        rounds > 0,
    ensures
        r == spec_quota(per_task, rounds, round),
{
    let q = per_task / rounds;
    if round < per_task % rounds {
        assert(rounds >= 2) by {
            if rounds == 1 {
                assert(per_task % rounds == 0);
            }
        }
        assert(q < usize::MAX) by (nonlinear_arith)
            requires q == per_task / rounds, rounds >= 2, per_task <= usize::MAX;
        q + 1
    } else {
        q
    }
}

/// The attempts a task may take in one round: its quota offline, half as
/// many again (rounded up) online to make up for failures.
pub fn round_limit(replay: bool, quota: usize) -> (r: usize)
    requires
        quota <= usize::MAX / 2,
    ensures
        r == (if replay { quota as int } else { quota + (quota + 1) / 2 }),
{
    if replay { quota } else { quota + (quota + 1) / 2 }
}

/// Every pair of a task gets its quota over the rounds: the round quotas
/// add up to the pairs per task.
pub proof fn lemma_quotas_cover(per_task: usize)
    ensures
        spec_quota(per_task, 1, 0) == per_task,
        spec_quota(per_task, 2, 0) + spec_quota(per_task, 2, 1) == per_task,
{
    assert(per_task % 1 == 0);
}

/// One step of the xorshift generator that orders the tasks.
pub open spec fn xorshift(seed: u32) -> u32 {
    let a = seed ^ (seed << 13u32);
    let b = a ^ (a >> 17u32);
    b ^ (b << 5u32)
}

/// The tasks swapped at `i` and `j`.
pub open spec fn swapped<T>(s: Seq<T>, i: int, j: int) -> Seq<T> {
    s.update(i, s[j]).update(j, s[i])
}

/// The shuffle from `index` down to 1: at each step the generator advances
/// and the task at `index` changes place with the one at `seed % (index + 1)`.
pub open spec fn shuffle_from<T>(tasks: Seq<T>, seed: u32, index: int) -> (Seq<T>, u32)
    decreases index,
{
    if index < 1 || index >= tasks.len() {
        (tasks, seed)
    } else {
        let s = xorshift(seed);
        let j = (s as int) % (index + 1);
        shuffle_from(swapped(tasks, index, j), s, index - 1)
    }
}

fn swap_items<T>(v: &mut Vec<T>, i: usize, j: usize)
    requires
        i < old(v)@.len(),
        j < old(v)@.len(),
    ensures
        final(v)@ == swapped(old(v)@, i as int, j as int),
{
    if i == j {
        assert(old(v)@ =~= swapped(old(v)@, i as int, j as int));
        return;
    }
    let (lo, hi) = if i < j { (i, j) } else { (j, i) };
    let ghost s = v@;
    let b = v.remove(hi);
    let a = v.remove(lo);
    v.insert(lo, b);
    v.insert(hi, a);
    assert(v@ =~= swapped(s, i as int, j as int));
}

/// Shuffles the tasks of a round, advancing the generator.
pub fn shuffle<T>(tasks: &mut Vec<T>, seed: &mut u32)
    ensures
        (final(tasks)@, *final(seed)) == shuffle_from(old(tasks)@, *old(seed), old(tasks)@.len() - 1),
{
    if tasks.len() < 2 {
        return;
    }
    let mut index = tasks.len() - 1;
    while index >= 1
        invariant
            index < tasks@.len(),
            tasks@.len() == old(tasks)@.len(),
            shuffle_from(old(tasks)@, *old(seed), old(tasks)@.len() - 1) == shuffle_from(tasks@, *seed, index as int),
        decreases index,
    {
        let s = *seed;
        let a = s ^ (s << 13u32);
        let b = a ^ (a >> 17u32);
        let next = b ^ (b << 5u32);
        *seed = next;
        assert(index < tasks.len());
        let j = (next as usize) % (index + 1);
        swap_items(tasks, index, j);
        index -= 1;
    }
}

/// The shuffle keeps every task, as often as it was there.
pub proof fn lemma_shuffle_permutes<T>(tasks: Seq<T>, seed: u32, index: int)
    ensures
        shuffle_from(tasks, seed, index).0.to_multiset() == tasks.to_multiset(),
        shuffle_from(tasks, seed, index).0.len() == tasks.len(),
    decreases index,
{
    broadcast use vstd::seq_lib::to_multiset_update;
    broadcast use vstd::multiset::group_multiset_axioms;
    if index >= 1 && index < tasks.len() {
        let s = xorshift(seed);
        let j = (s as int) % (index + 1);
        let t = swapped(tasks, index, j);
        let u = tasks.update(index, tasks[j]);
        assert(u.to_multiset() == tasks.to_multiset().insert(tasks[j]).remove(tasks[index]));
        assert(t.to_multiset() == u.to_multiset().insert(tasks[index]).remove(u[j]));
        if j == index {
            assert(t =~= tasks);
        } else {
            assert(u[j] == tasks[j]);
            let m = tasks.to_multiset();
            let a = tasks[j];
            let b = tasks[index];
            assert(m.count(b) >= 1) by {
                vstd::seq_lib::to_multiset_contains(tasks, b);
                assert(tasks.contains(b));
            }
            assert(m.count(a) >= 1) by {
                vstd::seq_lib::to_multiset_contains(tasks, a);
                assert(tasks.contains(a));
            }
            assert forall|x: T| #[trigger] t.to_multiset().count(x) == m.count(x) by {}
            assert(t.to_multiset() =~= m);
        }
        lemma_shuffle_permutes(t, s, index - 1);
    }
}


/// A number written with at least two digits (`{:02}`).
pub open spec fn two_digits(n: nat) -> Seq<char> {
    if n < 10 { seq!['0'] + crate::text::decimal(n) } else { crate::text::decimal(n) }
}

/// The name of a pair: `r<round>-<task>-a<sample>`, rounds counted from one.
pub open spec fn spec_pair_name(round: usize, task_id: Seq<char>, sample: usize) -> Seq<char> {
    "r"@ + crate::text::decimal((round + 1) as nat) + "-"@ + task_id + "-a"@ + two_digits(sample as nat)
}

/// Names a pair of arms.
pub fn pair_name(round: usize, task_id: &str, sample: usize) -> (r: String)
    requires
        round < usize::MAX,
    ensures
        r@ == spec_pair_name(round, task_id@, sample),
{
    let mut out = owned("r");
    crate::text::push_decimal(&mut out, (round + 1) as u64);
    push_all(&mut out, "-");
    push_all(&mut out, task_id);
    push_all(&mut out, "-a");
    if sample < 10 {
        crate::text::push_char(&mut out, '0');
    }
    crate::text::push_decimal(&mut out, sample as u64);
    proof {
        reveal_strlit("r");
        reveal_strlit("-");
        reveal_strlit("-a");
    }
    assert(out@ =~= spec_pair_name(round, task_id@, sample));
    out
}

/// The order of the two arms of a pair alternates from pair to pair.
pub fn arm_order(attempted: usize) -> (r: (&'static str, &'static str))
    ensures
        attempted % 2 == 0 ==> r.0@ == "shell"@ && r.1@ == "transparent"@,
        attempted % 2 == 1 ==> r.0@ == "transparent"@ && r.1@ == "shell"@,
{
    if attempted % 2 == 0 { ("shell", "transparent") } else { ("transparent", "shell") }
}

/// Whether a task is one of the comma-separated identifiers of `--tasks`.
pub open spec fn task_selected(task: Json, filter: Seq<char>) -> bool {
    exists|i: int| 0 <= i < crate::text::spec_split(filter, ',').len()
        && crate::json::spec_is_text(spec_field(task, "id"@), #[trigger] crate::text::spec_split(filter, ',')[i])
}

/// Keeps the tasks named by `--tasks`, in order.
pub open spec fn selected_tasks(tasks: Seq<Json>, filter: Seq<char>, n: int) -> Seq<Json>
    decreases n,
{
    if n <= 0 || n > tasks.len() {
        Seq::empty()
    } else if task_selected(tasks[n - 1], filter) {
        selected_tasks(tasks, filter, n - 1).push(tasks[n - 1])
    } else {
        selected_tasks(tasks, filter, n - 1)
    }
}

/// Keeps the tasks named by a `--tasks` filter.
pub fn filter_tasks(tasks: Vec<JsonValue>, filter: &str) -> (r: Vec<JsonValue>)
    ensures
        crate::evidence::value_views(r@) == selected_tasks(crate::evidence::value_views(tasks@), filter@, tasks@.len() as int),
{
    let fchars = chars_of(filter);
    let names = crate::text::split_on(fchars.as_slice(), ',');
    let ghost nv = crate::text::spec_split(filter@, ',');
    let ghost tv = crate::evidence::value_views(tasks@);
    let mut out: Vec<JsonValue> = Vec::new();
    let mut i: usize = 0;
    while i < tasks.len()
        invariant
            i <= tasks.len(),
            tv == crate::evidence::value_views(tasks@),
            nv == crate::text::spec_split(filter@, ','),
            crate::text::char_views(names@) == nv,
            crate::evidence::value_views(out@) == selected_tasks(tv, filter@, i as int),
        decreases tasks.len() - i,
    {
        assert(tv[i as int] == tasks@[i as int]@);
        let id = tasks[i].field("id");
        let mut k: usize = 0;
        let mut hit = false;
        while k < names.len() && !hit
            invariant
                k <= names.len(),
                crate::text::char_views(names@) == nv,
                nv == crate::text::spec_split(filter@, ','),
                hit ==> task_selected(tv[i as int], filter@),
                !hit ==> forall|m: int| 0 <= m < k ==> !crate::json::spec_is_text(id@, #[trigger] nv[m]),
                id@ == spec_field(tv[i as int], "id"@),
            decreases names.len() - k + (if hit { 0int } else { 1int }),
        {
            assert(names@[k as int]@ == nv[k as int]);
            let name = crate::text::string_of(names[k].as_slice());
            if id.is_text(name.as_str()) {
                assert(crate::json::spec_is_text(spec_field(tv[i as int], "id"@), nv[k as int]));
                hit = true;
            } else {
                k += 1;
            }
        }
        let ghost before = crate::evidence::value_views(out@);
        if hit {
            out.push(tasks[i].copy());
            assert(crate::evidence::value_views(out@) =~= before.push(tv[i as int]));
        }
        i += 1;
    }
    out
}


/// The identifier of one arm: `<pair>-<backend>`.
pub open spec fn spec_attempt_name(pair: Seq<char>, backend: Seq<char>) -> Seq<char> {
    pair + "-"@ + backend
}

/// Names one arm of a pair.
pub fn attempt_name(pair: &str, backend: &str) -> (r: String)
    ensures
        r@ == spec_attempt_name(pair@, backend@),
{
    let mut out = owned(pair);
    push_all(&mut out, "-");
    push_all(&mut out, backend);
    out
}

/// The row of an arm whose directory exists without a seal: an earlier run
/// was interrupted there, and its evidence is kept, not replaced.
pub open spec fn spec_censored_row(experiment: Seq<char>, pair: Seq<char>, id: Seq<char>, task: Json, backend: Seq<char>, phase: Seq<char>, round: usize) -> Json {
    Json::Object(seq![
        ("experiment_id"@, Json::Str(experiment)),
        ("pair_id"@, Json::Str(pair)),
        ("attempt_id"@, Json::Str(id)),
        ("task_id"@, spec_field(task, "id"@)),
        ("backend"@, Json::Str(backend)),
        ("sample_phase"@, Json::Str(phase)),
        ("round"@, int_json(round as u64)),
        ("status"@, Json::Str("censored"@)),
        ("strict_comparable"@, Json::Bool(false)),
        ("failure_class"@, Json::Str("interrupted_attempt_preserved"@)),
        ("artifact_dir"@, Json::Str("attempts/"@ + id)),
    ])
}

/// The row of an interrupted arm.
pub fn censored_row(experiment: &str, pair: &str, id: &str, task: &JsonValue, backend: &str, phase: &str, round: usize) -> (r: JsonValue)
    ensures
        r@ == spec_censored_row(experiment@, pair@, id@, task@, backend@, phase@, round),
{
    let mut dir = owned("attempts/");
    push_all(&mut dir, id);
    let mut m: Vec<(String, JsonValue)> = Vec::new();
    push_member(&mut m, "experiment_id", text_value(experiment));
    push_member(&mut m, "pair_id", text_value(pair));
    push_member(&mut m, "attempt_id", text_value(id));
    push_member(&mut m, "task_id", task.field("id"));
    push_member(&mut m, "backend", text_value(backend));
    push_member(&mut m, "sample_phase", text_value(phase));
    push_member(&mut m, "round", JsonValue::Number(JsonNumber::PosInt(round as u64)));
    push_member(&mut m, "status", text_value("censored"));
    push_member(&mut m, "strict_comparable", JsonValue::Bool(false));
    push_member(&mut m, "failure_class", text_value("interrupted_attempt_preserved"));
    push_member(&mut m, "artifact_dir", JsonValue::Str(dir));
    let r = object_value(m);
    assert(r@ =~= spec_censored_row(experiment@, pair@, id@, task@, backend@, phase@, round)) by {
        if let Json::Object(a) = r@ {
            assert(a =~= seq![
                ("experiment_id"@, Json::Str(experiment@)),
                ("pair_id"@, Json::Str(pair@)),
                ("attempt_id"@, Json::Str(id@)),
                ("task_id"@, spec_field(task@, "id"@)),
                ("backend"@, Json::Str(backend@)),
                ("sample_phase"@, Json::Str(phase@)),
                ("round"@, int_json(round as u64)),
                ("status"@, Json::Str("censored"@)),
                ("strict_comparable"@, Json::Bool(false)),
                ("failure_class"@, Json::Str("interrupted_attempt_preserved"@)),
                ("artifact_dir"@, Json::Str("attempts/"@ + id@)),
            ]);
        }
    }
    r
}

/// The prompt of an arm: in Code Mode, run the task's program once; in
/// direct mode, follow the task's steps exactly.
pub open spec fn spec_attempt_prompt(tool_mode: Seq<char>, task: Json) -> Seq<char> {
    if tool_mode == "code"@ {
        "Call exec exactly once using the following complete JavaScript program verbatim. It runs the required tools sequentially. Do not add, remove or rewrite any tool arguments. Nonzero exits are intentional; execute the entire program. Then reply DONE.\n"@ + match spec_as_str(spec_field(task, "code_mode_program"@)) {
            Some(p) => p,
            None => "text('probe');"@,
        }
    } else {
        "Execute this exact ordered tool trajectory. Preserve every argument and every character of cmd. Do not run other commands. Replace $session only with the real session ID returned by the preceding exec_command. Use one tool call at a time, and wait for each result. A nonzero exit is expected in some steps: continue with the next step. After the last step reply DONE.\n"@ + crate::json::json_text(spec_field(task, "steps"@))
    }
}

/// The prompt of an arm.
pub fn attempt_prompt(tool_mode: &str, task: &JsonValue) -> (r: String)
    ensures
        r@ == spec_attempt_prompt(tool_mode@, task@),
{
    if str_eq(tool_mode, "code") {
        let mut out = owned("Call exec exactly once using the following complete JavaScript program verbatim. It runs the required tools sequentially. Do not add, remove or rewrite any tool arguments. Nonzero exits are intentional; execute the entire program. Then reply DONE.\n");
        match task.field_str("code_mode_program") {
            Some(p) => push_all(&mut out, p),
            None => push_all(&mut out, "text('probe');"),
        }
        out
    } else {
        let mut out = owned("Execute this exact ordered tool trajectory. Preserve every argument and every character of cmd. Do not run other commands. Replace $session only with the real session ID returned by the preceding exec_command. Use one tool call at a time, and wait for each result. A nonzero exit is expected in some steps: continue with the next step. After the last step reply DONE.\n");
        let steps = crate::json::to_json_text(&task.field("steps"));
        push_all(&mut out, steps.as_str());
        out
    }
}

/// The arguments Codex is started with; the `exec` subcommand is added
/// unless the binary is `codex-exec` itself.
pub open spec fn spec_codex_arguments(file_name: Option<Seq<char>>, workspace: Seq<char>, prompt: Seq<char>) -> Seq<Seq<char>> {
    let tail = seq!["--json"@, "--strict-config"@, "--ephemeral"@, "--skip-git-repo-check"@, "--cd"@, workspace, "--sandbox"@, "workspace-write"@, prompt];
    if file_name == Some("codex-exec"@) { tail } else { seq!["exec"@] + tail }
}

/// The arguments Codex is started with.
pub fn codex_arguments(file_name: Option<&str>, workspace: &str, prompt: &str) -> (r: Vec<String>)
    ensures
        arg_views(r@) == spec_codex_arguments(match file_name { Some(f) => Some(f@), None => None }, workspace@, prompt@),
{
    let mut out: Vec<String> = Vec::new();
    let exec_binary = match file_name { Some(f) => str_eq(f, "codex-exec"), None => false };
    if !exec_binary {
        out.push(owned("exec"));
    }
    let ghost head = arg_views(out@);
    out.push(owned("--json"));
    out.push(owned("--strict-config"));
    out.push(owned("--ephemeral"));
    out.push(owned("--skip-git-repo-check"));
    out.push(owned("--cd"));
    out.push(owned(workspace));
    out.push(owned("--sandbox"));
    out.push(owned("workspace-write"));
    out.push(owned(prompt));
    let ghost tail = seq!["--json"@, "--strict-config"@, "--ephemeral"@, "--skip-git-repo-check"@, "--cd"@, workspace@, "--sandbox"@, "workspace-write"@, prompt@];
    assert(arg_views(out@) =~= head + tail);
    out
}

/// The attempt's infrastructure status after Codex's own output: when no
/// failure was seen yet and Codex did not complete the turn with exit code
/// zero, its output classifies the failure.
pub open spec fn spec_codex_infrastructure(current: Seq<char>, parsed: crate::codex_evidence::ParsedView, exit_code: Option<i32>, stderr: Seq<char>) -> Seq<char> {
    if current == "none"@ && (!parsed.turn_completed || exit_code != Some(0i32)) {
        crate::codex_evidence::spec_classify(parsed, stderr).0
    } else {
        current
    }
}

/// The attempt's infrastructure status after Codex's own output.
pub fn codex_infrastructure(current: String, parsed: &crate::codex_evidence::ParsedCodex, exit_code: Option<i32>, stderr: &str) -> (r: String)
    ensures
        r@ == spec_codex_infrastructure(current@, parsed@, exit_code, stderr@),
{
    if str_eq(current.as_str(), "none") && (!parsed.turn_completed || exit_code != Some(0i32)) {
        crate::codex_evidence::classify_external_failure(parsed, stderr).0
    } else {
        current
    }
}

/// The HTTP status of a relay row: its own, or its detail's.
pub open spec fn relay_http_status(row: Json) -> Option<u64> {
    match crate::json::spec_as_u64(spec_field(row, "http_status"@)) {
        Some(c) => Some(c),
        None => crate::json::spec_as_u64(spec_field(spec_field(row, "detail"@), "status"@)),
    }
}

/// The infrastructure status after one relay row: a harness error, a broken
/// stream, or an HTTP error status overrides what came before.
pub open spec fn relay_step(current: Seq<char>, row: Json) -> Seq<char> {
    let event = spec_as_str(spec_field(row, "event"@));
    let a = if event == Some("harness_error"@) { "harness_error"@ } else { current };
    let b = if event == Some("stream_error"@) || event == Some("transport_error"@) { "relay_error"@ } else { a };
    match relay_http_status(row) {
        Some(code) => if code == 429 || code >= 500 { "relay_error"@ } else if code >= 400 { "provider_error"@ } else { b },
        None => b,
    }
}

/// The infrastructure status after the first `n` relay rows.
pub open spec fn relay_fold(current: Seq<char>, rows: Seq<Json>, n: int) -> Seq<char>
    decreases n,
{
    if n <= 0 || n > rows.len() {
        current
    } else {
        relay_step(relay_fold(current, rows, n - 1), rows[n - 1])
    }
}

/// The infrastructure status once the relay's rows for the attempt are read.
pub fn relay_infrastructure(current: String, external: &[JsonValue]) -> (r: String)
    ensures
        r@ == relay_fold(current@, crate::evidence::value_views(external@), external@.len() as int),
{
    let ghost v = crate::evidence::value_views(external@);
    let ghost start = current@;
    let mut state = current;
    let mut i: usize = 0;
    while i < external.len()
        invariant
            i <= external.len(),
            v == crate::evidence::value_views(external@),
            state@ == relay_fold(start, v, i as int),
        decreases external.len() - i,
    {
        let row = &external[i];
        assert(v[i as int] == row@);
        let event = row.field("event");
        if event.is_text("harness_error") {
            state = owned("harness_error");
        }
        if event.is_text("stream_error") || event.is_text("transport_error") {
            state = owned("relay_error");
        }
        let code = match row.field("http_status").as_u64() {
            Some(c) => Some(c),
            None => row.field("detail").field("status").as_u64(),
        };
        match code {
            Some(c) => {
                if c == 429 || c >= 500 {
                    state = owned("relay_error");
                } else if c >= 400 {
                    state = owned("provider_error");
                }
            },
            None => {},
        }
        i += 1;
    }
    state
}


/// Whether a Codex event is a completed command execution item.
pub open spec fn is_command_item(v: Json) -> bool {
    let item_kind = spec_as_str(spec_field(spec_field(v, "item"@), "type"@));
    crate::json::spec_is_text(spec_field(v, "type"@), "item.completed"@)
        && (item_kind == Some("command_execution"@) || item_kind == Some("commandExecution"@))
}

/// The command items among the first `n` lines of Codex's output.
pub open spec fn command_items(lines: Seq<Seq<char>>, n: int) -> Seq<Json>
    decreases n,
{
    if n <= 0 || n > lines.len() {
        Seq::empty()
    } else {
        let prev = command_items(lines, n - 1);
        match crate::json::json_parse(vstd::utf8::encode_utf8(lines[n - 1])) {
            Some(v) => if is_command_item(v) { prev.push(spec_field(v, "item"@)) } else { prev },
            None => prev,
        }
    }
}

/// The completed command items of Codex's standard output, in order.
pub open spec fn spec_completed_commands(stdout: Seq<u8>) -> Seq<Json> {
    let lines = crate::codex_evidence::spec_lines(crate::codex_evidence::utf8_lossy(stdout));
    command_items(lines, lines.len() as int)
}

/// Collects the completed command items of Codex's standard output.
pub fn completed_commands(stdout: &[u8]) -> (r: Vec<JsonValue>)
    ensures
        crate::evidence::value_views(r@) == spec_completed_commands(stdout@),
{
    let text = crate::codex_evidence::lossy_text(stdout);
    let chars = chars_of(text.as_str());
    let ghost s = chars@;
    let ghost all = crate::codex_evidence::spec_lines(s);
    let mut out: Vec<JsonValue> = Vec::new();
    let mut start: usize = 0;
    let ghost mut done: int = 0;
    assert(s.skip(0) =~= s);
    proof {
        lemma_lines_suffix(s, 0);
    }
    while start < chars.len()
        invariant
            start <= chars.len(),
            s == chars@,
            all == crate::codex_evidence::spec_lines(s),
            0 <= done <= all.len(),
            crate::codex_evidence::spec_lines(s.skip(start as int)) == all.skip(done),
            crate::evidence::value_views(out@) == command_items(all, done),
        decreases chars.len() - start,
    {
        let end = crate::text::next_sep(chars.as_slice(), '\n', start);
        let stop = if end < chars.len() && end > start && chars[end - 1] == '\r' { end - 1 } else { end };
        let line = crate::text::slice_chars(chars.as_slice(), start, stop);
        let next = if end < chars.len() { end + 1 } else { end };
        proof {
            crate::codex_evidence::lemma_lines_step(s, start as int, end as int, line@, next as int);
            assert(all.skip(done).len() > 0);
            assert(all.skip(done)[0] == line@);
            assert(all[done] == line@);
            assert(all.skip(done).drop_first() =~= all.skip(done + 1));
        }
        let text_line = crate::text::string_of(line.as_slice());
        let ghost before = crate::evidence::value_views(out@);
        match crate::json::parse_json(text_line.as_str().as_bytes()) {
            Some(v) => {
                let item = v.field("item");
                let kind = item.field_str("type");
                let command = match kind {
                    Some(k) => str_eq(k, "command_execution") || str_eq(k, "commandExecution"),
                    None => false,
                };
                if v.field("type").is_text("item.completed") && command {
                    out.push(item);
                    assert(crate::evidence::value_views(out@) =~= before.push(spec_field(v@, "item"@)));
                }
            },
            None => {},
        }
        proof {
            done = done + 1;
        }
        start = next;
    }
    proof {
        assert(s.skip(start as int) =~= Seq::<char>::empty());
        assert(all.skip(done).len() == 0);
        assert(done == all.len());
    }
    out
}

/// The lines of a suffix are a suffix of the lines.
proof fn lemma_lines_suffix(s: Seq<char>, start: int)
    requires
        start == 0,
    ensures
        crate::codex_evidence::spec_lines(s.skip(start)) == crate::codex_evidence::spec_lines(s).skip(0),
{
    assert(s.skip(start) =~= s);
    assert(crate::codex_evidence::spec_lines(s).skip(0) =~= crate::codex_evidence::spec_lines(s));
}

/// The tool calls that the trace shows, each with the session ID that the
/// last `exec_command` result before it reported.
pub open spec fn steps_from(rows: Seq<Json>, n: int) -> (Seq<Json>, Json)
    decreases n,
{
    if n <= 0 || n > rows.len() {
        (Seq::empty(), Json::Null)
    } else {
        let (steps, session) = steps_from(rows, n - 1);
        let row = rows[n - 1];
        if !crate::json::spec_is_text(spec_field(row, "phase"@), "tool"@) {
            (steps, session)
        } else {
            let session2 = if crate::json::spec_is_text(spec_field(row, "event"@), "result_ready"@)
                && crate::json::spec_is_text(spec_field(row, "tool"@), "exec_command"@) {
                spec_field(row, "process_id"@)
            } else {
                session
            };
            if crate::json::spec_is_text(spec_field(row, "event"@), "arguments"@) {
                (steps.push(Json::Object(seq![
                    ("tool"@, spec_field(row, "tool"@)),
                    ("arguments"@, spec_field(row, "arguments"@)),
                    ("expected_session_id"@, session2),
                ])), session2)
            } else {
                (steps, session2)
            }
        }
    }
}

/// The tool calls of an attempt, as its trace shows them.
pub fn actual_steps(rows: &[JsonValue]) -> (r: Vec<JsonValue>)
    ensures
        crate::evidence::value_views(r@) == steps_from(crate::evidence::value_views(rows@), rows@.len() as int).0,
{
    let ghost v = crate::evidence::value_views(rows@);
    let mut out: Vec<JsonValue> = Vec::new();
    let mut session = JsonValue::Null;
    let mut i: usize = 0;
    while i < rows.len()
        invariant
            i <= rows.len(),
            v == crate::evidence::value_views(rows@),
            (crate::evidence::value_views(out@), session@) == steps_from(v, i as int),
        decreases rows.len() - i,
    {
        let row = &rows[i];
        assert(v[i as int] == row@);
        if row.field("phase").is_text("tool") {
            let event = row.field("event");
            if event.is_text("result_ready") && row.field("tool").is_text("exec_command") {
                session = row.field("process_id");
            }
            if event.is_text("arguments") {
                let ghost members = seq![
                    ("tool"@, spec_field(row@, "tool"@)),
                    ("arguments"@, spec_field(row@, "arguments"@)),
                    ("expected_session_id"@, session@),
                ];
                let mut m: Vec<(String, JsonValue)> = Vec::new();
                assert(member_views(m@) =~= Seq::<(Seq<char>, Json)>::empty());
                push_member(&mut m, "tool", row.field("tool"));
                push_member(&mut m, "arguments", row.field("arguments"));
                push_member(&mut m, "expected_session_id", session.copy());
                assert(member_views(m@) =~= members);
                let ghost before = crate::evidence::value_views(out@);
                let step = object_value(m);
                assert(step@ == Json::Object(members));
                out.push(step);
                assert(crate::evidence::value_views(out@) =~= before.push(Json::Object(members)));
            }
        }
        i += 1;
    }
    out
}

/// Whether a relay row finishes the request `request`.
pub open spec fn finishes(row: Json, request: Json) -> bool {
    crate::json_object::json_same(spec_field(row, "request_id"@), spec_field(request, "request_id"@))
        && (crate::json::spec_is_text(spec_field(row, "event"@), "request_finished"@)
            || crate::json::spec_is_text(spec_field(row, "event"@), "transport_error"@))
}

/// Whether the proxy still owes the end of a received request (online only).
pub open spec fn spec_relay_pending(external: Seq<Json>, replay: bool) -> bool {
    !replay && exists|i: int| 0 <= i < external.len()
        && crate::json::spec_is_text(spec_field(#[trigger] external[i], "event"@), "request_received"@)
        && !exists|j: int| 0 <= j < external.len() && finishes(#[trigger] external[j], external[i])
}

/// Whether the proxy still owes the end of a received request.
pub fn relay_pending(external: &[JsonValue], replay: bool) -> (r: bool)
    ensures
        r == spec_relay_pending(crate::evidence::value_views(external@), replay),
{
    let ghost v = crate::evidence::value_views(external@);
    if replay {
        return false;
    }
    let mut i: usize = 0;
    while i < external.len()
        invariant
            i <= external.len(),
            !replay,
            v == crate::evidence::value_views(external@),
            forall|a: int| 0 <= a < i ==> !(crate::json::spec_is_text(spec_field(#[trigger] v[a], "event"@), "request_received"@)
                && !exists|j: int| 0 <= j < v.len() && finishes(#[trigger] v[j], v[a])),
        decreases external.len() - i,
    {
        let request = &external[i];
        assert(v[i as int] == request@);
        if request.field("event").is_text("request_received") {
            let id = request.field("request_id");
            let mut k: usize = 0;
            let mut finished = false;
            while k < external.len() && !finished
                invariant
                    k <= external.len(),
                    v == crate::evidence::value_views(external@),
                    id@ == spec_field(v[i as int], "request_id"@),
                    finished ==> exists|j: int| 0 <= j < v.len() && finishes(#[trigger] v[j], v[i as int]),
                    !finished ==> forall|j: int| 0 <= j < k ==> !finishes(#[trigger] v[j], v[i as int]),
                decreases external.len() - k + (if finished { 0int } else { 1int }),
            {
                let row = &external[k];
                assert(v[k as int] == row@);
                let event = row.field("event");
                let ends = event.is_text("request_finished") || event.is_text("transport_error");
                if ends && crate::json_object::json_eq(&row.field("request_id"), &id) {
                    assert(finishes(v[k as int], v[i as int]));
                    finished = true;
                } else {
                    k += 1;
                }
            }
            if !finished {
                assert(crate::json::spec_is_text(spec_field(v[i as int], "event"@), "request_received"@));
                assert(!exists|j: int| 0 <= j < v.len() && finishes(#[trigger] v[j], v[i as int]));
                assert(0 <= i < v.len());
                assert(spec_relay_pending(v, replay)) by {
                    let w = i as int;
                    assert(crate::json::spec_is_text(spec_field(v[w], "event"@), "request_received"@)
                        && !exists|j: int| 0 <= j < v.len() && finishes(#[trigger] v[j], v[w]));
                }
                return true;
            }
        }
        i += 1;
    }
    false
}

/// Whether the fixture processes are known to be gone: not if one was still
/// running, unknown if one could not be identified.
pub fn processes_clean(residual: usize, unidentified_live: usize) -> (r: Option<bool>)
    ensures
        residual > 0 ==> r == Some(false),
        residual == 0 && unidentified_live == 0 ==> r == Some(true),
        residual == 0 && unidentified_live > 0 ==> r is None,
{
    if residual > 0 {
        Some(false)
    } else if unidentified_live == 0 {
        Some(true)
    } else {
        None
    }
}

// ---------------------------------------------------------------------------
// Accounting of a collection
// ---------------------------------------------------------------------------

/// The counts a collection keeps while it runs: pairs attempted, pairs
/// that count as valid, failed arms, the window of recent infrastructure
/// failures, and why it stopped, once it did.
pub struct Tally {
    pub attempted: usize,
    pub valid: usize,
    pub failures: usize,
    pub window: VecDeque<bool>,
    pub stop_reason: Option<String>,
}

/// The view of a [`Tally`].
pub struct TallyView {
    pub attempted: nat,
    pub valid: nat,
    pub failures: nat,
    pub window: Seq<bool>,
    pub stop_reason: Option<Seq<char>>,
}

impl Tally {
    pub open spec fn view(&self) -> TallyView {
        TallyView {
            attempted: self.attempted as nat,
            valid: self.valid as nat,
            failures: self.failures as nat,
            window: self.window@,
            stop_reason: match self.stop_reason { Some(r) => Some(r@), None => None },
        }
    }
}

/// Whether an arm's row reports success.
pub open spec fn arm_succeeded(row: Json) -> bool {
    spec_field(row, "status"@) == Json::Str("success"@)
}

/// Whether an arm's row can be compared strictly with its partner.
pub open spec fn arm_comparable(row: Json) -> bool {
    spec_field(row, "strict_comparable"@) == Json::Bool(true)
}

/// The tally after one arm: a failed arm is counted, and the arm enters
/// the window of recent infrastructure failures.
pub open spec fn spec_record_arm(t: TallyView, row: Json) -> TallyView {
    TallyView {
        failures: t.failures + if arm_succeeded(row) { 0nat } else { 1nat },
        window: spec_track(t.window, row),
        ..t
    }
}

/// The tally after a pair: it counts as attempted; it counts as valid, and
/// towards its scenario's quota, where both arms were comparable and the
/// collection has not stopped; and a window that shows an infrastructure
/// problem stops the collection.
pub open spec fn spec_finish_pair(t: TallyView, comparable: bool) -> TallyView {
    let counted = comparable && t.stop_reason is None;
    TallyView {
        attempted: t.attempted + 1,
        valid: t.valid + if counted { 1nat } else { 0nat },
        stop_reason: if spec_unhealthy(t.window) { Some("infrastructure failure threshold reached"@) } else { t.stop_reason },
        ..t
    }
}

/// The collection's summary, without the elapsed time.
pub open spec fn spec_tally_summary(t: TallyView, target: usize) -> Json {
    Json::Object(seq![
        ("attempted_pairs"@, Json::Number(Num::PosInt(t.attempted as u64))),
        ("failed_arms"@, Json::Number(Num::PosInt(t.failures as u64))),
        ("partial"@, Json::Bool(t.valid < target)),
        ("schema_version"@, Json::Number(Num::PosInt(2))),
        ("stop_reason"@, match t.stop_reason { Some(r) => Json::Str(r), None => Json::Null }),
        ("target_pairs"@, Json::Number(Num::PosInt(target as u64))),
        ("valid_pairs"@, Json::Number(Num::PosInt(t.valid as u64))),
    ])
}

/// The progress row after a pair, without the time estimate.
pub open spec fn spec_progress_detail(t: TallyView, pair: Seq<char>, task_id: Json, target: usize) -> Json {
    Json::Object(seq![
        ("failed_arms"@, Json::Number(Num::PosInt(t.failures as u64))),
        ("pair_id"@, Json::Str(pair)),
        ("remaining_target"@, Json::Number(Num::PosInt((target - t.valid) as u64))),
        ("target_pairs"@, Json::Number(Num::PosInt(target as u64))),
        ("task_id"@, task_id),
        ("valid_pairs"@, Json::Number(Num::PosInt(t.valid as u64))),
    ])
}

/// The detail of the row written before an arm starts.
pub open spec fn spec_attempt_start_detail(t: TallyView, pair: Seq<char>, task_id: Json, backend: Seq<char>, target: usize) -> Json {
    Json::Object(seq![
        ("backend"@, Json::Str(backend)),
        ("failed_arms"@, Json::Number(Num::PosInt(t.failures as u64))),
        ("pair_id"@, Json::Str(pair)),
        ("target_pairs"@, Json::Number(Num::PosInt(target as u64))),
        ("task_id"@, task_id),
        ("valid_pairs"@, Json::Number(Num::PosInt(t.valid as u64))),
    ])
}

/// Why a relay collection stops before its first pair: when none of its
/// three probes succeeded.
pub open spec fn spec_probe_stop(rows: Seq<Json>) -> Option<Seq<char>> {
    if exists|i: int| 0 <= i < rows.len() && arm_succeeded(#[trigger] rows[i]) {
        None
    } else {
        Some("all three initial probes failed"@)
    }
}

fn count_value(n: usize) -> (r: JsonValue)
    ensures
        r@ == Json::Number(Num::PosInt(n as u64)),
{
    JsonValue::Number(JsonNumber::PosInt(n as u64))
}

impl Tally {
    /// A collection before its first pair.
    pub fn new() -> (t: Tally)
        ensures
            t@ == (TallyView { attempted: 0, valid: 0, failures: 0, window: Seq::empty(), stop_reason: None }),
    {
        Tally { attempted: 0, valid: 0, failures: 0, window: VecDeque::new(), stop_reason: None }
    }

    /// Records one arm's row; returns whether the pair is still comparable,
    /// given whether it was before this arm.
    pub fn record_arm(&mut self, row: &JsonValue, comparable: bool) -> (still: bool)
        requires
            old(self).failures < usize::MAX,
        ensures
            final(self)@ == spec_record_arm(old(self)@, row@),
            still == (comparable && arm_comparable(row@)),
    {
        let succeeded = row.field("status").is_text("success");
        if !succeeded {
            self.failures = self.failures + 1;
        }
        track_infrastructure(&mut self.window, row);
        let strict = match row.get("strict_comparable") {
            Some(JsonValue::Bool(true)) => true,
            _ => false,
        };
        proof {
            reveal_strlit("success");
        }
        assert(succeeded == arm_succeeded(row@));
        comparable && strict
    }

    /// Stops the collection where an arm could not be collected.
    pub fn arm_failed(&mut self, error: &str)
        ensures
            final(self)@ == (TallyView { stop_reason: Some("collector failure: "@ + error@), ..old(self)@ }),
    {
        let mut reason = owned("collector failure: ");
        push_all(&mut reason, error);
        self.stop_reason = Some(reason);
    }

    /// Closes a pair (see [`spec_finish_pair`]); `successes[task_index]`
    /// counts the valid pairs of the pair's scenario in this round.
    pub fn finish_pair(&mut self, comparable: bool, successes: &mut Vec<usize>, task_index: usize)
        requires
            task_index < old(successes)@.len(),
            old(self).attempted < usize::MAX,
            old(self).valid < usize::MAX,
            old(successes)@[task_index as int] < usize::MAX,
        ensures
            final(self)@ == spec_finish_pair(old(self)@, comparable),
            final(successes)@ == if comparable && old(self)@.stop_reason is None {
                old(successes)@.update(task_index as int, (old(successes)@[task_index as int] + 1) as usize)
            } else {
                old(successes)@
            },
    {
        self.attempted = self.attempted + 1;
        if comparable && self.stop_reason.is_none() {
            successes.set(task_index, successes[task_index] + 1);
            self.valid = self.valid + 1;
        }
        if unhealthy(&self.window) {
            self.stop_reason = Some(owned("infrastructure failure threshold reached"));
        }
    }

    /// The collection's summary, without the elapsed time, for `target`
    /// pairs in all.
    pub fn summary(&self, target: usize) -> (r: JsonValue)
        ensures
            r@ == spec_tally_summary(self@, target),
    {
        let mut m: Vec<(String, JsonValue)> = Vec::new();
        push_member(&mut m, "attempted_pairs", count_value(self.attempted));
        push_member(&mut m, "failed_arms", count_value(self.failures));
        push_member(&mut m, "partial", JsonValue::Bool(self.valid < target));
        push_member(&mut m, "schema_version", count_value(2));
        push_member(&mut m, "stop_reason", match &self.stop_reason {
            Some(r) => text_value(r.as_str()),
            None => JsonValue::Null,
        });
        push_member(&mut m, "target_pairs", count_value(target));
        push_member(&mut m, "valid_pairs", count_value(self.valid));
        assert(member_views(m@) =~= match spec_tally_summary(self@, target) { Json::Object(ms) => ms, _ => Seq::empty() });
        object_of(m)
    }

    /// The progress row after pair `pair` of the scenario `task_id`, without
    /// the time estimate.
    pub fn progress_detail(&self, pair: &str, task_id: &JsonValue, target: usize) -> (r: JsonValue)
        requires
            self.valid <= target,
        ensures
            r@ == spec_progress_detail(self@, pair@, task_id@, target),
    {
        let mut m: Vec<(String, JsonValue)> = Vec::new();
        push_member(&mut m, "failed_arms", count_value(self.failures));
        push_member(&mut m, "pair_id", text_value(pair));
        push_member(&mut m, "remaining_target", count_value(target - self.valid));
        push_member(&mut m, "target_pairs", count_value(target));
        push_member(&mut m, "task_id", task_id.copy());
        push_member(&mut m, "valid_pairs", count_value(self.valid));
        assert(member_views(m@) =~= match spec_progress_detail(self@, pair@, task_id@, target) { Json::Object(ms) => ms, _ => Seq::empty() });
        object_of(m)
    }

    /// The detail of the row written before the `backend` arm of `pair`.
    pub fn attempt_start_detail(&self, pair: &str, task_id: &JsonValue, backend: &str, target: usize) -> (r: JsonValue)
        ensures
            r@ == spec_attempt_start_detail(self@, pair@, task_id@, backend@, target),
    {
        let mut m: Vec<(String, JsonValue)> = Vec::new();
        push_member(&mut m, "backend", text_value(backend));
        push_member(&mut m, "failed_arms", count_value(self.failures));
        push_member(&mut m, "pair_id", text_value(pair));
        push_member(&mut m, "target_pairs", count_value(target));
        push_member(&mut m, "task_id", task_id.copy());
        push_member(&mut m, "valid_pairs", count_value(self.valid));
        assert(member_views(m@) =~= match spec_attempt_start_detail(self@, pair@, task_id@, backend@, target) { Json::Object(ms) => ms, _ => Seq::empty() });
        object_of(m)
    }
}

/// What the collector does at the next scenario of a sample.
pub enum PairStep {
    /// The collection has stopped: no more pairs.
    Stop,
    /// The scenario met its quota for this round: it is passed over.
    Skip,
    /// The scenario's next pair is collected.
    Run,
}

impl Tally {
    /// The next step for the scenario at `task_index`, whose valid pairs
    /// this round are `successes[task_index]` of `quota`: stop once the
    /// collection has a stop reason, pass over a scenario that met its
    /// quota, and collect a pair otherwise.
    pub fn pair_step(&self, successes: &Vec<usize>, task_index: usize, quota: usize) -> (r: PairStep)
        requires
            task_index < successes@.len(),
        ensures
            self@.stop_reason is Some ==> r is Stop,
            self@.stop_reason is None && successes@[task_index as int] >= quota ==> r is Skip,
            self@.stop_reason is None && successes@[task_index as int] < quota ==> r is Run,
    {
        if self.stop_reason.is_some() {
            PairStep::Stop
        } else if successes[task_index] >= quota {
            PairStep::Skip
        } else {
            PairStep::Run
        }
    }
}

/// Decides whether a relay collection stops after its probes: `rows` are
/// the probes' rows.
pub fn probe_stop(rows: &Vec<JsonValue>) -> (r: Option<String>)
    ensures
        match spec_probe_stop(crate::evidence::value_views(rows@)) {
            None => r is None,
            Some(m) => r matches Some(t) && t@ == m,
        },
{
    let ghost rv = crate::evidence::value_views(rows@);
    let mut i: usize = 0;
    while i < rows.len()
        invariant
            i <= rows.len(),
            rv == crate::evidence::value_views(rows@),
            forall|j: int| 0 <= j < i ==> !arm_succeeded(#[trigger] rv[j]),
        decreases rows.len() - i,
    {
        assert(rv[i as int] == rows@[i as int]@);
        proof {
            reveal_strlit("success");
        }
        if rows[i].field("status").is_text("success") {
            assert(arm_succeeded(rv[i as int]));
            return None;
        }
        i += 1;
    }
    Some(owned("all three initial probes failed"))
}

/// A pair counts as valid only once it is attempted: the valid pairs never
/// outnumber the attempted ones, and recording an arm changes neither.
pub proof fn lemma_valid_within_attempted(t: TallyView, row: Json, comparable: bool)
    requires
        t.valid <= t.attempted,
    ensures
        spec_record_arm(t, row).valid == t.valid,
        spec_record_arm(t, row).attempted == t.attempted,
        spec_finish_pair(t, comparable).valid <= spec_finish_pair(t, comparable).attempted,
{
}

} // verus!
