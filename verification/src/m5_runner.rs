//! Decisions of the controlled M5 runner that do not touch the machine:
//! which fixture paths are safe, how an arm is classified, how manifests and
//! proxy dump names are read.
use vstd::prelude::*;
use crate::text::{
    chars_eq, chars_of, char_views, ends_with_chars, find_chars, owned, parse_unsigned, push_all,
    push_char, spec_ends_with, spec_find, spec_parse_unsigned, spec_split, spec_starts_with,
    split_on, starts_with, string_of, occurs_at,
};
use crate::json::{Json, JsonNumber, JsonValue, Num, spec_as_i64, spec_field, str_eq};
use crate::json_object::{member_views, object_of, set_member, spec_set};

verus! {

/// Whether a relative fixture path could leave the workspace: it is absolute,
/// starts with `.`, or has a `..` component.
pub open spec fn path_unsafe(rel: Seq<char>) -> bool {
    let parts = spec_split(rel, '/');
    (rel.len() > 0 && rel[0] == '/') || parts[0] == "."@ || exists|i: int|
        0 <= i < parts.len() && parts[i] == ".."@
}

/// `root.join(rel)` for a relative `rel`: a `/` is put between them unless
/// `root` is empty or already ends with one.
pub open spec fn join_path(root: Seq<char>, rel: Seq<char>) -> Seq<char> {
    if root.len() == 0 || root.last() == '/' {
        root + rel
    } else {
        root + "/"@ + rel
    }
}

/// The message for a refused fixture path.
pub open spec fn unsafe_path_message(rel: Seq<char>) -> Seq<char> {
    "unsafe fixture path: "@ + rel
}

/// Joins a fixture path under the workspace root, refusing absolute paths and
/// any component other than a plain name (`..`, or `.` at the start).
pub fn safe_join(root: &str, relative: &str) -> (r: Result<String, String>)
    ensures
        match r {
            Ok(p) => !path_unsafe(relative@) && p@ == join_path(root@, relative@),
            Err(e) => path_unsafe(relative@) && e@ == unsafe_path_message(relative@),
        },
{
    let rel = chars_of(relative);
    let parts = split_on(rel.as_slice(), '/');
    let ghost views = spec_split(rel@, '/');
    proof {
        assert(char_views(parts@).len() == views.len());
        crate::text::lemma_split_nonempty(rel@, '/');
    }
    let dot = ['.'];
    let dotdot = ['.', '.'];
    assert(dot@ =~= "."@) by { reveal_strlit("."); }
    assert(dotdot@ =~= ".."@) by { reveal_strlit(".."); }
    let mut bad = (rel.len() > 0 && rel[0] == '/') || chars_eq(parts[0].as_slice(), &dot);
    assert(parts@[0]@ == views[0]);
    let mut i: usize = 0;
    while i < parts.len()
        invariant
            i <= parts.len(),
            char_views(parts@) == views,
            dotdot@ == ".."@,
            bad == ((rel@.len() > 0 && rel@[0] == '/') || views[0] == "."@ || exists|j: int| 0 <= j < i && views[j] == ".."@),
        decreases parts.len() - i,
    {
        assert(parts@[i as int]@ == views[i as int]);
        let hit = chars_eq(parts[i].as_slice(), &dotdot);
        if hit {
            bad = true;
        }
        assert((exists|j: int| 0 <= j < i + 1 && views[j] == ".."@) == ((exists|j: int| 0 <= j < i && views[j] == ".."@) || views[i as int] == ".."@));
        i += 1;
    }
    if bad {
        let mut message = owned("unsafe fixture path: ");
        push_all(&mut message, relative);
        return Err(message);
    }
    let mut out = owned(root);
    let r = chars_of(root);
    if r.len() > 0 && r[r.len() - 1] != '/' {
        push_char(&mut out, '/');
    }
    push_all(&mut out, relative);
    assert(r@.len() > 0 ==> r@.last() == r@[r.len() - 1]);
    assert(!path_unsafe(relative@));
    proof {
        reveal_strlit("/");
    }
    assert(out@ =~= join_path(root@, relative@));
    Ok(out)
}


/// The failure category of one arm, from the relay status, how much of the
/// run was observed, the backend observation and the checks of the outcome.
/// The checks are ordered: infrastructure, timeout, missing evidence, backend
/// conduct, agent completion, usage, inputs, workspace, output.
pub open spec fn spec_local_classify(
    relay_status: Seq<char>,
    observability: Seq<char>,
    backend_observation: Seq<char>,
    completed: bool,
    usage_complete: bool,
    correct_output: bool,
    inputs_preserved: bool,
    workspace_clean: bool,
    child_processes_clean: bool,
    receipt_valid: bool,
    trace_complete: bool,
    argv_cwd_valid: bool,
    approval_original_command: bool,
    timeout: bool,
) -> Seq<char> {
    if relay_status == "provider_error"@ || relay_status == "transport_error"@ {
        "infrastructure_unavailable"@
    } else if timeout {
        "timeout"@
    } else if observability == "unobserved"@ {
        "evidence_unobserved"@
    } else if observability == "partial"@ {
        "evidence_partial"@
    } else if backend_observation == "unknown"@ && !approval_original_command {
        "backend_observation_unknown"@
    } else if backend_observation == "violation"@ || !approval_original_command {
        "backend_violation"@
    } else if !completed {
        "agent_error"@
    } else if !usage_complete {
        "missing_usage"@
    } else if !inputs_preserved {
        "input_modified"@
    } else if !workspace_clean || !child_processes_clean || !receipt_valid || !trace_complete
        || !argv_cwd_valid {
        "workspace_dirty"@
    } else if !correct_output {
        "incorrect_output"@
    } else {
        "none"@
    }
}

/// Classifies one arm (see [`spec_local_classify`]).
#[allow(clippy::too_many_arguments)]
pub fn local_classify(
    relay_status: &str,
    observability: &str,
    backend_observation: &str,
    completed: bool,
    usage_complete: bool,
    correct_output: bool,
    inputs_preserved: bool,
    workspace_clean: bool,
    child_processes_clean: bool,
    receipt_valid: bool,
    trace_complete: bool,
    argv_cwd_valid: bool,
    approval_original_command: bool,
    timeout: bool,
) -> (r: String)
    ensures
        r@ == spec_local_classify(
            relay_status@,
            observability@,
            backend_observation@,
            completed,
            usage_complete,
            correct_output,
            inputs_preserved,
            workspace_clean,
            child_processes_clean,
            receipt_valid,
            trace_complete,
            argv_cwd_valid,
            approval_original_command,
            timeout,
        ),
{
    let category = if str_eq(relay_status, "provider_error") || str_eq(relay_status, "transport_error") {
        "infrastructure_unavailable"
    } else if timeout {
        "timeout"
    } else if str_eq(observability, "unobserved") {
        "evidence_unobserved"
    } else if str_eq(observability, "partial") {
        "evidence_partial"
    } else if str_eq(backend_observation, "unknown") && !approval_original_command {
        "backend_observation_unknown"
    } else if str_eq(backend_observation, "violation") || !approval_original_command {
        "backend_violation"
    } else if !completed {
        "agent_error"
    } else if !usage_complete {
        "missing_usage"
    } else if !inputs_preserved {
        "input_modified"
    } else if !workspace_clean || !child_processes_clean || !receipt_valid || !trace_complete
        || !argv_cwd_valid {
        "workspace_dirty"
    } else if !correct_output {
        "incorrect_output"
    } else {
        "none"
    };
    owned(category)
}

/// The set of texts in a list of strings.
pub open spec fn string_set(v: Seq<String>) -> Set<Seq<char>> {
    Set::new(|x: Seq<char>| exists|i: int| 0 <= i < v.len() && v[i]@ == x)
}

/// Whether `needle` is one of the strings.
fn listed(v: &[String], needle: &str) -> (r: bool)
    ensures
        r == string_set(v@).contains(needle@),
{
    let mut i: usize = 0;
    while i < v.len()
        invariant
            i <= v.len(),
            forall|j: int| 0 <= j < i ==> v@[j]@ != needle@,
        decreases v.len() - i,
    {
        if str_eq(v[i].as_str(), needle) {
            return true;
        }
        i += 1;
    }
    false
}

/// Whether every string of `a` is one of `b`.
fn all_listed(a: &[String], b: &[String]) -> (r: bool)
    ensures
        r == string_set(a@).subset_of(string_set(b@)),
{
    let mut i: usize = 0;
    while i < a.len()
        invariant
            i <= a.len(),
            forall|j: int| 0 <= j < i ==> string_set(b@).contains(#[trigger] a@[j]@),
        decreases a.len() - i,
    {
        if !listed(b, a[i].as_str()) {
            assert(string_set(a@).contains(a@[i as int]@));
            return false;
        }
        i += 1;
    }
    true
}

/// Whether two workspace manifests list the same paths, ignoring order and
/// repetition.
pub fn manifest_equal(expected: &[String], actual: &[String]) -> (r: bool)
    ensures
        r == (string_set(expected@) == string_set(actual@)),
{
    let r = all_listed(expected, actual) && all_listed(actual, expected);
    proof {
        if r {
            assert(string_set(expected@) =~= string_set(actual@));
        }
    }
    r
}

/// The last named component of a path's pieces, skipping empty and `.`
/// pieces; `None` when there is none or it is `..`.
pub open spec fn last_named(parts: Seq<Seq<char>>) -> Option<Seq<char>>
    decreases parts.len(),
{
    if parts.len() == 0 {
        None
    } else if parts.last().len() == 0 || parts.last() == "."@ {
        last_named(parts.drop_last())
    } else if parts.last() == ".."@ {
        None
    } else {
        Some(parts.last())
    }
}

/// `Path::file_name` for a path written with `/`.
pub open spec fn file_name(path: Seq<char>) -> Option<Seq<char>> {
    last_named(spec_split(path, '/'))
}

/// The final component of a path.
pub fn path_file_name(path: &str) -> (r: Option<Vec<char>>)
    ensures
        match r {
            Some(n) => file_name(path@) == Some(n@),
            None => file_name(path@) is None,
        },
{
    let chars = chars_of(path);
    let parts = split_on(chars.as_slice(), '/');
    let ghost views = spec_split(path@, '/');
    let dot = ['.'];
    let dotdot = ['.', '.'];
    assert(dot@ =~= "."@) by { reveal_strlit("."); }
    assert(dotdot@ =~= ".."@) by { reveal_strlit(".."); }
    let mut n = parts.len();
    assert(views.take(n as int) =~= views);
    assert(chars@ == path@);
    while n > 0
        invariant
            n <= parts.len(),
            char_views(parts@) == views,
            dot@ == "."@,
            dotdot@ == ".."@,
            file_name(path@) == last_named(views),
            last_named(views) == last_named(views.take(n as int)),
        decreases n,
    {
        let piece = &parts[n - 1];
        assert(piece@ == views[n - 1]);
        assert(views.take(n as int).last() == views[n - 1]);
        assert(views.take(n as int).drop_last() =~= views.take(n - 1));
        if piece.len() == 0 || chars_eq(piece.as_slice(), &dot) {
            n -= 1;
        } else if chars_eq(piece.as_slice(), &dotdot) {
            return None;
        } else {
            let mut name: Vec<char> = Vec::new();
            let mut k: usize = 0;
            while k < piece.len()
                invariant
                    k <= piece.len(),
                    name@ == piece@.take(k as int),
                decreases piece.len() - k,
            {
                name.push(piece[k]);
                assert(piece@.take(k + 1) =~= piece@.take(k as int).push(piece@[k as int]));
                k += 1;
            }
            assert(name@ =~= piece@);
            return Some(name);
        }
    }
    None
}

/// The request time that the proxy writes into a dump's file name: the
/// second `-`-separated piece of the name, read as a `u128`.
pub open spec fn spec_proxy_timestamp(path: Seq<char>) -> Option<u128> {
    match file_name(path) {
        None => None,
        Some(name) => {
            let parts = spec_split(name, '-');
            if parts.len() < 2 {
                None
            } else {
                match spec_parse_unsigned(parts[1], u128::MAX as nat) {
                    Some(v) => Some(v as u128),
                    None => None,
                }
            }
        },
    }
}

/// The wall-clock millisecond timestamp in a proxy exchange's file name
/// (`<sequence>-<timestamp>-<kind>.json`).
pub fn proxy_timestamp_ms(path: &str) -> (r: Option<u128>)
    ensures
        r == spec_proxy_timestamp(path@),
{
    match path_file_name(path) {
        None => None,
        Some(name) => {
            let parts = split_on(name.as_slice(), '-');
            if parts.len() < 2 {
                return None;
            }
            assert(parts@[1]@ == spec_split(name@, '-')[1]);
            match parse_unsigned(parts[1].as_slice(), u128::MAX) {
                Some(v) => Some(v),
                None => None,
            }
        },
    }
}


/// Whether a character may stay in a file-name component.
pub open spec fn component_char(c: char) -> bool {
    ('0' <= c <= '9') || ('a' <= c <= 'z') || ('A' <= c <= 'Z') || c == '-' || c == '_' || c == '.'
}

/// A text made safe as a single file-name component: other characters become
/// `_`, and an empty text becomes `unknown`.
pub open spec fn spec_sanitize_component(s: Seq<char>) -> Seq<char> {
    if s.len() == 0 {
        "unknown"@
    } else {
        Seq::new(s.len(), |i: int| if component_char(s[i]) { s[i] } else { '_' })
    }
}

/// Makes a text safe as a single file-name component.
pub fn sanitize_component(value: &str) -> (r: String)
    ensures
        r@ == spec_sanitize_component(value@),
{
    let chars = chars_of(value);
    let mut out = String::new();
    let mut i: usize = 0;
    while i < chars.len()
        invariant
            i <= chars.len(),
            chars@ == value@,
            out@.len() == i,
            forall|j: int| 0 <= j < i ==> out@[j] == (if component_char(chars@[j]) { chars@[j] } else { '_' }),
        decreases chars.len() - i,
    {
        let c = chars[i];
        let keep = ('0' <= c && c <= '9') || ('a' <= c && c <= 'z') || ('A' <= c && c <= 'Z') || c == '-'
            || c == '_' || c == '.';
        push_char(&mut out, if keep { c } else { '_' });
        i += 1;
    }
    if chars.len() == 0 {
        return owned("unknown");
    }
    assert(out@ =~= spec_sanitize_component(value@));
    out
}

/// The line that opens the editable function in a source fixture.
pub open spec fn main_marker() -> Seq<char> {
    "async fn main {"@
}

/// Whether an edited source kept everything outside the body of
/// `async fn main`: it starts with the text before the marker, and ends with
/// the marker and the text after it.
pub open spec fn spec_editable_source_valid(original: Seq<char>, actual: Seq<char>) -> bool {
    match spec_find(original, main_marker()) {
        None => false,
        Some(k) => spec_starts_with(actual, original.take(k))
            && spec_ends_with(actual, main_marker() + original.skip(k + main_marker().len())),
    }
}

/// Whether an edited source kept what lies outside `async fn main`.
pub fn editable_source_valid(original: &str, actual: &str) -> (r: bool)
    ensures
        r == spec_editable_source_valid(original@, actual@),
{
    let o = chars_of(original);
    let a = chars_of(actual);
    let marker = chars_of("async fn main {");
    match find_chars(o.as_slice(), marker.as_slice()) {
        None => false,
        Some(k) => {
            assert(occurs_at(o@, marker@, k as int));
            let prefix = crate::text::slice_chars(o.as_slice(), 0, k);
            assert(prefix@ =~= o@.take(k as int));
            let tail = crate::text::slice_chars(o.as_slice(), k, o.len());
            assert(o@.subrange(k as int, o@.len() as int) =~= marker@ + o@.skip(k + marker@.len()));
            crate::text::chars_starts_with(a.as_slice(), prefix.as_slice())
                && ends_with_chars(a.as_slice(), tail.as_slice())
        },
    }
}


/// One upstream request of an arm, as read from the proxy's dumps.
pub struct AttemptRecord {
    pub value: JsonValue,
    pub provider_error: bool,
    pub transport_error: bool,
    pub successful: bool,
    pub usage_complete: bool,
}

/// The view of an [`AttemptRecord`].
pub struct AttemptView {
    pub value: Json,
    pub provider_error: bool,
    pub transport_error: bool,
    pub successful: bool,
    pub usage_complete: bool,
}

impl AttemptRecord {
    pub open spec fn view(&self) -> AttemptView {
        AttemptView {
            value: self.value@,
            provider_error: self.provider_error,
            transport_error: self.transport_error,
            successful: self.successful,
            usage_complete: self.usage_complete,
        }
    }
}

/// The views of some attempts.
pub open spec fn attempt_views(v: Seq<AttemptRecord>) -> Seq<AttemptView> {
    v.map_values(|a: AttemptRecord| a@)
}

/// Whether a later attempt of the sequence succeeded.
pub open spec fn success_after(rs: Seq<AttemptView>, i: int) -> bool {
    exists|j: int| i < j < rs.len() && #[trigger] rs[j].successful
}

/// An attempt's value after recovery marking: a failed attempt followed by a
/// successful one gets `recovered: true`.
pub open spec fn recovered_value(r: AttemptView, after: bool) -> Json {
    if after && (r.provider_error || r.transport_error) {
        match r.value {
            Json::Object(m) => Json::Object(spec_set(m, "recovered"@, Json::Bool(true))),
            v => v,
        }
    } else {
        r.value
    }
}

/// Marks the failed attempts that a later attempt recovered from.
pub fn mark_recovered(records: &mut [AttemptRecord])
    ensures
        final(records)@.len() == old(records)@.len(),
        forall|i: int| 0 <= i < old(records)@.len() ==> {
            let o = #[trigger] old(records)@[i]@;
            let n = final(records)@[i]@;
            &&& n.value == recovered_value(o, success_after(attempt_views(old(records)@), i))
            &&& n.provider_error == o.provider_error
            &&& n.transport_error == o.transport_error
            &&& n.successful == o.successful
            &&& n.usage_complete == o.usage_complete
        },
{
    let ghost before = attempt_views(records@);
    let mut successful_after = false;
    let mut index = records.len();
    while index > 0
        invariant
            index <= records@.len(),
            records@.len() == before.len(),
            before.len() == old(records)@.len(),
            forall|i: int| 0 <= i < before.len() ==> before[i] == #[trigger] old(records)@[i]@,
            successful_after == success_after(before, index as int - 1),
            forall|i: int| 0 <= i < index ==> #[trigger] records@[i]@ == before[i],
            forall|i: int| index <= i < before.len() ==> {
                let n = #[trigger] records@[i]@;
                &&& n.value == recovered_value(before[i], success_after(before, i))
                &&& n.provider_error == before[i].provider_error
                &&& n.transport_error == before[i].transport_error
                &&& n.successful == before[i].successful
                &&& n.usage_complete == before[i].usage_complete
            },
        decreases index,
    {
        let i = index - 1;
        assert(records@[i as int]@ == before[i as int]);
        if successful_after && (records[i].provider_error || records[i].transport_error) {
            let updated = match &records[i].value {
                JsonValue::Object(m) => {
                    let mut m2 = crate::json_object::copy_members_of(m);
                    set_member(&mut m2, "recovered", JsonValue::Bool(true));
                    proof {
                        crate::json_object::lemma_object_view(*m);
                    }
                    object_of(m2)
                },
                other => other.copy(),
            };
            let r = AttemptRecord {
                value: updated,
                provider_error: records[i].provider_error,
                transport_error: records[i].transport_error,
                successful: records[i].successful,
                usage_complete: records[i].usage_complete,
            };
            records[i] = r;
        }
        proof {
            if successful_after {
                assert(success_after(before, i as int));
            }
        }
        if records[i].successful {
            successful_after = true;
        }
        proof {
            if before[i as int].successful {
                assert(success_after(before, i as int - 1));
            } else if success_after(before, i as int - 1) {
                let j = choose|j: int| i as int - 1 < j < before.len() && #[trigger] before[j].successful;
                assert(j != i);
                assert(success_after(before, i as int));
            }
        }
        index = i;
    }
}

/// The relay's condition over an arm's attempts: a provider error in any
/// attempt, else a transport error in any, else clean.
pub open spec fn spec_relay_status(rs: Seq<AttemptView>) -> Seq<char> {
    if exists|i: int| 0 <= i < rs.len() && #[trigger] rs[i].provider_error {
        "provider_error"@
    } else if exists|i: int| 0 <= i < rs.len() && #[trigger] rs[i].transport_error {
        "transport_error"@
    } else {
        "clean"@
    }
}

/// The relay's condition over an arm's attempts.
pub fn relay_status(attempts: &[AttemptRecord]) -> (r: &'static str)
    ensures
        r@ == spec_relay_status(attempt_views(attempts@)),
{
    let ghost v = attempt_views(attempts@);
    let mut i: usize = 0;
    while i < attempts.len()
        invariant
            i <= attempts.len(),
            v == attempt_views(attempts@),
            forall|j: int| 0 <= j < i ==> !#[trigger] v[j].provider_error,
        decreases attempts.len() - i,
    {
        assert(v[i as int] == attempts@[i as int]@);
        if attempts[i].provider_error {
            assert(v[i as int].provider_error);
            return "provider_error";
        }
        i += 1;
    }
    let mut i: usize = 0;
    while i < attempts.len()
        invariant
            i <= attempts.len(),
            v == attempt_views(attempts@),
            forall|j: int| 0 <= j < attempts@.len() ==> !#[trigger] v[j].provider_error,
            forall|j: int| 0 <= j < i ==> !#[trigger] v[j].transport_error,
        decreases attempts.len() - i,
    {
        assert(v[i as int] == attempts@[i as int]@);
        if attempts[i].transport_error {
            assert(v[i as int].transport_error);
            return "transport_error";
        }
        i += 1;
    }
    "clean"
}

/// The `key` member of each attempt as an `i64`, zero where absent.
pub open spec fn token_of(a: AttemptView, key: Seq<char>) -> int {
    match spec_as_i64(spec_field(a.value, key)) {
        Some(n) => n as int,
        None => 0,
    }
}

/// The total of `key` over the first `n` attempts.
pub open spec fn token_total(rs: Seq<AttemptView>, key: Seq<char>, n: int) -> int
    decreases n,
{
    if n <= 0 || n > rs.len() {
        0
    } else {
        token_total(rs, key, n - 1) + token_of(rs[n - 1], key)
    }
}

/// Whether no partial total of `key` leaves the `i64` range.
pub open spec fn tokens_fit(rs: Seq<AttemptView>, key: Seq<char>) -> bool {
    forall|n: int| 0 <= n <= rs.len() ==> i64::MIN <= #[trigger] token_total(rs, key, n) <= i64::MAX
}

fn token_sum(attempts: &[AttemptRecord], key: &str) -> (r: i64)
    requires
        tokens_fit(attempt_views(attempts@), key@),
    ensures
        r == token_total(attempt_views(attempts@), key@, attempts@.len() as int),
{
    let ghost v = attempt_views(attempts@);
    let mut total: i64 = 0;
    let mut i: usize = 0;
    while i < attempts.len()
        invariant
            i <= attempts.len(),
            v == attempt_views(attempts@),
            tokens_fit(v, key@),
            total == token_total(v, key@, i as int),
        decreases attempts.len() - i,
    {
        assert(v[i as int] == attempts@[i as int]@);
        let n = match attempts[i].value.get(key) {
            Some(x) => match x.as_i64() { Some(n) => n, None => 0 },
            None => 0,
        };
        assert(i64::MIN <= token_total(v, key@, i + 1) <= i64::MAX);
        total = total + n;
        i += 1;
    }
    total
}

/// The input tokens of an arm's attempts.
pub fn attempt_input_tokens(attempts: &[AttemptRecord]) -> (r: i64)
    requires
        tokens_fit(attempt_views(attempts@), "input_tokens"@),
    ensures
        r == token_total(attempt_views(attempts@), "input_tokens"@, attempts@.len() as int),
{
    token_sum(attempts, "input_tokens")
}

/// The cached input tokens of an arm's attempts.
pub fn attempt_cached_tokens(attempts: &[AttemptRecord]) -> (r: i64)
    requires
        tokens_fit(attempt_views(attempts@), "cached_input_tokens"@),
    ensures
        r == token_total(attempt_views(attempts@), "cached_input_tokens"@, attempts@.len() as int),
{
    token_sum(attempts, "cached_input_tokens")
}

/// The output tokens of an arm's attempts.
pub fn attempt_output_tokens(attempts: &[AttemptRecord]) -> (r: i64)
    requires
        tokens_fit(attempt_views(attempts@), "output_tokens"@),
    ensures
        r == token_total(attempt_views(attempts@), "output_tokens"@, attempts@.len() as int),
{
    token_sum(attempts, "output_tokens")
}


/// Token counts of one response: input, cached input, output.
pub type Usage = (i64, i64, i64);

/// An `i64` member, zero where absent or not an integer that fits.
pub open spec fn count_member(m: Seq<(Seq<char>, Json)>, key: Seq<char>) -> i64 {
    match crate::json::spec_lookup(m, key) {
        Some(v) => match spec_as_i64(v) {
            Some(n) => n,
            None => 0,
        },
        None => 0,
    }
}

/// The counts of a `usage` object.
pub open spec fn usage_of(u: Seq<(Seq<char>, Json)>) -> Usage {
    let cached = match crate::json::spec_lookup(u, "input_tokens_details"@) {
        Some(Json::Object(d)) => count_member(d, "cached_tokens"@),
        _ => 0,
    };
    (count_member(u, "input_tokens"@), cached, count_member(u, "output_tokens"@))
}

/// The first `usage` object met walking a value: an object's own before its
/// members' (other than `usage` itself), in order; array elements in order.
pub open spec fn first_usage(v: Json) -> Option<Usage>
    decreases v, 0nat,
{
    match v {
        Json::Object(m) => match crate::json::spec_lookup(m, "usage"@) {
            Some(Json::Object(u)) => Some(usage_of(u)),
            _ => members_usage(m, 0),
        },
        Json::Array(items) => items_usage(items, 0),
        _ => None,
    }
}

/// The first usage among the members from position `i` on.
pub open spec fn members_usage(m: Seq<(Seq<char>, Json)>, i: nat) -> Option<Usage>
    decreases m, m.len() - i,
{
    if i >= m.len() {
        None
    } else if m[i as int].0 == "usage"@ {
        members_usage(m, i + 1)
    } else {
        proof {
            assert(decreases_to!(m => m[i as int]));
        }
        match first_usage(m[i as int].1) {
            Some(u) => Some(u),
            None => members_usage(m, i + 1),
        }
    }
}

/// The first usage among the items from position `i` on.
pub open spec fn items_usage(items: Seq<Json>, i: nat) -> Option<Usage>
    decreases items, items.len() - i,
{
    if i >= items.len() {
        None
    } else {
        match first_usage(items[i as int]) {
            Some(u) => Some(u),
            None => items_usage(items, i + 1),
        }
    }
}

fn count_exec(m: &JsonValue, key: &str) -> (r: i64)
    ensures
        r == (match m@ { Json::Object(ms) => count_member(ms, key@), _ => 0 }),
{
    match m {
        JsonValue::Object(ms) => {
            match m.get(key) {
                Some(v) => match v.as_i64() { Some(n) => n, None => 0 },
                None => 0,
            }
        },
        _ => 0,
    }
}

fn usage_exec(u: &JsonValue) -> (r: Usage)
    requires
        u@ is Object,
    ensures
        r == usage_of(match u@ { Json::Object(m) => m, _ => Seq::empty() }),
{
    let cached = match u.get("input_tokens_details") {
        Some(d) => match d {
            JsonValue::Object(_) => count_exec(d, "cached_tokens"),
            _ => 0,
        },
        None => 0,
    };
    (count_exec(u, "input_tokens"), cached, count_exec(u, "output_tokens"))
}

/// The first usage met walking a value (see [`first_usage`]).
#[verifier::loop_isolation(false)]
pub fn find_usage(v: &JsonValue) -> (r: Option<Usage>)
    ensures
        r == first_usage(v@),
    decreases *v,
{
    match v {
        JsonValue::Object(ms) => {
            let ghost mv = match v@ { Json::Object(m) => m, _ => Seq::empty() };
            match v.get("usage") {
                Some(u) => match u {
                    JsonValue::Object(_) => return Some(usage_exec(u)),
                    _ => {},
                },
                None => {},
            }
            let mut i: usize = 0;
            while i < ms.len()
                invariant
                    i <= ms.len(),
                    mv.len() == ms.len(),
                    first_usage(v@) == members_usage(mv, i as nat),
                decreases ms.len() - i,
            {
                assert(decreases_to!(*v => *ms));
                assert(decreases_to!(*ms => ms@));
                assert(decreases_to!(ms@ => ms@[i as int]));
                assert(decreases_to!(ms@[i as int] => ms@[i as int].1));
                assert(mv[i as int] == (ms@[i as int].0@, ms@[i as int].1@));
                if !str_eq(ms[i].0.as_str(), "usage") {
                    let found = find_usage(&ms[i].1);
                    if found.is_some() {
                        return found;
                    }
                }
                i += 1;
            }
            None
        },
        JsonValue::Array(items) => {
            let ghost iv = match v@ { Json::Array(a) => a, _ => Seq::empty() };
            let mut i: usize = 0;
            while i < items.len()
                invariant
                    i <= items.len(),
                    iv.len() == items.len(),
                    first_usage(v@) == items_usage(iv, i as nat),
                decreases items.len() - i,
            {
                assert(decreases_to!(*v => *items));
                assert(decreases_to!(*items => items@));
                assert(decreases_to!(items@ => items@[i as int]));
                assert(iv[i as int] == items@[i as int]@);
                let found = find_usage(&items[i]);
                if found.is_some() {
                    return found;
                }
                i += 1;
            }
            None
        },
        _ => None,
    }
}


/// A response body as text: strings as they are, other values as JSON.
pub open spec fn spec_body_text(body: Json) -> Seq<char> {
    match body {
        Json::Str(t) => t,
        _ => crate::json::json_text(body),
    }
}

/// The text of a response body.
pub fn body_text(body: &JsonValue) -> (r: String)
    ensures
        r@ == spec_body_text(body@),
{
    match body {
        JsonValue::Str(t) => owned(t.as_str()),
        _ => crate::json::to_json_text(body),
    }
}

/// Whether a response body shows a completed response.
pub open spec fn spec_contains_completed(body: Json) -> bool {
    match body {
        Json::Str(t) => crate::text::spec_contains(t, "response.completed"@) || crate::text::spec_contains(t, "\"status\":\"completed\""@),
        _ => crate::json::spec_as_str(spec_field(body, "type"@)) == Some("response.completed"@)
            || crate::json::spec_as_str(spec_field(body, "status"@)) == Some("completed"@),
    }
}

/// Whether a response body shows a completed response.
pub fn contains_completed(body: &JsonValue) -> (r: bool)
    ensures
        r == spec_contains_completed(body@),
{
    match body {
        JsonValue::Str(t) => crate::text::contains_str(t.as_str(), "response.completed")
            || crate::text::contains_str(t.as_str(), "\"status\":\"completed\""),
        _ => {
            let kind = match body.field_str("type") { Some(k) => str_eq(k, "response.completed"), None => false };
            let status = match body.field_str("status") { Some(k) => str_eq(k, "completed"), None => false };
            kind || status
        },
    }
}

/// Whether a response body shows a failed response.
pub open spec fn spec_contains_failure(body: Json) -> bool {
    match body {
        Json::Str(t) => crate::text::spec_contains(t, "response.failed"@) || crate::text::spec_contains(t, "\"type\":\"error\""@),
        _ => crate::json::spec_as_str(spec_field(body, "type"@)) == Some("response.failed"@)
            || crate::json::spec_as_str(spec_field(body, "type"@)) == Some("error"@),
    }
}

/// Whether a response body shows a failed response.
pub fn contains_failure(body: &JsonValue) -> (r: bool)
    ensures
        r == spec_contains_failure(body@),
{
    match body {
        JsonValue::Str(t) => crate::text::contains_str(t.as_str(), "response.failed")
            || crate::text::contains_str(t.as_str(), "\"type\":\"error\""),
        _ => match body.field_str("type") {
            Some(k) => str_eq(k, "response.failed") || str_eq(k, "error"),
            None => false,
        },
    }
}

/// The JSON payload of an SSE line: after `data:` if present, trimmed.
pub open spec fn line_payload(line: Seq<char>) -> Seq<char> {
    crate::text::spec_trim(if spec_starts_with(line, "data:"@) { line.skip(5) } else { line })
}

/// The first usage among the SSE lines from position `i` on.
pub open spec fn lines_usage(lines: Seq<Seq<char>>, i: nat) -> Option<Usage>
    decreases lines.len() - i,
{
    if i >= lines.len() {
        None
    } else {
        let p = line_payload(lines[i as int]);
        if p.len() == 0 || p == "[DONE]"@ {
            lines_usage(lines, i + 1)
        } else {
            match crate::json::json_parse(vstd::utf8::encode_utf8(p)) {
                Some(v) => match first_usage(v) {
                    Some(u) => Some(u),
                    None => lines_usage(lines, i + 1),
                },
                None => lines_usage(lines, i + 1),
            }
        }
    }
}

/// The token counts a response body reports, and whether it reports them:
/// the body as one JSON value, or else line by line as SSE.
pub open spec fn spec_usage_from_body(body: Json) -> (i64, i64, i64, bool) {
    let text = spec_body_text(body);
    let found = match crate::json::json_parse(vstd::utf8::encode_utf8(text)) {
        Some(v) => first_usage(v),
        None => lines_usage(crate::codex_evidence::spec_lines(text), 0),
    };
    match found {
        Some(u) => (u.0, u.1, u.2, true),
        None => (0, 0, 0, false),
    }
}

/// The token counts a response body reports.
pub fn usage_from_body(body: &JsonValue) -> (r: (i64, i64, i64, bool))
    ensures
        r == spec_usage_from_body(body@),
{
    let text = body_text(body);
    let found = match crate::json::parse_json(text.as_str().as_bytes()) {
        Some(v) => find_usage(&v),
        None => {
            let chars = chars_of(text.as_str());
            let ghost s = chars@;
            let data = ['d', 'a', 't', 'a', ':'];
            let done = ['[', 'D', 'O', 'N', 'E', ']'];
            proof {
                reveal_strlit("data:");
                reveal_strlit("[DONE]");
            }
            assert(data@ =~= "data:"@);
            assert(done@ =~= "[DONE]"@);
            let mut found: Option<Usage> = None;
            let mut start: usize = 0;
            let ghost lines = crate::codex_evidence::spec_lines(s);
            let ghost mut taken: nat = 0;
            assert(s.skip(0) =~= s);
            proof {
                lemma_lines_usage_shift(lines, 0);
            }
            while start < chars.len() && found.is_none()
                invariant
                    start <= chars.len(),
                    s == chars@,
                    s == text@,
                    data@ == "data:"@,
                    done@ == "[DONE]"@,
                    found is None ==> lines_usage(crate::codex_evidence::spec_lines(s), 0) == lines_usage(crate::codex_evidence::spec_lines(s.skip(start as int)), 0),
                    found is Some ==> lines_usage(crate::codex_evidence::spec_lines(s), 0) == found,
                decreases chars.len() - start + (if found is None { 1int } else { 0int }),
            {
                let end = crate::text::next_sep(chars.as_slice(), '\n', start);
                let stop = if end < chars.len() && end > start && chars[end - 1] == '\r' { end - 1 } else { end };
                let line = crate::text::slice_chars(chars.as_slice(), start, stop);
                let next = if end < chars.len() { end + 1 } else { end };
                let ghost rest_lines = crate::codex_evidence::spec_lines(s.skip(next as int));
                proof {
                    crate::codex_evidence::lemma_lines_step(s, start as int, end as int, line@, next as int);
                    lemma_lines_usage_cons(line@, rest_lines);
                }
                let body_part = if crate::text::chars_starts_with(line.as_slice(), &data) {
                    crate::text::slice_chars(line.as_slice(), 5, line.len())
                } else {
                    crate::text::slice_chars(line.as_slice(), 0, line.len())
                };
                assert(body_part@ =~= (if spec_starts_with(line@, "data:"@) { line@.skip(5) } else { line@ }));
                let payload = crate::text::trim_chars(body_part.as_slice());
                if payload.len() == 0 || chars_eq(payload.as_slice(), &done) {
                } else {
                    let text_payload = string_of(payload.as_slice());
                    match crate::json::parse_json(text_payload.as_str().as_bytes()) {
                        Some(v) => {
                            found = find_usage(&v);
                        },
                        None => {},
                    }
                }
                start = next;
            }
            proof {
                if found is None {
                    assert(s.skip(start as int) =~= Seq::<char>::empty());
                }
            }
            found
        },
    };
    match found {
        Some(u) => (u.0, u.1, u.2, true),
        None => (0, 0, 0, false),
    }
}

/// Usage search starting at a later line.
proof fn lemma_lines_usage_shift(lines: Seq<Seq<char>>, i: nat)
    requires
        i <= lines.len(),
    ensures
        lines_usage(lines, i) == lines_usage(lines.skip(i as int), 0),
    decreases lines.len() - i,
{
    if i < lines.len() {
        lemma_lines_usage_shift(lines, i + 1);
        lemma_lines_usage_shift(lines.skip(i as int), 1);
        assert(lines.skip(i as int).skip(1) =~= lines.skip(i + 1int));
        assert(lines.skip(i as int)[0] == lines[i as int]);
    } else {
        assert(lines.skip(i as int).len() == 0);
    }
}

/// Usage search over one more line in front.
proof fn lemma_lines_usage_cons(line: Seq<char>, rest: Seq<Seq<char>>)
    ensures
        lines_usage(seq![line] + rest, 0) == ({
            let p = line_payload(line);
            if p.len() == 0 || p == "[DONE]"@ {
                lines_usage(rest, 0)
            } else {
                match crate::json::json_parse(vstd::utf8::encode_utf8(p)) {
                    Some(v) => match first_usage(v) {
                        Some(u) => Some(u),
                        None => lines_usage(rest, 0),
                    },
                    None => lines_usage(rest, 0),
                }
            }
        }),
{
    let all = seq![line] + rest;
    lemma_lines_usage_shift(all, 1);
    assert(all.skip(1) =~= rest);
    assert(all[0] == line);
}


/// A JSON number from an `i64`.
pub open spec fn i64_json(n: i64) -> Json {
    if n >= 0 { Json::Number(Num::PosInt(n as u64)) } else { Json::Number(Num::NegInt(n)) }
}

pub fn i64_value(n: i64) -> (r: JsonValue)
    ensures
        r@ == i64_json(n),
{
    if n >= 0 { JsonValue::Number(JsonNumber::PosInt(n as u64)) } else { JsonValue::Number(JsonNumber::NegInt(n)) }
}

/// The HTTP status a proxy dump records (truncated to `i32` as the runner
/// reads it).
pub open spec fn dump_status(response: Option<Json>) -> Option<i32> {
    match response {
        Some(r) => match spec_as_i64(spec_field(r, "status"@)) {
            Some(v) => Some(v as i32),
            None => None,
        },
        None => None,
    }
}

/// The body a proxy dump records, `null` where there is none.
pub open spec fn dump_body(response: Option<Json>) -> Json {
    match response {
        Some(r) => match crate::json::spec_member(r, "body"@) {
            Some(b) => b,
            None => Json::Null,
        },
        None => Json::Null,
    }
}

/// The class of a failed attempt.
pub open spec fn error_class(provider_error: bool, transport_error: bool, status: Option<i32>, responded: bool) -> Option<Seq<char>> {
    if provider_error {
        Some(if status == Some(429i32) { "retry_after"@ } else if status is Some && status.unwrap() >= 500 { "http_5xx"@ } else { "provider_error"@ })
    } else if transport_error {
        Some(if !responded { "transport_disconnect"@ } else { "malformed_sse"@ })
    } else {
        None
    }
}

/// The record of one upstream attempt, from its dump: the response (if it
/// was written), the request's position and the times read from the dumps.
pub open spec fn spec_attempt(attempt_id: Seq<char>, index: usize, request_time: i64, response_time: Option<i64>, response: Option<Json>) -> AttemptView {
    let status = dump_status(response);
    let body = dump_body(response);
    let completed = spec_contains_completed(body);
    let provider_error = (status is Some && status.unwrap() >= 400) || spec_contains_failure(body);
    let transport_error = response is None || (!provider_error && !completed);
    let successful = !provider_error && !transport_error && status is Some && 200 <= status.unwrap() < 300;
    let usage = spec_usage_from_body(body);
    let m1 = seq![
        ("attempt_id"@, Json::Str(attempt_id)),
        ("retry_index"@, i64_json(index as i64)),
        ("started_ms"@, i64_json(if request_time > 0 { request_time } else { 0 })),
    ];
    let m2 = match status { Some(st) => m1.push(("http_status"@, crate::evidence::int_number(st))), None => m1 };
    let m3 = match response_time { Some(t) => m2.push(("completed_ms"@, i64_json(if t > 0 { t } else { 0 }))), None => m2 };
    let m4 = m3 + seq![
        ("stream_disconnected"@, Json::Bool(transport_error)),
        ("provider_error"@, Json::Bool(provider_error)),
        ("recovered"@, Json::Bool(false)),
        ("input_tokens"@, i64_json(usage.0)),
        ("cached_input_tokens"@, i64_json(usage.1)),
        ("output_tokens"@, i64_json(usage.2)),
        ("usage_complete"@, Json::Bool(usage.3)),
    ];
    let m5 = match error_class(provider_error, transport_error, status, response is Some) {
        Some(c) => m4.push(("error_class"@, Json::Str(c))),
        None => m4,
    };
    AttemptView {
        value: Json::Object(m5),
        provider_error,
        transport_error,
        successful,
        usage_complete: usage.3,
    }
}

/// Reads one upstream attempt from its dump.
#[verifier::rlimit(40)]
pub fn attempt_record(attempt_id: &str, index: usize, request_time: i64, response_time: Option<i64>, response: Option<&JsonValue>) -> (r: AttemptRecord)
    requires
        index <= i64::MAX,
    ensures
        r@ == spec_attempt(attempt_id@, index, request_time, response_time, match response { Some(v) => Some(v@), None => None }),
{
    let ghost rv: Option<Json> = match response { Some(v) => Some(v@), None => None };
    let status: Option<i32> = match response {
        Some(r) => match r.field("status").as_i64() {
            Some(v) => Some(#[verifier::truncate] (v as i32)),
            None => None,
        },
        None => None,
    };
    let body = match response {
        Some(r) => match r.get("body") {
            Some(b) => b.copy(),
            None => JsonValue::Null,
        },
        None => JsonValue::Null,
    };
    assert(body@ == dump_body(rv));
    assert(status == dump_status(rv));
    let completed = contains_completed(&body);
    let provider_error = (match status { Some(v) => v >= 400, None => false }) || contains_failure(&body);
    let transport_error = response.is_none() || (!provider_error && !completed);
    let successful = !provider_error && !transport_error && match status { Some(v) => 200 <= v && v < 300, None => false };
    let usage = usage_from_body(&body);
    let mut m: Vec<(String, JsonValue)> = Vec::new();
    crate::json_object::push_member(&mut m, "attempt_id", JsonValue::Str(owned(attempt_id)));
    crate::json_object::push_member(&mut m, "retry_index", i64_value(index as i64));
    crate::json_object::push_member(&mut m, "started_ms", i64_value(if request_time > 0 { request_time } else { 0 }));
    match status {
        Some(st) => crate::json_object::push_member(&mut m, "http_status", if st >= 0 { JsonValue::Number(JsonNumber::PosInt(st as u64)) } else { JsonValue::Number(JsonNumber::NegInt(st as i64)) }),
        None => {},
    }
    match response_time {
        Some(t) => crate::json_object::push_member(&mut m, "completed_ms", i64_value(if t > 0 { t } else { 0 })),
        None => {},
    }
    let ghost head = member_views(m@);
    proof {
        let m1 = seq![
            ("attempt_id"@, Json::Str(attempt_id@)),
            ("retry_index"@, i64_json(index as i64)),
            ("started_ms"@, i64_json(if request_time > 0 { request_time } else { 0 })),
        ];
        let m2 = match status { Some(st) => m1.push(("http_status"@, crate::evidence::int_number(st))), None => m1 };
        let m3 = match response_time { Some(t) => m2.push(("completed_ms"@, i64_json(if t > 0 { t } else { 0 }))), None => m2 };
        assert(head =~= m3);
    }
    crate::json_object::push_member(&mut m, "stream_disconnected", JsonValue::Bool(transport_error));
    crate::json_object::push_member(&mut m, "provider_error", JsonValue::Bool(provider_error));
    crate::json_object::push_member(&mut m, "recovered", JsonValue::Bool(false));
    crate::json_object::push_member(&mut m, "input_tokens", i64_value(usage.0));
    crate::json_object::push_member(&mut m, "cached_input_tokens", i64_value(usage.1));
    crate::json_object::push_member(&mut m, "output_tokens", i64_value(usage.2));
    crate::json_object::push_member(&mut m, "usage_complete", JsonValue::Bool(usage.3));
    assert(member_views(m@) =~= head + seq![
        ("stream_disconnected"@, Json::Bool(transport_error)),
        ("provider_error"@, Json::Bool(provider_error)),
        ("recovered"@, Json::Bool(false)),
        ("input_tokens"@, i64_json(usage.0)),
        ("cached_input_tokens"@, i64_json(usage.1)),
        ("output_tokens"@, i64_json(usage.2)),
        ("usage_complete"@, Json::Bool(usage.3)),
    ]);
    let class = if provider_error {
        Some(if status == Some(429i32) { "retry_after" } else if match status { Some(v) => v >= 500, None => false } { "http_5xx" } else { "provider_error" })
    } else if transport_error {
        Some(if response.is_none() { "transport_disconnect" } else { "malformed_sse" })
    } else {
        None
    };
    assert(match class { Some(c) => Some(c@), None => None::<Seq<char>> } == error_class(provider_error, transport_error, status, rv is Some));
    match class {
        Some(c) => crate::json_object::push_member(&mut m, "error_class", JsonValue::Str(owned(c))),
        None => {},
    }
    AttemptRecord {
        value: object_of(m),
        provider_error,
        transport_error,
        successful,
        usage_complete: usage.3,
    }
}

/// The time of a dumped exchange relative to the start of the arm, read
/// from its file name, in milliseconds (saturating at zero and at
/// `i64::MAX`).
pub open spec fn spec_elapsed_from_name(path: Seq<char>, wall_start_ms: u128) -> Option<i64> {
    match spec_proxy_timestamp(path) {
        Some(ts) => {
            let delta = if ts > wall_start_ms { ts - wall_start_ms } else { 0 };
            Some(if delta > i64::MAX { i64::MAX } else { delta as i64 })
        },
        None => None,
    }
}

/// The time of a dumped exchange read from its file name.
pub fn elapsed_from_name(path: &str, wall_start_ms: u128) -> (r: Option<i64>)
    ensures
        r == spec_elapsed_from_name(path@, wall_start_ms),
{
    match proxy_timestamp_ms(path) {
        Some(ts) => {
            let delta = if ts > wall_start_ms { ts - wall_start_ms } else { 0 };
            Some(if delta > i64::MAX as u128 { i64::MAX } else { delta as i64 })
        },
        None => None,
    }
}


/// One task of the M5 suite, as the evidence tool describes it.
pub struct TaskSpec {
    pub id: String,
    pub cohort: String,
    pub prompt: String,
    pub inputs: Vec<(String, String)>,
    pub expected: JsonValue,
    pub expected_stdout: String,
    pub expected_stderr: String,
    pub expected_exit_code: i32,
    pub expected_manifest: Vec<String>,
    pub editable: Option<String>,
    pub background: bool,
    pub fixture_nonce: String,
    pub receipt_path: String,
    pub oracle: String,
}

/// What the command and launcher traces of an arm recorded.
pub struct TraceSummary {
    pub command_starts: Vec<JsonValue>,
    pub command_exits: Vec<JsonValue>,
    pub launcher_starts: usize,
    pub launcher_exits: usize,
    pub labels: Vec<String>,
}

/// What the helper commands wrote, all outputs concatenated in order.
pub struct HelperStreams {
    pub stdout: String,
    pub stderr: String,
}

/// Whether the task's result is right: contained in the expected value for
/// `json_subset` oracles, equal to it otherwise.
pub open spec fn spec_correct_result(task: TaskSpec, actual: Json) -> bool {
    if spec_starts_with(task.oracle@, "json_subset"@) {
        crate::json_object::spec_subset(task.expected@, actual)
    } else {
        crate::json_object::json_same(actual, task.expected@)
    }
}

/// Whether the task's result is right.
pub fn correct_result(task: &TaskSpec, actual: &JsonValue) -> (r: bool)
    ensures
        r == spec_correct_result(*task, actual@),
{
    if starts_with(task.oracle.as_str(), "json_subset") {
        crate::json_object::json_subset(&task.expected, actual)
    } else {
        crate::json_object::json_eq(actual, &task.expected)
    }
}

/// Whether the helpers wrote exactly what the fixture promises and exited
/// as expected (the cancelled-host task's exit is not checked).
pub open spec fn spec_helper_streams_valid(task: TaskSpec, streams: HelperStreams, exit_code: i32) -> bool {
    streams.stdout@ == task.expected_stdout@ && streams.stderr@ == task.expected_stderr@
        && (task.id@ == "host_cancel_timeout"@ || exit_code == task.expected_exit_code)
}

/// Whether the helpers' output and exit match the fixture contract.
pub fn helper_streams_valid(task: &TaskSpec, streams: &HelperStreams, exit_code: i32) -> (r: bool)
    ensures
        r == spec_helper_streams_valid(*task, *streams, exit_code),
{
    str_eq(streams.stdout.as_str(), task.expected_stdout.as_str())
        && str_eq(streams.stderr.as_str(), task.expected_stderr.as_str())
        && (str_eq(task.id.as_str(), "host_cancel_timeout") || exit_code == task.expected_exit_code)
}

/// A string member, empty where absent.
pub open spec fn receipt_string(value: Json, key: Seq<char>) -> Seq<char> {
    match crate::json::spec_as_str(spec_field(value, key)) {
        Some(t) => t,
        None => Seq::empty(),
    }
}

/// Whether the receipt matches the task's id and nonce, has a non-empty
/// `helper`, and a `completed` or `stopped` status.
pub open spec fn spec_receipt_valid(task: TaskSpec, receipt: Json) -> bool {
    crate::json::spec_as_str(spec_field(receipt, "task"@)) == Some(task.id@)
        && crate::json::spec_as_str(spec_field(receipt, "nonce"@)) == Some(task.fixture_nonce@)
        && receipt_string(receipt, "helper"@).len() > 0
        && (receipt_string(receipt, "status"@) == "completed"@ || receipt_string(receipt, "status"@) == "stopped"@)
}

/// Whether the fixture's receipt is valid for the task.
pub fn receipt_valid(task: &TaskSpec, receipt: &JsonValue) -> (r: bool)
    ensures
        r == spec_receipt_valid(*task, receipt@),
{
    let t = match receipt.field_str("task") { Some(x) => str_eq(x, task.id.as_str()), None => false };
    let n = match receipt.field_str("nonce") { Some(x) => str_eq(x, task.fixture_nonce.as_str()), None => false };
    let helper = match receipt.field_str("helper") { Some(x) => x.unicode_len() > 0, None => false };
    let status = match receipt.field_str("status") { Some(x) => str_eq(x, "completed") || str_eq(x, "stopped"), None => false };
    proof {
        reveal_strlit("completed");
        reveal_strlit("stopped");
        assert("completed"@.len() == 9);
        assert("stopped"@.len() == 7);
    }
    assert(t == (crate::json::spec_as_str(spec_field(receipt@, "task"@)) == Some(task.id@)));
    assert(n == (crate::json::spec_as_str(spec_field(receipt@, "nonce"@)) == Some(task.fixture_nonce@)));
    assert(helper == (receipt_string(receipt@, "helper"@).len() > 0));
    assert(status == (receipt_string(receipt@, "status"@) == "completed"@ || receipt_string(receipt@, "status"@) == "stopped"@));
    t && n && helper && status
}

/// The exit code of the last helper exit that records one.
pub open spec fn last_exit(exits: Seq<Json>, n: int) -> Option<i32>
    decreases n,
{
    if n <= 0 || n > exits.len() {
        None
    } else {
        match spec_as_i64(spec_field(exits[n - 1], "exit_code"@)) {
            Some(c) => Some(c as i32),
            None => last_exit(exits, n - 1),
        }
    }
}

/// The exit code of the last helper (truncated to `i32` as the runner does).
pub fn final_helper_exit(trace: &TraceSummary) -> (r: Option<i32>)
    ensures
        r == last_exit(crate::evidence::value_views(trace.command_exits@), trace.command_exits@.len() as int),
{
    let ghost v = crate::evidence::value_views(trace.command_exits@);
    let mut n = trace.command_exits.len();
    while n > 0
        invariant
            n <= trace.command_exits@.len(),
            v == crate::evidence::value_views(trace.command_exits@),
            last_exit(v, trace.command_exits@.len() as int) == last_exit(v, n as int),
        decreases n,
    {
        assert(v[n - 1] == trace.command_exits@[n - 1]@);
        match trace.command_exits[n - 1].field("exit_code").as_i64() {
            Some(c) => return Some(#[verifier::truncate] (c as i32)),
            None => {},
        }
        n -= 1;
    }
    None
}

/// Whether every helper that started also exited.
pub open spec fn spec_trace_complete(trace: TraceSummary) -> bool {
    trace.command_starts@.len() > 0 && trace.command_starts@.len() == trace.command_exits@.len()
}

/// Whether the command trace is complete.
pub fn trace_complete(task: &TaskSpec, trace: &TraceSummary) -> (r: bool)
    ensures
        r == spec_trace_complete(*trace),
{
    trace.command_starts.len() > 0 && trace.command_starts.len() == trace.command_exits.len()
}

/// The time of a trace record: its start, else its end, else last.
pub open spec fn spec_trace_timestamp(record: Json) -> u64 {
    let v = match crate::json::spec_member(record, "started_unix_ns"@) {
        Some(x) => Some(x),
        None => crate::json::spec_member(record, "finished_unix_ns"@),
    };
    match v {
        Some(x) => match crate::json::spec_as_u64(x) {
            Some(t) => t,
            None => u64::MAX,
        },
        None => u64::MAX,
    }
}

/// The time of a trace record.
pub fn trace_timestamp(record: &JsonValue) -> (r: u64)
    ensures
        r == spec_trace_timestamp(record@),
{
    let v = match record.get("started_unix_ns") {
        Some(x) => Some(x),
        None => record.get("finished_unix_ns"),
    };
    match v {
        Some(x) => match x.as_u64() {
            Some(t) => t,
            None => u64::MAX,
        },
        None => u64::MAX,
    }
}

/// Whether a helper start ran in the workspace, as `python3` for process
/// tasks, without the marker of an injected argument.
pub open spec fn start_valid(task: TaskSpec, record: Json, workspace: Seq<char>) -> bool {
    receipt_string(record, "cwd"@) == workspace
        && (task.cohort@ != "process"@ || receipt_string(record, "invoked_as"@) == "python3"@)
        && !exists|i: int| 0 <= i < arg_texts(spec_field(record, "argv"@)).len()
            && crate::text::spec_contains(#[trigger] arg_texts(spec_field(record, "argv"@))[i], "SHOULD_NOT_EXIST"@)
}

/// The string arguments of an `argv` member, in order.
pub open spec fn arg_texts(v: Json) -> Seq<Seq<char>> {
    match v {
        Json::Array(items) => strings_in(items, items.len() as int),
        _ => Seq::empty(),
    }
}

/// The strings among the first `n` items.
pub open spec fn strings_in(items: Seq<Json>, n: int) -> Seq<Seq<char>>
    decreases n,
{
    if n <= 0 || n > items.len() {
        Seq::empty()
    } else {
        match items[n - 1] {
            Json::Str(t) => strings_in(items, n - 1).push(t),
            _ => strings_in(items, n - 1),
        }
    }
}

/// Whether every helper ran with the workspace as its directory and with
/// its arguments intact.
pub open spec fn spec_argv_cwd_valid(task: TaskSpec, trace: TraceSummary, workspace: Seq<char>) -> bool {
    let starts = crate::evidence::value_views(trace.command_starts@);
    starts.len() > 0 && forall|i: int| 0 <= i < starts.len() ==> start_valid(task, #[trigger] starts[i], workspace)
}

fn any_marked(v: &JsonValue) -> (r: bool)
    ensures
        r == exists|i: int| 0 <= i < arg_texts(v@).len() && crate::text::spec_contains(#[trigger] arg_texts(v@)[i], "SHOULD_NOT_EXIST"@),
{
    match v {
        JsonValue::Array(items) => {
            let ghost iv = match v@ { Json::Array(a) => a, _ => Seq::empty() };
            let mut k: usize = 0;
            let mut found = false;
            while k < items.len()
                invariant
                    k <= items.len(),
                    iv.len() == items.len(),
                    forall|j: int| 0 <= j < items.len() ==> #[trigger] iv[j] == items@[j]@,
                    found == exists|i: int| 0 <= i < strings_in(iv, k as int).len() && crate::text::spec_contains(#[trigger] strings_in(iv, k as int)[i], "SHOULD_NOT_EXIST"@),
                decreases items.len() - k,
            {
                assert(iv[k as int] == items@[k as int]@);
                let ghost prev = strings_in(iv, k as int);
                match &items[k] {
                    JsonValue::Str(t) => {
                        let hit = crate::text::contains_str(t.as_str(), "SHOULD_NOT_EXIST");
                        proof {
                            let next = strings_in(iv, k + 1);
                            assert(next == prev.push(t@));
                            if found {
                                let w = choose|i: int| 0 <= i < prev.len() && crate::text::spec_contains(#[trigger] prev[i], "SHOULD_NOT_EXIST"@);
                                assert(next[w] == prev[w]);
                            }
                            if hit {
                                assert(next[prev.len() as int] == t@);
                            }
                            if exists|i: int| 0 <= i < next.len() && crate::text::spec_contains(#[trigger] next[i], "SHOULD_NOT_EXIST"@) {
                                let w = choose|i: int| 0 <= i < next.len() && crate::text::spec_contains(#[trigger] next[i], "SHOULD_NOT_EXIST"@);
                                if w < prev.len() {
                                    assert(prev[w] == next[w]);
                                }
                            }
                        }
                        found = found || hit;
                    },
                    _ => {
                        assert(strings_in(iv, k + 1) == prev);
                    },
                }
                k += 1;
            }
            found
        },
        _ => false,
    }
}

/// Whether every helper ran in the workspace with intact arguments.
pub fn argv_cwd_valid(task: &TaskSpec, trace: &TraceSummary, workspace: &str) -> (r: bool)
    ensures
        r == spec_argv_cwd_valid(*task, *trace, workspace@),
{
    let ghost starts = crate::evidence::value_views(trace.command_starts@);
    if trace.command_starts.len() == 0 {
        return false;
    }
    let process = str_eq(task.cohort.as_str(), "process");
    let mut i: usize = 0;
    while i < trace.command_starts.len()
        invariant
            i <= trace.command_starts@.len(),
            starts == crate::evidence::value_views(trace.command_starts@),
            process == (task.cohort@ == "process"@),
            forall|j: int| 0 <= j < i ==> start_valid(*task, #[trigger] starts[j], workspace@),
        decreases trace.command_starts.len() - i,
    {
        let record = &trace.command_starts[i];
        assert(starts[i as int] == record@);
        proof {
            reveal_strlit("python3");
            assert("python3"@.len() == 7);
        }
        let cwd_ok = match record.field_str("cwd") { Some(c) => str_eq(c, workspace), None => workspace.unicode_len() == 0 };
        let invoked_ok = !process || match record.field_str("invoked_as") { Some(c) => str_eq(c, "python3"), None => false };
        let argv = record.field("argv");
        let marked = any_marked(&argv);
        proof {
            if workspace@.len() == 0 {
                assert(workspace@ =~= Seq::<char>::empty());
            }
        }
        assert(cwd_ok == (receipt_string(record@, "cwd"@) == workspace@));
        assert(invoked_ok == (task.cohort@ != "process"@ || receipt_string(record@, "invoked_as"@) == "python3"@));
        if !(cwd_ok && invoked_ok && !marked) {
            assert(!start_valid(*task, starts[i as int], workspace@));
            return false;
        }
        i += 1;
    }
    true
}


/// One block of the schedule: the task and the order of its two arms.
pub struct BlockSpec {
    pub block_id: String,
    pub task: String,
    pub order: Vec<String>,
}

/// A required string member of an object.
pub open spec fn spec_required_string(object: Seq<(Seq<char>, Json)>, key: Seq<char>) -> Result<Seq<char>, Seq<char>> {
    match crate::json::spec_lookup(object, key) {
        Some(Json::Str(t)) => Ok(t),
        _ => Err("missing string field "@ + key),
    }
}

/// A required string member of an object.
pub fn required_string(object: &JsonValue, key: &str) -> (r: Result<String, String>)
    requires
        object@ is Object,
    ensures
        match r {
            Ok(t) => spec_required_string(match object@ { Json::Object(m) => m, _ => Seq::empty() }, key@) == Ok::<Seq<char>, Seq<char>>(t@),
            Err(e) => spec_required_string(match object@ { Json::Object(m) => m, _ => Seq::empty() }, key@) == Err::<Seq<char>, Seq<char>>(e@),
        },
{
    match object.get(key) {
        Some(JsonValue::Str(t)) => Ok(owned(t.as_str())),
        _ => {
            let mut e = owned("missing string field ");
            push_all(&mut e, key);
            Err(e)
        },
    }
}

/// The arms of a block's order, or the reason it is not a list of strings.
pub open spec fn order_strings(items: Seq<Json>, n: int) -> Result<Seq<Seq<char>>, Seq<char>>
    decreases n,
{
    if n <= 0 || n > items.len() {
        Ok(Seq::empty())
    } else {
        match order_strings(items, n - 1) {
            Err(e) => Err(e),
            Ok(prev) => match items[n - 1] {
                Json::Str(t) => Ok(prev.push(t)),
                _ => Err("block.order contains a non-string"@),
            },
        }
    }
}

/// The view of a block: its identifier, its task, its arms.
pub open spec fn spec_parse_block(value: Json) -> Result<(Seq<char>, Seq<char>, Seq<Seq<char>>), Seq<char>> {
    match value {
        Json::Object(m) => match spec_required_string(m, "block_id"@) {
            Err(e) => Err(e),
            Ok(id) => match spec_required_string(m, "task"@) {
                Err(e) => Err(e),
                Ok(task) => match crate::json::spec_lookup(m, "order"@) {
                    Some(Json::Array(items)) => match order_strings(items, items.len() as int) {
                        Err(e) => Err(e),
                        Ok(order) => if order.len() != 2 {
                            Err("block.order must contain exactly two arms"@)
                        } else {
                            Ok((id, task, order))
                        },
                    },
                    _ => Err("block.order must be an array"@),
                },
            },
        },
        _ => Err("block must be a JSON object"@),
    }
}

/// Reads one block of the schedule.
#[verifier::loop_isolation(false)]
pub fn parse_block(value: &JsonValue) -> (r: Result<BlockSpec, String>)
    ensures
        match r {
            Ok(b) => spec_parse_block(value@) == Ok::<(Seq<char>, Seq<char>, Seq<Seq<char>>), Seq<char>>((b.block_id@, b.task@, crate::collection::arg_views(b.order@))),
            Err(e) => spec_parse_block(value@) == Err::<(Seq<char>, Seq<char>, Seq<Seq<char>>), Seq<char>>(e@),
        },
{
    match value {
        JsonValue::Object(_) => {},
        _ => return Err(owned("block must be a JSON object")),
    }
    let block_id = match required_string(value, "block_id") {
        Ok(t) => t,
        Err(e) => return Err(e),
    };
    let task = match required_string(value, "task") {
        Ok(t) => t,
        Err(e) => return Err(e),
    };
    let order_value = match value.get("order") {
        Some(o) => o,
        None => return Err(owned("block.order must be an array")),
    };
    let items = match order_value {
        JsonValue::Array(items) => items,
        _ => return Err(owned("block.order must be an array")),
    };
    let ghost iv = match order_value@ { Json::Array(a) => a, _ => Seq::empty() };
    let mut order: Vec<String> = Vec::new();
    let mut k: usize = 0;
    assert(crate::collection::arg_views(order@) =~= Seq::<Seq<char>>::empty());
    while k < items.len()
        invariant
            k <= items.len(),
            iv.len() == items.len(),
            forall|j: int| 0 <= j < items.len() ==> #[trigger] iv[j] == items@[j]@,
            order_strings(iv, k as int) == Ok::<Seq<Seq<char>>, Seq<char>>(crate::collection::arg_views(order@)),
        decreases items.len() - k,
    {
        assert(iv[k as int] == items@[k as int]@);
        match &items[k] {
            JsonValue::Str(t) => {
                let ghost before = crate::collection::arg_views(order@);
                order.push(owned(t.as_str()));
                assert(crate::collection::arg_views(order@) =~= before.push(t@));
            },
            _ => {
                proof {
                    assert(!(iv[k as int] is Str));
                    assert(order_strings(iv, k as int + 1) == Err::<Seq<Seq<char>>, Seq<char>>("block.order contains a non-string"@));
                    lemma_order_error(iv, k as int + 1, items.len() as int);
                }
                return Err(owned("block.order contains a non-string"));
            },
        }
        k += 1;
    }
    if order.len() != 2 {
        return Err(owned("block.order must contain exactly two arms"));
    }
    Ok(BlockSpec { block_id, task, order })
}

proof fn lemma_order_error(items: Seq<Json>, k: int, n: int)
    requires
        1 <= k <= n <= items.len(),
        order_strings(items, k) == Err::<Seq<Seq<char>>, Seq<char>>("block.order contains a non-string"@),
    ensures
        order_strings(items, n) == Err::<Seq<Seq<char>>, Seq<char>>("block.order contains a non-string"@),
    decreases n - k,
{
    if n > k {
        lemma_order_error(items, k, n - 1);
    }
}

} // verus!
