//! The checks the MBTX tool makes before it starts a runner job: how many
//! jobs may be unresolved, what the configured runner command must look
//! like, which working directory a request names, and which finished job
//! leaves a full job registry.
use vstd::prelude::*;
use crate::protocol::strings_view;
use crate::text::{blank, has_char, is_blank, owned};

verus! {

/// At most this many jobs may be unresolved when a new one is started.
pub const MAX_UNRESOLVED_JOBS: usize = 4;

/// A full job registry drops a finished job before it admits another.
pub const MAX_REGISTERED_JOBS: usize = 32;

/// How many of the jobs have not finished.
pub open spec fn spec_unresolved(finished: Seq<bool>) -> nat
    decreases finished.len(),
{
    if finished.len() == 0 {
        0
    } else {
        spec_unresolved(finished.drop_last()) + if finished.last() { 0nat } else { 1nat }
    }
}

proof fn lemma_unresolved_bound(finished: Seq<bool>)
    ensures
        spec_unresolved(finished) <= finished.len(),
    decreases finished.len(),
{
    if finished.len() > 0 {
        lemma_unresolved_bound(finished.drop_last());
    }
}

/// Counts the jobs that have not finished; `finished[i]` tells whether the
/// `i`-th registered job has.
pub fn unresolved_jobs(finished: &Vec<bool>) -> (n: usize)
    ensures
        n == spec_unresolved(finished@),
{
    let mut n: usize = 0;
    let mut i: usize = 0;
    while i < finished.len()
        invariant
            i <= finished.len(),
            n == spec_unresolved(finished@.take(i as int)),
        decreases finished.len() - i,
    {
        assert(finished@.take(i + 1).drop_last() =~= finished@.take(i as int));
        proof {
            lemma_unresolved_bound(finished@.take(i as int));
        }
        if !finished[i] {
            n = n + 1;
        }
        i += 1;
    }
    assert(finished@.take(i as int) =~= finished@);
    n
}

/// The refusal a run meets while too many jobs are unresolved.
pub open spec fn busy_message() -> Seq<char> {
    "MBTX has four unresolved jobs; poll or stop them before starting another"@
}

/// Admits a new run unless [`MAX_UNRESOLVED_JOBS`] jobs are unresolved.
pub fn admit_run(finished: &Vec<bool>) -> (r: Result<(), String>)
    ensures
        r is Ok <==> spec_unresolved(finished@) < MAX_UNRESOLVED_JOBS,
        r matches Err(m) ==> m@ == busy_message(),
{
    if unresolved_jobs(finished) >= MAX_UNRESOLVED_JOBS {
        Err(owned("MBTX has four unresolved jobs; poll or stop them before starting another"))
    } else {
        Ok(())
    }
}

/// Why a configured runner command is refused, if it is.
pub open spec fn spec_command_refusal(command: Option<Seq<Seq<char>>>) -> Option<Seq<char>> {
    match command {
        None => Some("MBTX is disabled; configure mbtx_command in user config"@),
        Some(c) => if c.len() == 0 || !(c[0].len() > 0 && c[0][0] == '/')
            || exists|i: int| 0 <= i < c.len() && #[trigger] c[i].contains('\0') {
            Some("mbtx_command must start with an absolute executable path and contain no NUL"@)
        } else {
            None
        },
    }
}

/// Checks the configured runner command: it must be set, start with an
/// absolute executable path (one that starts at the root, `/`), and hold no
/// NUL character in any argument.
#[verifier::loop_isolation(false)]
pub fn check_command(command: &Option<Vec<String>>) -> (r: Result<(), String>)
    ensures
        match spec_command_refusal(match command { Some(c) => Some(strings_view(c@)), None => None }) {
            None => r is Ok,
            Some(m) => r matches Err(e) && e@ == m,
        },
{
    let c = match command {
        None => { return Err(owned("MBTX is disabled; configure mbtx_command in user config")); },
        Some(c) => c,
    };
    let ghost cv = strings_view(c@);
    let refused = owned("mbtx_command must start with an absolute executable path and contain no NUL");
    if c.len() == 0 {
        return Err(refused);
    }
    let first = crate::text::chars_of(c[0].as_str());
    assert(cv[0] == c@[0]@);
    if first.len() == 0 || first[0] != '/' {
        return Err(refused);
    }
    let mut i: usize = 0;
    while i < c.len()
        invariant
            i <= c.len(),
            cv == strings_view(c@),
            forall|j: int| 0 <= j < i ==> !(#[trigger] cv[j]).contains('\0'),
        decreases c.len() - i,
    {
        assert(cv[i as int] == c@[i as int]@);
        if has_char(c[i].as_str(), '\0') {
            assert(cv[i as int].contains('\0'));
            return Err(refused);
        }
        i += 1;
    }
    Ok(())
}

/// The working directory a run request names: `Ok(Some(dir))` to resolve
/// `dir` against the environment's directory, `Ok(None)` to use that
/// directory itself, or the refusal of a blank one.
pub open spec fn spec_request_cwd(cwd: Option<Seq<char>>) -> Result<Option<Seq<char>>, Seq<char>> {
    match cwd {
        Some(d) => if is_blank(d) { Err("cwd must not be empty"@) } else { Ok(Some(d)) },
        None => Ok(None),
    }
}

/// Chooses the working directory of a run request.
pub fn request_cwd(cwd: Option<&str>) -> (r: Result<Option<&str>, String>)
    ensures
        match spec_request_cwd(match cwd { Some(d) => Some(d@), None => None }) {
            Ok(Some(d)) => r matches Ok(Some(x)) && x@ == d,
            Ok(None) => r matches Ok(None),
            Err(m) => r matches Err(e) && e@ == m,
        },
{
    match cwd {
        Some(d) => if blank(d) { Err(owned("cwd must not be empty")) } else { Ok(Some(d)) },
        None => Ok(None),
    }
}

/// The job a registry drops before it admits another: where it holds
/// [`MAX_REGISTERED_JOBS`] jobs or more, the first that has finished
/// (`finished[i]` tells whether the `i`-th registered job has).
#[verifier::loop_isolation(false)]
pub fn evicted_job(finished: &Vec<bool>) -> (r: Option<usize>)
    ensures
        r is Some <==> (finished@.len() >= MAX_REGISTERED_JOBS && exists|i: int| 0 <= i < finished@.len() && #[trigger] finished@[i]),
        r matches Some(k) ==> k < finished@.len() && finished@[k as int] && forall|j: int| 0 <= j < k ==> !#[trigger] finished@[j],
{
    if finished.len() < MAX_REGISTERED_JOBS {
        return None;
    }
    let mut i: usize = 0;
    while i < finished.len()
        invariant
            i <= finished.len(),
            forall|j: int| 0 <= j < i ==> !#[trigger] finished@[j],
        decreases finished.len() - i,
    {
        if finished[i] {
            assert(finished@[i as int]);
            return Some(i);
        }
        i += 1;
    }
    None
}

} // verus!
