//! The upstream attempts of an arm, from the exchanges the isolating proxy
//! dumped: which files are requests, in what order, the attempt each one
//! names, and the records read from them with recoveries marked.
use vstd::prelude::*;
use vstd::relations::sorted_by;
use crate::capture::{lemma_name_order, name_order};
use crate::json::{Json, JsonValue};
use crate::m5_runner::{AttemptRecord, AttemptView, attempt_record, attempt_views, mark_recovered, recovered_value, spec_attempt, success_after};
use crate::text::{owned, spec_ends_with};

verus! {

/// `str::trim_end_matches`: the text with every trailing repetition of a
/// suffix that is not empty removed.
pub open spec fn trim_end_all(s: Seq<char>, suffix: Seq<char>) -> Seq<char>
    decreases s.len(),
{
    if suffix.len() > 0 && suffix.len() <= s.len() && s.skip(s.len() - suffix.len()) == suffix {
        trim_end_all(s.take(s.len() - suffix.len()), suffix)
    } else {
        s
    }
}

/// Removes every trailing repetition of a suffix that is not empty.
pub fn trim_end_matches(s: &str, suffix: &str) -> (r: String)
    requires
        suffix@.len() > 0,
    ensures
        r@ == trim_end_all(s@, suffix@),
{
    let chars = crate::text::chars_of(s);
    let sfx = crate::text::chars_of(suffix);
    let mut end = chars.len();
    assert(s@.take(end as int) =~= s@);
    while end >= sfx.len()
        && crate::text::chars_eq(crate::text::slice_chars(chars.as_slice(), end - sfx.len(), end).as_slice(), sfx.as_slice())
        invariant
            end <= chars@.len(),
            chars@ == s@,
            sfx@ == suffix@,
            sfx@.len() > 0,
            trim_end_all(s@, suffix@) == trim_end_all(s@.take(end as int), suffix@),
        decreases end,
    {
        let ghost t = s@.take(end as int);
        assert(t.skip(t.len() - sfx@.len()) =~= chars@.subrange(end - sfx@.len(), end as int));
        assert(t.take(t.len() - sfx@.len()) =~= s@.take(end - sfx@.len()));
        end = end - sfx.len();
    }
    proof {
        let t = s@.take(end as int);
        if sfx@.len() <= t.len() {
            assert(t.skip(t.len() - sfx@.len()) =~= chars@.subrange(end - sfx@.len(), end as int));
        }
    }
    crate::text::string_of(crate::text::slice_chars(chars.as_slice(), 0, end).as_slice())
}

/// Whether a dumped file is a request.
pub open spec fn is_request(name: Seq<char>) -> bool {
    spec_ends_with(name, "-request.json"@)
}

/// The request names among the first `n`, in the order given.
pub open spec fn requests_upto(names: Seq<Seq<char>>, n: int) -> Seq<Seq<char>>
    decreases n,
{
    if n <= 0 {
        Seq::empty()
    } else if is_request(names[n - 1]) {
        requests_upto(names, n - 1).push(names[n - 1])
    } else {
        requests_upto(names, n - 1)
    }
}

/// The request names, sorted.
pub open spec fn spec_request_names(names: Seq<Seq<char>>) -> Seq<Seq<char>> {
    requests_upto(names, names.len() as int).sort_by(name_order())
}

/// The exchange a request names: the request's name without its suffix,
/// whose `-response.json` is the response; the attempt ID is that name, or
/// the dump directory's name where it is empty.
pub open spec fn exchange_prefix(request: Seq<char>) -> Seq<char> {
    trim_end_all(request, "-request.json"@)
}

/// The attempt ID of an exchange.
pub open spec fn spec_attempt_id(prefix: Seq<char>, dump_dir: Seq<char>) -> Seq<char> {
    if prefix.len() == 0 { dump_dir } else { prefix }
}

/// Picks the requests among the dumped files' names and sorts them.
pub fn request_names(names: &Vec<String>) -> (r: Vec<String>)
    ensures
        crate::collection::arg_views(r@) == spec_request_names(crate::collection::arg_views(names@)),
{
    let ghost nv = crate::collection::arg_views(names@);
    let ghost picked = requests_upto(nv, nv.len() as int);
    let mut out: Vec<String> = Vec::new();
    assert(crate::collection::arg_views(out@) =~= Seq::<Seq<char>>::empty());
    assert(requests_upto(nv, 0) =~= Seq::<Seq<char>>::empty());
    let mut i: usize = 0;
    while i < names.len()
        invariant
            i <= names@.len(),
            nv == crate::collection::arg_views(names@),
            sorted_by(crate::collection::arg_views(out@), name_order()),
            crate::collection::arg_views(out@).to_multiset() == requests_upto(nv, i as int).to_multiset(),
        decreases names.len() - i,
    {
        let name = names[i].as_str();
        assert(nv[i as int] == name@);
        if crate::protocol::ends_with(name, "-request.json") {
            crate::capture::insert_name(&mut out, owned(name));
            proof {
                vstd::seq_lib::to_multiset_build(requests_upto(nv, i as int), name@);
            }
        }
        i += 1;
    }
    proof {
        lemma_name_order();
        picked.lemma_sort_by_ensures(name_order());
        vstd::seq_lib::lemma_sorted_unique(crate::collection::arg_views(out@), picked.sort_by(name_order()), name_order());
    }
    out
}

/// Gives the exchange prefix and attempt ID of a request.
pub fn exchange_of(request: &str, dump_dir: &str) -> (r: (String, String))
    ensures
        r.0@ == exchange_prefix(request@),
        r.1@ == spec_attempt_id(exchange_prefix(request@), dump_dir@),
{
    proof {
        reveal_strlit("-request.json");
    }
    let prefix = trim_end_matches(request, "-request.json");
    let id = if crate::text::chars_of(prefix.as_str()).len() == 0 { owned(dump_dir) } else { owned(prefix.as_str()) };
    (prefix, id)
}

/// What was read back of one exchange: its attempt ID, when its request and
/// response were dumped (where known), and the response dump.
pub struct DumpExchange {
    pub attempt_id: String,
    pub request_time: Option<i64>,
    pub response_time: Option<i64>,
    pub response: Option<JsonValue>,
}

/// The request time of the exchange at `index`, or its position (at most
/// the agent's elapsed time) where it is not known.
pub open spec fn request_time_or(t: Option<i64>, index: int, elapsed_ms: i64) -> i64 {
    match t {
        Some(v) => v,
        None => {
            let cap: i64 = if elapsed_ms > 0 { elapsed_ms } else { 0 };
            if index < cap { index as i64 } else { cap }
        },
    }
}

/// The attempts the exchanges give, before recoveries are marked.
pub open spec fn exchange_attempts(x: Seq<DumpExchange>, elapsed_ms: i64) -> Seq<AttemptView> {
    Seq::new(x.len(), |i: int| spec_attempt(x[i].attempt_id@, i as usize, request_time_or(x[i].request_time, i, elapsed_ms),
        x[i].response_time, match x[i].response { Some(v) => Some(v@), None => None }))
}

/// An attempt with its recovery marked.
pub open spec fn marked(rs: Seq<AttemptView>, i: int) -> AttemptView {
    AttemptView { value: recovered_value(rs[i], success_after(rs, i)), ..rs[i] }
}

/// Reads the attempts of an arm from its exchanges, in request order, and
/// marks the failures a later success recovered from.
pub fn attempt_records(exchanges: &Vec<DumpExchange>, elapsed_ms: i64) -> (r: Vec<AttemptRecord>)
    requires
        exchanges@.len() <= i64::MAX,
    ensures
        r@.len() == exchanges@.len(),
        forall|i: int| 0 <= i < r@.len() ==> #[trigger] r@[i]@ == marked(exchange_attempts(exchanges@, elapsed_ms), i),
{
    let ghost xs = exchange_attempts(exchanges@, elapsed_ms);
    let mut records: Vec<AttemptRecord> = Vec::new();
    let mut i: usize = 0;
    while i < exchanges.len()
        invariant
            i <= exchanges@.len(),
            exchanges@.len() <= i64::MAX,
            xs == exchange_attempts(exchanges@, elapsed_ms),
            records@.len() == i,
            forall|j: int| 0 <= j < i ==> #[trigger] records@[j]@ == xs[j],
        decreases exchanges.len() - i,
    {
        let x = &exchanges[i];
        let cap: i64 = if elapsed_ms > 0 { elapsed_ms } else { 0 };
        let request_time = match x.request_time {
            Some(t) => t,
            None => if (i as i64) < cap { i as i64 } else { cap },
        };
        let response = match &x.response { Some(v) => Some(v), None => None };
        let rec = attempt_record(x.attempt_id.as_str(), i, request_time, x.response_time, response);
        records.push(rec);
        i += 1;
    }
    assert(attempt_views(records@) =~= xs);
    mark_recovered(records.as_mut_slice());
    records
}

} // verus!
