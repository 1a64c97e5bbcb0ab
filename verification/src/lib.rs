//! Verified core of the MBTX contract: the runner wire protocol and the
//! tool's admission checks, evidence classification and seals, the
//! collectors' accounting, and the reports.
use vstd::prelude::*;

pub mod arm_record;
pub mod arm_verdict;
pub mod arms;
pub mod admission;
pub mod attempt;
pub mod capture;
pub mod codex_evidence;
pub mod collection;
pub mod eval;
pub mod events;
pub mod dumps;
pub mod evidence;
pub mod fixture_task;
pub mod json;
pub mod json_object;
pub mod m5_runner;
pub mod metrics;
pub mod observation;
pub mod online;
pub mod order;
pub mod pairs;
pub mod process_identity;
pub mod reassess;
pub mod protocol;
pub mod render;
pub mod replay;
pub mod runner_config;
pub mod sanitize;
pub mod startup;
pub mod startup_report;
pub mod reporting;
pub mod text;
pub mod trace;
pub mod trace_summary;
pub mod workspace_diff;

pub use json::{JsonNumber, JsonValue, parse_json, to_json_text};
pub use protocol::{Arguments, Batch, Failure, Progress, RunArguments, Terminal, reply};

verus! {

} // verus!
