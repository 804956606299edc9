//! The scheduler driver's tick, as a decision machine: refresh the
//! snapshot (a failure escalates and aborts the tick), run the pump
//! scan, evaluate demands, then persist the new history snapshot with
//! exactly one retry — escalating only when both attempts fail.
//!
//! The recurring trigger itself, the awaits and the sleeps live
//! outside; they feed each stage's outcome back in and perform what
//! the machine decides next.

use vstd::prelude::*;
use vstd::string::StringExecFns;
use crate::history::TokensAt;
use crate::market::TokenMap;

verus! {

/// Where a tick stands.
#[derive(Debug, Clone, Copy, PartialEq, Eq, Structural)]
pub enum TickStage {
    /// Fetch the market snapshot.
    FetchMarket,
    /// Scan the fresh snapshot for pumps.
    PumpScan,
    /// Evaluate the due demands.
    EvaluateDemands,
    /// Persist the history snapshot; `retried` after one failure.
    PersistSnapshot { retried: bool },
    /// Nothing left this tick.
    Done,
}

/// What escalation text opens a failed-fetch report.
pub open spec fn spec_fetch_error_prefix() -> Seq<char> {
    "Error during fetch "@
}

/// What escalation text opens a twice-failed persistence report.
pub open spec fn spec_persist_error_prefix() -> Seq<char> {
    "Error pushing in database 2 times"@
}

/// The moderation report for a failed market fetch.
pub fn make_fetch_escalation(detail: &str) -> (r: String)
    ensures
        r@ == spec_fetch_error_prefix() + detail@,
{
    let mut out = "Error during fetch ".to_owned();
    out.append(detail);
    out
}

/// The moderation report for a snapshot append that failed twice.
pub fn make_persist_escalation(detail: &str) -> (r: String)
    ensures
        r@ == spec_persist_error_prefix() + detail@,
{
    let mut out = "Error pushing in database 2 times".to_owned();
    out.append(detail);
    out
}

/// Whether the escalation in a tick step carries the given prefix.
pub open spec fn escalates_with(r: Option<String>, prefix: Seq<char>) -> bool {
    match r {
        Some(msg) => msg@.len() >= prefix.len() && msg@.take(prefix.len() as int) == prefix,
        None => false,
    }
}

/// One step of the tick: given where the tick stands and whether the
/// stage's outside work succeeded, where it goes next and what single
/// escalation (if any) is owed.
///
/// A failed fetch aborts the whole tick with one escalation; pump
/// scanning and demand evaluation never abort the tick; a failed
/// persist is retried exactly once, and only the second failure
/// escalates — a retry that succeeds owes nothing.
pub fn tick_next(stage: TickStage, step_ok: bool, detail: &str) -> (r: (
    TickStage,
    Option<String>,
))
    ensures
        match stage {
            TickStage::FetchMarket => {
                &&& step_ok ==> r == (TickStage::PumpScan, None::<String>)
                &&& !step_ok ==> r.0 == TickStage::Done && escalates_with(
                    r.1,
                    spec_fetch_error_prefix(),
                )
            },
            TickStage::PumpScan => r == (TickStage::EvaluateDemands, None::<String>),
            TickStage::EvaluateDemands => r == (
                TickStage::PersistSnapshot { retried: false },
                None::<String>,
            ),
            TickStage::PersistSnapshot { retried } => {
                &&& step_ok ==> r == (TickStage::Done, None::<String>)
                &&& (!step_ok && !retried) ==> r == (
                    TickStage::PersistSnapshot { retried: true },
                    None::<String>,
                )
                &&& (!step_ok && retried) ==> r.0 == TickStage::Done && escalates_with(
                    r.1,
                    spec_persist_error_prefix(),
                )
            },
            TickStage::Done => r == (TickStage::Done, None::<String>),
        },
{
    match stage {
        TickStage::FetchMarket => {
            if step_ok {
                (TickStage::PumpScan, None)
            } else {
                let msg = make_fetch_escalation(detail);
                proof {
                    assert(msg@.take(spec_fetch_error_prefix().len() as int)
                        =~= spec_fetch_error_prefix());
                }
                (TickStage::Done, Some(msg))
            }
        },
        TickStage::PumpScan => (TickStage::EvaluateDemands, None),
        TickStage::EvaluateDemands => (TickStage::PersistSnapshot { retried: false }, None),
        TickStage::PersistSnapshot { retried } => {
            if step_ok {
                (TickStage::Done, None)
            } else if !retried {
                (TickStage::PersistSnapshot { retried: true }, None)
            } else {
                let msg = make_persist_escalation(detail);
                proof {
                    assert(msg@.take(spec_persist_error_prefix().len() as int)
                        =~= spec_persist_error_prefix());
                }
                (TickStage::Done, Some(msg))
            }
        },
        TickStage::Done => (TickStage::Done, None),
    }
}

/// The minute bucket of an instant: seconds since the epoch, in
/// whole minutes.
pub fn minute_bucket(ts: i64) -> (r: i32)
    requires
        0 <= ts,
        ts / 60 <= i32::MAX,
    ensures
        r == ts / 60,
{
    (ts / 60) as i32
}

/// The history snapshot a tick persists: the current minute bucket,
/// the due interval names, and the fresh market mapping.
pub fn build_history_snapshot(ts: i64, times: Vec<String>, tokens: TokenMap) -> (r: TokensAt)
    requires
        0 <= ts,
        ts / 60 <= i32::MAX,
    ensures
        r.timestamp_in_min == ts / 60,
        r.times == times,
        r.tokens == tokens,
{
    TokensAt { timestamp_in_min: minute_bucket(ts), times, tokens }
}

} // verus!
