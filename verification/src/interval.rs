//! The interval calendar: the closed set of named recurring intervals,
//! their cron-style recurrence rules, the synonym parser for user
//! input, and the computation of which intervals are due at an instant.
//!
//! One recurrence-evaluation function serves both the scheduler's
//! trigger registration (the finest interval's rule) and the due-set
//! computation, so the two can never disagree. Synonym matching is
//! ASCII case-insensitive and ASCII-trimmed.

use vstd::prelude::*;
use crate::text::lower_chars;
use crate::text::lower_str;
use crate::text::str_eq;
use crate::text::trim_spec;
use crate::text::trim_str;

verus! {

/// Name for what cron_clock's schedule matching says of an expression
/// and an instant (seconds since the Unix epoch): whether the instant
/// satisfies the recurrence rule. A malformed expression, or an
/// instant out of chrono's range, is never due.
pub uninterp spec fn cron_due(expr: Seq<char>, ts: int) -> bool;

/// Relies on `cron_clock::Schedule` (`from_str` and the schedule's
/// membership test): whether the instant satisfies the cron expression.
/// The result depends on the expression and the instant alone.
#[verifier::external_body]
fn cron_matches(expr: &str, ts: i64) -> (r: bool)
    ensures
        r == cron_due(expr@, ts as int),
{
    let schedule = match <cron_clock::Schedule as core::str::FromStr>::from_str(expr) {
        Ok(s) => s,
        Err(_) => return false,
    };
    match chrono::DateTime::<chrono::Utc>::from_timestamp(ts, 0) {
        Some(instant) => schedule.includes(instant),
        None => false,
    }
}

/// How many named intervals are registered.
pub const INTERVAL_COUNT: usize = 8;

/// The canonical name of the interval at a registration index; the
/// finest interval comes first.
pub open spec fn spec_interval_name(i: int) -> Seq<char> {
    if i == 0 {
        "15min"@
    } else if i == 1 {
        "1h"@
    } else if i == 2 {
        "6h"@
    } else if i == 3 {
        "24h"@
    } else if i == 4 {
        "wed"@
    } else if i == 5 {
        "fri"@
    } else if i == 6 {
        "mon"@
    } else {
        "sat"@
    }
}

/// The cron expression of the interval at a registration index.
pub open spec fn spec_interval_cron(i: int) -> Seq<char> {
    if i == 0 {
        "0 */15 * * * *"@
    } else if i == 1 {
        "0 0 * * * *"@
    } else if i == 2 {
        "0 0 */6 * * *"@
    } else if i == 3 {
        "0 0 15 * * *"@
    } else if i == 4 {
        "0 0 12 * * Wed"@
    } else if i == 5 {
        "0 0 12 * * Fri"@
    } else if i == 6 {
        "0 0 12 * * Mon"@
    } else {
        "0 0 12 * * Sat"@
    }
}

pub fn interval_name(i: usize) -> (r: &'static str)
    requires
        i < INTERVAL_COUNT,
    ensures
        r@ == spec_interval_name(i as int),
{
    match i {
        0 => "15min",
        1 => "1h",
        2 => "6h",
        3 => "24h",
        4 => "wed",
        5 => "fri",
        6 => "mon",
        _ => "sat",
    }
}

pub fn interval_cron(i: usize) -> (r: &'static str)
    requires
        i < INTERVAL_COUNT,
    ensures
        r@ == spec_interval_cron(i as int),
{
    match i {
        0 => "0 */15 * * * *",
        1 => "0 0 * * * *",
        2 => "0 0 */6 * * *",
        3 => "0 0 15 * * *",
        4 => "0 0 12 * * Wed",
        5 => "0 0 12 * * Fri",
        6 => "0 0 12 * * Mon",
        _ => "0 0 12 * * Sat",
    }
}

/// The registered names are pairwise distinct.
pub proof fn lemma_interval_names_distinct()
    ensures
        forall|i: int, j: int|
            0 <= i < j < INTERVAL_COUNT ==> spec_interval_name(i) != spec_interval_name(j),
{
    reveal_strlit("15min");
    reveal_strlit("1h");
    reveal_strlit("6h");
    reveal_strlit("24h");
    reveal_strlit("wed");
    reveal_strlit("fri");
    reveal_strlit("mon");
    reveal_strlit("sat");
    assert forall|i: int, j: int| 0 <= i < j < INTERVAL_COUNT implies spec_interval_name(i)
        != spec_interval_name(j) by {
        assert(spec_interval_name(i).len() != spec_interval_name(j).len()
            || spec_interval_name(i)[0] != spec_interval_name(j)[0] || spec_interval_name(i)[1]
            != spec_interval_name(j)[1]);
    }
}

/// The due names among the first `i` registered intervals, in
/// registration order.
pub open spec fn due_list_upto(ts: int, i: int) -> Seq<Seq<char>>
    decreases i,
{
    if i <= 0 {
        Seq::empty()
    } else if cron_due(spec_interval_cron(i - 1), ts) {
        due_list_upto(ts, i - 1).push(spec_interval_name(i - 1))
    } else {
        due_list_upto(ts, i - 1)
    }
}

/// The due names at an instant, in registration order.
pub open spec fn spec_due_list(ts: int) -> Seq<Seq<char>> {
    due_list_upto(ts, INTERVAL_COUNT as int)
}

/// The due names at an instant, as a set: registered and with a
/// satisfied rule.
pub open spec fn spec_due_set(ts: int) -> Set<Seq<char>> {
    Set::new(
        |name: Seq<char>|
            exists|i: int|
                0 <= i < INTERVAL_COUNT && #[trigger] spec_interval_name(i) == name && cron_due(
                    spec_interval_cron(i),
                    ts,
                ),
    )
}

proof fn lemma_due_list_upto_set(ts: int, n: int)
    requires
        0 <= n <= INTERVAL_COUNT,
    ensures
        forall|name: Seq<char>|
            #[trigger] due_list_upto(ts, n).contains(name) <==> exists|i: int|
                0 <= i < n && #[trigger] spec_interval_name(i) == name && cron_due(
                    spec_interval_cron(i),
                    ts,
                ),
        due_list_upto(ts, n).no_duplicates(),
    decreases n,
{
    lemma_interval_names_distinct();
    if n > 0 {
        lemma_due_list_upto_set(ts, n - 1);
        let prev = due_list_upto(ts, n - 1);
        let cur = due_list_upto(ts, n);
        if cron_due(spec_interval_cron(n - 1), ts) {
            assert(cur == prev.push(spec_interval_name(n - 1)));
            assert(!prev.contains(spec_interval_name(n - 1))) by {
                if prev.contains(spec_interval_name(n - 1)) {
                    let i = choose|i: int|
                        0 <= i < n - 1 && #[trigger] spec_interval_name(i)
                            == spec_interval_name(n - 1) && cron_due(spec_interval_cron(i), ts);
                    assert(spec_interval_name(i) != spec_interval_name(n - 1));
                }
            }
            assert forall|name: Seq<char>| #[trigger] cur.contains(name) implies exists|i: int|
                0 <= i < n && #[trigger] spec_interval_name(i) == name && cron_due(
                    spec_interval_cron(i),
                    ts,
                ) by {
                let k = choose|k: int| 0 <= k < cur.len() && cur[k] == name;
                if k < prev.len() {
                    assert(prev.contains(name));
                } else {
                    assert(name == spec_interval_name(n - 1));
                }
            }
            assert forall|name: Seq<char>|
                exists|i: int|
                    0 <= i < n && #[trigger] spec_interval_name(i) == name && cron_due(
                        spec_interval_cron(i),
                        ts,
                    ) implies #[trigger] cur.contains(name) by {
                let i = choose|i: int|
                    0 <= i < n && #[trigger] spec_interval_name(i) == name && cron_due(
                        spec_interval_cron(i),
                        ts,
                    );
                if i < n - 1 {
                    assert(prev.contains(name));
                    let k = choose|k: int| 0 <= k < prev.len() && prev[k] == name;
                    assert(cur[k] == name);
                } else {
                    assert(cur[cur.len() - 1] == name);
                }
            }
        } else {
            assert(cur == prev);
            assert forall|name: Seq<char>| #[trigger] cur.contains(name) implies exists|i: int|
                0 <= i < n && #[trigger] spec_interval_name(i) == name && cron_due(
                    spec_interval_cron(i),
                    ts,
                ) by {}
            assert forall|name: Seq<char>|
                exists|i: int|
                    0 <= i < n && #[trigger] spec_interval_name(i) == name && cron_due(
                        spec_interval_cron(i),
                        ts,
                    ) implies #[trigger] cur.contains(name) by {
                let i = choose|i: int|
                    0 <= i < n && #[trigger] spec_interval_name(i) == name && cron_due(
                        spec_interval_cron(i),
                        ts,
                    );
                assert(i < n - 1 || i == n - 1);
                if i == n - 1 {
                    assert(!cron_due(spec_interval_cron(n - 1), ts));
                }
                assert(i < n - 1);
            }
        }
    }
}

/// Which intervals are due is a set determined by the instant alone:
/// the list carries no duplicates, and its members are exactly the
/// registered names whose rule the instant satisfies, however the
/// evaluation is ordered.
pub proof fn lemma_due_list_is_set(ts: int)
    ensures
        spec_due_list(ts).no_duplicates(),
        spec_due_list(ts).to_set() == spec_due_set(ts),
{
    lemma_due_list_upto_set(ts, INTERVAL_COUNT as int);
    assert forall|name: Seq<char>|
        spec_due_list(ts).to_set().contains(name) == spec_due_set(ts).contains(name) by {
        assert(spec_due_list(ts).to_set().contains(name) == spec_due_list(ts).contains(name));
    }
    assert(spec_due_list(ts).to_set() =~= spec_due_set(ts));
}

/// The interval names due at the instant, finest first. Evaluating one
/// rule never depends on another: a rule that cannot be evaluated only
/// leaves its own name out.
pub fn due_intervals(ts: i64) -> (r: Vec<String>)
    ensures
        r@.map_values(|s: String| s@) == spec_due_list(ts as int),
{
    let mut r: Vec<String> = Vec::new();
    let mut i: usize = 0;
    proof {
        assert(r@.map_values(|s: String| s@) =~= due_list_upto(ts as int, 0));
    }
    while i < INTERVAL_COUNT
        invariant
            i <= INTERVAL_COUNT,
            r@.map_values(|s: String| s@) == due_list_upto(ts as int, i as int),
        decreases INTERVAL_COUNT - i,
    {
        if cron_matches(interval_cron(i), ts) {
            let ghost old_r = r@;
            r.push(interval_name(i).to_owned());
            proof {
                assert(r@.map_values(|s: String| s@) =~= old_r.map_values(|s: String| s@).push(
                    spec_interval_name(i as int),
                ));
            }
        }
        i = i + 1;
    }
    r
}

/// The canonical interval name for a user-supplied synonym, matched
/// ASCII case-insensitively after ASCII trimming; anything outside the
/// synonym set yields nothing.
pub open spec fn spec_parse_interval(input: Seq<char>) -> Option<Seq<char>> {
    let t = lower_chars(trim_spec(input));
    if t == "15m"@ || t == "15min"@ || t == "quarter"@ {
        Some("15min"@)
    } else if t == "1h"@ || t == "hourly"@ || t == "hour"@ {
        Some("1h"@)
    } else if t == "6h"@ || t == "6hour"@ {
        Some("6h"@)
    } else if t == "24h"@ || t == "24hour"@ || t == "daily"@ {
        Some("24h"@)
    } else if t == "wed"@ || t == "wednesday"@ {
        Some("wed"@)
    } else if t == "fri"@ || t == "friday"@ {
        Some("fri"@)
    } else if t == "mon"@ || t == "monday"@ {
        Some("mon"@)
    } else if t == "sat"@ || t == "saturday"@ {
        Some("sat"@)
    } else {
        None
    }
}

/// Parse interval string to standardized format.
pub fn parse_interval(input: &str) -> (r: Option<&'static str>)
    ensures
        match r {
            Some(name) => spec_parse_interval(input@) == Some(name@),
            None => spec_parse_interval(input@) is None,
        },
{
    let lowered = lower_str(trim_str(input));
    let t = lowered.as_str();
    if str_eq(t, "15m") || str_eq(t, "15min") || str_eq(t, "quarter") {
        Some("15min")
    } else if str_eq(t, "1h") || str_eq(t, "hourly") || str_eq(t, "hour") {
        Some("1h")
    } else if str_eq(t, "6h") || str_eq(t, "6hour") {
        Some("6h")
    } else if str_eq(t, "24h") || str_eq(t, "24hour") || str_eq(t, "daily") {
        Some("24h")
    } else if str_eq(t, "wed") || str_eq(t, "wednesday") {
        Some("wed")
    } else if str_eq(t, "fri") || str_eq(t, "friday") {
        Some("fri")
    } else if str_eq(t, "mon") || str_eq(t, "monday") {
        Some("mon")
    } else if str_eq(t, "sat") || str_eq(t, "saturday") {
        Some("sat")
    } else {
        None
    }
}

} // verus!
