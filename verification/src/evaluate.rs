//! The demand evaluator: for each subscription due this tick, compares
//! the current price against the historical snapshot's price and
//! decides whether to notify, with what text.
//!
//! The compound notify condition is exact rational arithmetic done by
//! cross-multiplication: the percent change must clear the absolute
//! noise floor `MIN_SIGNIFICANT_CHANGE_CENTI_PERCENT` (one hundredth
//! of a percent) *and* the subscription's own threshold — the floor is
//! an independent filter, not a substitute for the threshold. One bad
//! interval or subscription never stops its siblings: failures are
//! collected and escalated once, at the end.

use vstd::prelude::*;
use vstd::string::StringExecFns;
use crate::decimal::nat_to_dec;
use crate::decimal::pad_digits;
use crate::decimal::push_pad_digits;
use crate::decimal::u128_to_string;
use crate::decimal::u64_to_string;
use crate::demand::Demand;
use crate::market::PRICE_SCALE;
use crate::market::TokenMap;
use crate::text::push_char;
use crate::text::upper_chars;
use crate::text::upper_str;

verus! {

/// The noise floor, in hundredths of a percent: a change smaller in
/// magnitude than this never notifies, whatever the threshold.
pub const MIN_SIGNIFICANT_CHANGE_CENTI_PERCENT: u64 = 1;

/// Link prefix put before a pair number in every alert message.
pub open spec fn spec_referral_link() -> Seq<char> {
    "https://t.me/HypurrFunBot?start=ref_2262836c-trade_"@
}

pub fn referral_link() -> (r: &'static str)
    ensures
        r@ == spec_referral_link(),
{
    "https://t.me/HypurrFunBot?start=ref_2262836c-trade_"
}

/// Magnitude of the price move.
pub open spec fn spec_abs_diff(now: u64, prev: u64) -> int {
    if now >= prev {
        now - prev
    } else {
        prev - now
    }
}

/// Whether the move clears the absolute noise floor: the percent
/// change's magnitude is at least a hundredth of a percent.
pub open spec fn spec_change_significant(now: u64, prev: u64) -> bool {
    spec_abs_diff(now, prev) * 10000 >= prev * MIN_SIGNIFICANT_CHANGE_CENTI_PERCENT
}

/// Whether the move clears the subscription's own threshold; a
/// threshold of zero (or below) asks for every change.
pub open spec fn spec_meets_threshold(now: u64, prev: u64, threshold: i16) -> bool {
    threshold <= 0 || spec_abs_diff(now, prev) * 100 >= threshold * prev
}

/// The notify decision: both the noise floor and the threshold hold.
pub open spec fn spec_should_notify(now: u64, prev: u64, threshold: i16) -> bool {
    spec_change_significant(now, prev) && spec_meets_threshold(now, prev, threshold)
}

/// The percent change's magnitude in hundredths of a percent, rounded
/// half up; zero when there is no previous price to compare against.
pub open spec fn spec_centi_percent(now: u64, prev: u64) -> int {
    if prev == 0 {
        0
    } else {
        (spec_abs_diff(now, prev) * 20000 + prev) / (2 * prev)
    }
}

/// What one evaluation decided.
pub struct ChangeDecision {
    /// Send a message at all?
    pub notify: bool,
    /// Did the price go up (a move of zero counts as a drop)?
    pub risen: bool,
    /// Percent magnitude, in hundredths of a percent, rounded half up.
    pub centi_percent: u128,
}

/// Decides one price pair against one threshold.
pub fn evaluate_change(now: u64, prev: u64, threshold: i16) -> (r: ChangeDecision)
    ensures
        r.notify == spec_should_notify(now, prev, threshold),
        r.risen == (now > prev),
        r.centi_percent == spec_centi_percent(now, prev),
{
    let diff: u128 = if now >= prev {
        (now - prev) as u128
    } else {
        (prev - now) as u128
    };
    proof {
        assert(diff <= u64::MAX);
        assert((prev as int) * (MIN_SIGNIFICANT_CHANGE_CENTI_PERCENT as int) == prev as int);
    }
    let significant = diff * 10000 >= (prev as u128) * (MIN_SIGNIFICANT_CHANGE_CENTI_PERCENT
        as u128);
    let meets: bool;
    if threshold <= 0 {
        meets = true;
    } else {
        let t: u128 = threshold as u128;
        proof {
            assert(t * (prev as u128) <= 32767 * (u64::MAX as int)) by (nonlinear_arith)
                requires
                    0 <= t <= 32767,
                    0 <= prev <= u64::MAX,
            ;
        }
        meets = diff * 100 >= t * (prev as u128);
    }
    let centi: u128 = if prev == 0 {
        0
    } else {
        (diff * 20000 + prev as u128) / (2 * (prev as u128))
    };
    ChangeDecision { notify: significant && meets, risen: now > prev, centi_percent: centi }
}

/// Percent text with two decimal digits, from hundredths of a percent.
pub open spec fn spec_percent_text(centi: nat) -> Seq<char> {
    nat_to_dec(centi / 100) + seq!['.'] + pad_digits(centi % 100, 2)
}

pub fn percent_text(centi: u128) -> (r: String)
    ensures
        r@ == spec_percent_text(centi as nat),
{
    let mut out = u128_to_string(centi / 100);
    push_char(&mut out, '.');
    push_pad_digits(&mut out, (centi % 100) as u64, 2);
    proof {
        assert(out@ =~= spec_percent_text(centi as nat));
    }
    out
}

/// Price text from a fixed-point value: the whole part, then eight
/// fractional digits when there are any.
pub open spec fn spec_price_text(p: u64) -> Seq<char> {
    if p % PRICE_SCALE == 0 {
        nat_to_dec(p as nat / PRICE_SCALE as nat)
    } else {
        nat_to_dec(p as nat / PRICE_SCALE as nat) + seq!['.'] + pad_digits(
            p as nat % PRICE_SCALE as nat,
            8,
        )
    }
}

pub fn price_text(p: u64) -> (r: String)
    ensures
        r@ == spec_price_text(p),
{
    let whole = p / PRICE_SCALE;
    let frac = p % PRICE_SCALE;
    let mut out = u64_to_string(whole);
    if frac != 0 {
        push_char(&mut out, '.');
        push_pad_digits(&mut out, frac, 8);
        proof {
            assert(out@ =~= spec_price_text(p));
        }
    }
    out
}

/// The alert message for one notified move.
pub open spec fn spec_dif_message(
    name: Seq<char>,
    pair_no: u16,
    risen: bool,
    centi: nat,
    interval: Seq<char>,
    price: u64,
) -> Seq<char> {
    "__*\u{1F4C8} WAGMI Alert*__:\n["@ + name + "]("@ + spec_referral_link() + nat_to_dec(
        pair_no as nat,
    ) + ") has "@ + (if risen {
        "risen"@
    } else {
        "dropped"@
    }) + " by "@ + spec_percent_text(centi) + "% in the last "@ + interval + " : "@
        + spec_price_text(price) + "$"@
}

/// Builds the alert message: direction word, two-decimal percent, the
/// interval name, and the current price.
pub fn format_dif_message(
    name: &str,
    pair_no: u16,
    risen: bool,
    centi: u128,
    interval: &str,
    price: u64,
) -> (r: String)
    ensures
        r@ == spec_dif_message(name@, pair_no, risen, centi as nat, interval@, price),
{
    let mut out = String::new();
    out.append("__*\u{1F4C8} WAGMI Alert*__:\n[");
    out.append(name);
    out.append("](");
    out.append(referral_link());
    let pair_text = u64_to_string(pair_no as u64);
    out.append(pair_text.as_str());
    out.append(") has ");
    if risen {
        out.append("risen");
    } else {
        out.append("dropped");
    }
    out.append(" by ");
    let pct = percent_text(centi);
    out.append(pct.as_str());
    out.append("% in the last ");
    out.append(interval);
    out.append(" : ");
    let pr = price_text(price);
    out.append(pr.as_str());
    out.append("$");
    proof {
        assert(out@ =~= spec_dif_message(name@, pair_no, risen, centi as nat, interval@, price));
    }
    out
}

/// The diagnostic sent when the subscribed symbol has no current pair.
pub open spec fn spec_no_pair_message() -> Seq<char> {
    "No pair for {token} "@
}

pub fn no_pair_message() -> (r: &'static str)
    ensures
        r@ == spec_no_pair_message(),
{
    "No pair for {token} "
}

/// Evaluates one subscription against the two snapshots: the message
/// to send, or nothing.
pub open spec fn spec_demand_note(d: Demand, now: TokenMap, then: TokenMap) -> Option<
    (i64, Option<i32>, Seq<char>),
> {
    let tok = upper_chars(d.token@);
    if !now.contains_symbol(tok) {
        Some((d.chat_id, d.thread_id, spec_no_pair_message()))
    } else if !then.contains_symbol(tok) {
        None
    } else {
        let new = now.info_of(tok);
        let prev = then.info_of(tok);
        if spec_should_notify(new.price, prev.price, d.percentage) {
            Some(
                (
                    d.chat_id,
                    d.thread_id,
                    spec_dif_message(
                        new.name@,
                        (match new.pair_number {
                            Some(n) => n,
                            None => 0u16,
                        }),
                        new.price > prev.price,
                        spec_centi_percent(new.price, prev.price) as nat,
                        d.interval@,
                        new.price,
                    ),
                ),
            )
        } else {
            None
        }
    }
}

/// One outbound notification.
pub struct Notification {
    pub chat_id: i64,
    pub thread_id: Option<i32>,
    pub text: String,
}

impl Notification {
    /// The plain triple this notification carries.
    pub open spec fn view_triple(self) -> (i64, Option<i32>, Seq<char>) {
        (self.chat_id, self.thread_id, self.text@)
    }
}

/// The notifications owed for a list of subscriptions, in order.
pub open spec fn spec_plan_notes(ds: Seq<Demand>, now: TokenMap, then: TokenMap) -> Seq<
    (i64, Option<i32>, Seq<char>),
>
    decreases ds.len(),
{
    if ds.len() == 0 {
        Seq::empty()
    } else {
        let front = spec_plan_notes(ds.drop_last(), now, then);
        match spec_demand_note(ds.last(), now, then) {
            Some(n) => front.push(n),
            None => front,
        }
    }
}

/// Evaluates one subscription: a symbol missing from the current
/// snapshot notifies the subscriber with the no-pair diagnostic; one
/// missing from history is skipped until a later snapshot; otherwise
/// the compound significance-and-threshold condition decides.
pub fn process_tokens(demand: &Demand, tokens_now: &TokenMap, tokens_then: &TokenMap) -> (r:
    Option<Notification>)
    requires
        tokens_now.wf(),
        tokens_then.wf(),
    ensures
        match r {
            Some(n) => spec_demand_note(*demand, *tokens_now, *tokens_then) == Some(
                n.view_triple(),
            ),
            None => spec_demand_note(*demand, *tokens_now, *tokens_then) is None,
        },
{
    let token = upper_str(demand.token.as_str());
    let new_token = match tokens_now.get(token.as_str()) {
        Some(info) => info,
        None => {
            return Some(
                Notification {
                    chat_id: demand.chat_id,
                    thread_id: demand.thread_id,
                    text: no_pair_message().to_owned(),
                },
            );
        },
    };
    let latest = match tokens_then.get(token.as_str()) {
        Some(info) => info,
        None => {
            return None;
        },
    };
    let decision = evaluate_change(new_token.price, latest.price, demand.percentage);
    if decision.notify {
        let pair_no = match new_token.pair_number {
            Some(n) => n,
            None => 0,
        };
        let text = format_dif_message(
            new_token.name.as_str(),
            pair_no,
            decision.risen,
            decision.centi_percent,
            demand.interval.as_str(),
            new_token.price,
        );
        Some(Notification { chat_id: demand.chat_id, thread_id: demand.thread_id, text })
    } else {
        None
    }
}

/// Evaluates every subscription of one due interval, in order. No
/// subscription's outcome depends on another's.
pub fn satisfy_regular_demands_at(
    demands: &Vec<Demand>,
    tokens_now: &TokenMap,
    tokens_then: &TokenMap,
) -> (r: Vec<Notification>)
    requires
        tokens_now.wf(),
        tokens_then.wf(),
    ensures
        r@.map_values(|n: Notification| n.view_triple()) == spec_plan_notes(
            demands@,
            *tokens_now,
            *tokens_then,
        ),
{
    let mut out: Vec<Notification> = Vec::new();
    let mut i: usize = 0;
    proof {
        assert(out@.map_values(|n: Notification| n.view_triple()) =~= spec_plan_notes(
            demands@.take(0),
            *tokens_now,
            *tokens_then,
        ));
    }
    while i < demands.len()
        invariant
            i <= demands@.len(),
            tokens_now.wf(),
            tokens_then.wf(),
            out@.map_values(|n: Notification| n.view_triple()) == spec_plan_notes(
                demands@.take(i as int),
                *tokens_now,
                *tokens_then,
            ),
        decreases demands@.len() - i,
    {
        proof {
            assert(demands@.take(i + 1 as int).drop_last() =~= demands@.take(i as int));
            assert(demands@.take(i + 1 as int).last() == demands@[i as int]);
        }
        let ghost old_out = out@;
        match process_tokens(&demands[i], tokens_now, tokens_then) {
            Some(n) => {
                out.push(n);
                proof {
                    assert(out@.map_values(|n: Notification| n.view_triple()) =~= old_out
                        .map_values(|n: Notification| n.view_triple()).push(
                        out@.last().view_triple(),
                    ));
                }
            },
            None => {},
        }
        i = i + 1;
    }
    proof {
        assert(demands@.take(demands@.len() as int) =~= demands@);
    }
    out
}

/// One due interval's inputs, as the collaborators handed them over:
/// the interval name, the outcome of fetching its subscriptions, and
/// the historical snapshot tagged with it, if any exists yet.
pub struct IntervalWork {
    pub interval: String,
    pub fetched: Result<Vec<Demand>, String>,
    pub history: Option<TokenMap>,
}

/// The header of the aggregated lookup-failure report.
pub open spec fn spec_demand_err_header() -> Seq<char> {
    "Error satisfying demand for :"@
}

pub fn demand_err_header() -> (r: &'static str)
    ensures
        r@ == spec_demand_err_header(),
{
    "Error satisfying demand for :"
}

/// The notifications one interval's work yields: none without a
/// fetched list or a historical snapshot.
pub open spec fn spec_work_notes(w: IntervalWork, now: TokenMap) -> Seq<
    (i64, Option<i32>, Seq<char>),
> {
    match w.fetched {
        Ok(ds) => match w.history {
            Some(then) => spec_plan_notes(ds@, now, then),
            None => Seq::empty(),
        },
        Err(e) => Seq::empty(),
    }
}

/// All notifications owed by the batch, in interval order.
pub open spec fn spec_batch_notes(ws: Seq<IntervalWork>, now: TokenMap) -> Seq<
    (i64, Option<i32>, Seq<char>),
>
    decreases ws.len(),
{
    if ws.len() == 0 {
        Seq::empty()
    } else {
        spec_batch_notes(ws.drop_last(), now) + spec_work_notes(ws.last(), now)
    }
}

/// The failed lookups recorded against their intervals, each a line
/// of the single aggregated report.
pub open spec fn spec_batch_errors(ws: Seq<IntervalWork>) -> Seq<char>
    decreases ws.len(),
{
    if ws.len() == 0 {
        Seq::empty()
    } else {
        spec_batch_errors(ws.drop_last()) + (match ws.last().fetched {
            Ok(ds) => Seq::<char>::empty(),
            Err(e) => ws.last().interval@ + ": "@ + e@ + "\n"@,
        })
    }
}

/// Whether any interval's lookup failed.
pub open spec fn spec_batch_has_error(ws: Seq<IntervalWork>) -> bool {
    exists|i: int| 0 <= i < ws.len() && (#[trigger] ws[i]).fetched is Err
}

proof fn lemma_batch_errors_empty(ws: Seq<IntervalWork>)
    ensures
        spec_batch_has_error(ws) <==> spec_batch_errors(ws).len() > 0,
    decreases ws.len(),
{
    reveal_strlit(": ");
    reveal_strlit("\n");
    if ws.len() > 0 {
        lemma_batch_errors_empty(ws.drop_last());
        if spec_batch_has_error(ws.drop_last()) {
            let i = choose|i: int|
                0 <= i < ws.drop_last().len() && (#[trigger] ws.drop_last()[i]).fetched is Err;
            assert(ws[i].fetched is Err);
        }
        if ws.last().fetched is Err {
            assert(ws[ws.len() - 1].fetched is Err);
        }
        if spec_batch_has_error(ws) && !(ws.last().fetched is Err) && !spec_batch_has_error(
            ws.drop_last(),
        ) {
            let i = choose|i: int| 0 <= i < ws.len() && (#[trigger] ws[i]).fetched is Err;
            assert(ws.drop_last()[i].fetched is Err);
        }
    }
}

/// Works through every due interval: evaluates the fetched
/// subscriptions of each against the current and historical
/// snapshots, isolating failures — one interval's failed lookup is
/// recorded and the rest still run — and aggregates all recorded
/// failures into at most one escalation report.
pub fn execute_demands(work: &Vec<IntervalWork>, tokens_now: &TokenMap) -> (r: (
    Vec<Notification>,
    Option<String>,
))
    requires
        tokens_now.wf(),
        forall|i: int|
            0 <= i < work@.len() ==> ((#[trigger] work@[i]).history matches Some(m) ==> m.wf()),
    ensures
        r.0@.map_values(|n: Notification| n.view_triple()) == spec_batch_notes(
            work@,
            *tokens_now,
        ),
        match r.1 {
            Some(msg) => spec_batch_has_error(work@) && msg@ == spec_demand_err_header()
                + spec_batch_errors(work@),
            None => !spec_batch_has_error(work@),
        },
{
    let mut notes: Vec<Notification> = Vec::new();
    let mut err_stack = String::new();
    let mut i: usize = 0;
    proof {
        assert(notes@.map_values(|n: Notification| n.view_triple()) =~= spec_batch_notes(
            work@.take(0),
            *tokens_now,
        ));
        assert(err_stack@ =~= spec_batch_errors(work@.take(0)));
    }
    while i < work.len()
        invariant
            i <= work@.len(),
            tokens_now.wf(),
            forall|k: int|
                0 <= k < work@.len() ==> ((#[trigger] work@[k]).history matches Some(m)
                    ==> m.wf()),
            notes@.map_values(|n: Notification| n.view_triple()) == spec_batch_notes(
                work@.take(i as int),
                *tokens_now,
            ),
            err_stack@ == spec_batch_errors(work@.take(i as int)),
        decreases work@.len() - i,
    {
        proof {
            assert(work@.take(i + 1 as int).drop_last() =~= work@.take(i as int));
            assert(work@.take(i + 1 as int).last() == work@[i as int]);
        }
        let item = &work[i];
        match &item.fetched {
            Ok(demands) => {
                match &item.history {
                    Some(tokens_then) => {
                        let mut batch = satisfy_regular_demands_at(
                            demands,
                            tokens_now,
                            tokens_then,
                        );
                        let ghost old_notes = notes@;
                        let ghost batch_view = batch@;
                        notes.append(&mut batch);
                        proof {
                            assert(notes@.map_values(|n: Notification| n.view_triple())
                                =~= old_notes.map_values(|n: Notification| n.view_triple())
                                + batch_view.map_values(|n: Notification| n.view_triple()));
                        }
                    },
                    None => {
                        proof {
                            assert(notes@.map_values(|n: Notification| n.view_triple())
                                =~= spec_batch_notes(work@.take(i + 1 as int), *tokens_now));
                        }
                    },
                }
                proof {
                    assert(err_stack@ =~= spec_batch_errors(work@.take(i + 1 as int)));
                }
            },
            Err(e) => {
                err_stack.append(item.interval.as_str());
                err_stack.append(": ");
                err_stack.append(e.as_str());
                err_stack.append("\n");
                proof {
                    assert(err_stack@ =~= spec_batch_errors(work@.take(i + 1 as int)));
                    assert(notes@.map_values(|n: Notification| n.view_triple())
                        =~= spec_batch_notes(work@.take(i + 1 as int), *tokens_now));
                }
            },
        }
        i = i + 1;
    }
    proof {
        assert(work@.take(work@.len() as int) =~= work@);
        lemma_batch_errors_empty(work@);
    }
    if err_stack.unicode_len() == 0 {
        proof {
            assert(err_stack@ =~= Seq::<char>::empty());
        }
        (notes, None)
    } else {
        let mut msg = demand_err_header().to_owned();
        msg.append(err_stack.as_str());
        (notes, Some(msg))
    }
}

} // verus!
