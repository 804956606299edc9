//! User-command policy: the command set, validation of alert syntax,
//! the quota gate, and the pure planning of what a command changes.
//!
//! Handlers outside the library read messages and send replies; the
//! decisions — is the syntax valid, is the token known, is the quota
//! respected, which subscription is created or deleted — are made here
//! on plain values.

use vstd::prelude::*;
use crate::counts::ChatDemandCounts;
use crate::decimal::int_to_dec;
use crate::decimal::parse_i64_str;
use crate::decimal::push_i64_dec;
use crate::decimal::spec_parse_i16;
use crate::decimal::spec_parse_i64;
use crate::demand::Demand;
use crate::demand::alert_kind;
use crate::demand::spec_alert_kind;
use crate::demand::spec_special_kind;
use crate::demand::special_kind;
use crate::interval::spec_parse_interval;
use crate::interval::parse_interval;
use crate::text::lower_chars;
use crate::text::lower_str;
use crate::text::split_chars;
use crate::text::split_on_char;
use crate::text::split_words;
use crate::text::spec_words;
use crate::text::str_eq;
use crate::text::upper_chars;
use crate::text::upper_str;
use vstd::string::StringExecFns;

verus! {

/// The chat commands the bot answers.
#[derive(Debug, Clone)]
pub enum Command {
    /// Delete all of the chat's alerts.
    Free,
    /// List the chat's alerts.
    Demands,
    /// Set an alert: token, interval, optional percentage.
    SetAlert { alert: String },
    /// Switch the pump broadcast on or off.
    Special { switch: String },
    /// Show the help text.
    Help,
}

/// Why a user request was refused; surfaced to the requesting chat,
/// never escalated.
#[derive(Debug, Clone, Copy, PartialEq, Eq, Structural)]
pub enum ValidationError {
    /// The switch word was neither on/start nor off/stop.
    BadSwitch,
    /// The alert command did not have one to three words.
    BadAlertSyntax,
    /// The percentage word was not a small integer.
    BadPercentage,
    /// The token is not in the current symbol list.
    UnknownToken,
    /// The interval word is none of the documented synonyms.
    UnknownInterval,
    /// The chat already holds the maximum number of subscriptions.
    QuotaExceeded,
}

impl ValidationError {
    /// The user-facing reply for this refusal.
    pub fn message(&self) -> (r: String)
        ensures
            r@ == self.spec_message(),
    {
        match self {
            ValidationError::BadSwitch => "/special on or off".to_owned(),
            ValidationError::BadAlertSyntax => "/setalert [TOKEN] [INTERVAL] Optional<PERCENTAGE> - /help for interval list".to_owned(),
            ValidationError::BadPercentage => "Percentage must be an int".to_owned(),
            ValidationError::UnknownToken => "Token doesn't exist".to_owned(),
            ValidationError::UnknownInterval => "Invalid interval".to_owned(),
            ValidationError::QuotaExceeded => "Max demand reached. Free the demands or erase one".to_owned(),
        }
    }

    pub open spec fn spec_message(self) -> Seq<char> {
        match self {
            ValidationError::BadSwitch => "/special on or off"@,
            ValidationError::BadAlertSyntax => "/setalert [TOKEN] [INTERVAL] Optional<PERCENTAGE> - /help for interval list"@,
            ValidationError::BadPercentage => "Percentage must be an int"@,
            ValidationError::UnknownToken => "Token doesn't exist"@,
            ValidationError::UnknownInterval => "Invalid interval"@,
            ValidationError::QuotaExceeded => "Max demand reached. Free the demands or erase one"@,
        }
    }
}

/// Highest number of subscriptions a non-privileged chat may hold.
pub const MAX_DEMANDS_PER_CHAT: u8 = 3;

/// The one administrative chat exempt from the quota.
pub const ADMIN_CHAT_ID: i64 = 2171722969;

/// Whether the quota lets this chat add one more subscription, judged
/// from the cached counts alone.
pub open spec fn spec_quota_allows(counts: ChatDemandCounts, chat_id: i64) -> bool {
    chat_id == ADMIN_CHAT_ID || counts.count_of(chat_id) < MAX_DEMANDS_PER_CHAT
}

/// The quota in general: the privileged chat passes whatever its
/// count, and any other chat holding the maximum (or, after a missed
/// decrement, more) is refused — so after three counted inserts a
/// fourth is rejected.
pub proof fn lemma_quota_gate(counts: ChatDemandCounts, chat_id: i64)
    ensures
        chat_id == ADMIN_CHAT_ID ==> spec_quota_allows(counts, chat_id),
        chat_id != ADMIN_CHAT_ID && counts.count_of(chat_id) >= MAX_DEMANDS_PER_CHAT
            ==> !spec_quota_allows(counts, chat_id),
{
}

/// The quota gate before an insert: an advisory check against the
/// cached count, never a re-query of the store.
pub fn check_demand(counts: &ChatDemandCounts, chat_id: i64) -> (r: Result<(), ValidationError>)
    requires
        counts.wf(),
    ensures
        match r {
            Ok(u) => spec_quota_allows(*counts, chat_id),
            Err(e) => !spec_quota_allows(*counts, chat_id) && e == ValidationError::QuotaExceeded,
        },
{
    let current_count = counts.count_for_chat(chat_id);
    if chat_id != ADMIN_CHAT_ID && current_count >= MAX_DEMANDS_PER_CHAT {
        Err(ValidationError::QuotaExceeded)
    } else {
        Ok(())
    }
}

/// The meaning of a switch word: on/start or off/stop, in any case.
pub open spec fn spec_switch_type(s: Seq<char>) -> Option<bool> {
    let t = lower_chars(s);
    if t == "off"@ || t == "stop"@ {
        Some(false)
    } else if t == "on"@ || t == "start"@ {
        Some(true)
    } else {
        None
    }
}

pub fn switch_type(switch: String) -> (r: Result<bool, ValidationError>)
    ensures
        match r {
            Ok(b) => spec_switch_type(switch@) == Some(b),
            Err(e) => spec_switch_type(switch@) is None && e == ValidationError::BadSwitch,
        },
{
    let lowered = lower_str(switch.as_str());
    let t = lowered.as_str();
    if str_eq(t, "off") || str_eq(t, "stop") {
        Ok(false)
    } else if str_eq(t, "on") || str_eq(t, "start") {
        Ok(true)
    } else {
        Err(ValidationError::BadSwitch)
    }
}

/// The meaning of the alert words: token, interval, and an optional
/// percentage that defaults to zero.
pub open spec fn spec_parse_alert(input: Seq<char>) -> Result<
    (Seq<char>, Seq<char>, i16),
    ValidationError,
> {
    let opts = spec_words(input);
    if opts.len() < 2 || opts.len() > 3 {
        Err(ValidationError::BadAlertSyntax)
    } else if opts.len() == 2 {
        Ok((opts[0], opts[1], 0i16))
    } else {
        match spec_parse_i16(opts[2]) {
            Some(p) => Ok((opts[0], opts[1], p)),
            None => Err(ValidationError::BadPercentage),
        }
    }
}

pub fn parse_alert(input: String) -> (r: Result<(String, String, i16), ValidationError>)
    ensures
        match r {
            Ok(t) => spec_parse_alert(input@) == Ok::<_, ValidationError>((t.0@, t.1@, t.2)),
            Err(e) => spec_parse_alert(input@) == Err::<(Seq<char>, Seq<char>, i16),
                ValidationError,
            >(e),
        },
{
    let opts = split_words(input.as_str());
    if opts.len() < 2 || opts.len() > 3 {
        return Err(ValidationError::BadAlertSyntax);
    }
    let token = opts[0].clone();
    let interval = opts[1].clone();
    if opts.len() == 2 {
        Ok((token, interval, 0))
    } else {
        match crate::decimal::parse_i16_str(opts[2].as_str()) {
            Some(p) => Ok((token, interval, p)),
            None => Err(ValidationError::BadPercentage),
        }
    }
}

/// Whether the symbol list holds this exact token.
pub fn token_known(tokens: &Vec<String>, token: &str) -> (r: bool)
    ensures
        r == tokens@.map_values(|t: String| t@).contains(token@),
{
    let mut i: usize = 0;
    while i < tokens.len()
        invariant
            i <= tokens@.len(),
            forall|k: int| 0 <= k < i ==> (#[trigger] tokens@[k])@ != token@,
        decreases tokens@.len() - i,
    {
        if str_eq(tokens[i].as_str(), token) {
            proof {
                assert(tokens@.map_values(|t: String| t@)[i as int] == token@);
            }
            return true;
        }
        i = i + 1;
    }
    proof {
        let m = tokens@.map_values(|t: String| t@);
        if m.contains(token@) {
            let k = choose|k: int| 0 <= k < m.len() && m[k] == token@;
            assert(tokens@[k]@ == token@);
        }
    }
    false
}

/// What setting an alert comes to, judged on plain values: the quota,
/// the syntax, the token list, and the interval synonyms, in that
/// order; or the first refusal.
pub open spec fn spec_plan_set_alert(
    counts: ChatDemandCounts,
    chat_id: i64,
    alert: Seq<char>,
    tokens: Seq<Seq<char>>,
) -> Result<(Seq<char>, Seq<char>, i16), ValidationError> {
    if !spec_quota_allows(counts, chat_id) {
        Err(ValidationError::QuotaExceeded)
    } else {
        match spec_parse_alert(alert) {
            Err(e) => Err(e),
            Ok((tok, itv, pct)) => {
                let up = upper_chars(tok);
                if !tokens.contains(up) {
                    Err(ValidationError::UnknownToken)
                } else {
                    match spec_parse_interval(itv) {
                        None => Err(ValidationError::UnknownInterval),
                        Some(canon) => Ok((up, canon, pct)),
                    }
                }
            },
        }
    }
}

/// The confirmation text for a newly set alert.
pub open spec fn spec_set_alert_message(token: Seq<char>, interval: Seq<char>, pct: i16) -> Seq<
    char,
> {
    let base = "Alert set for token "@ + token + " at interval "@ + interval;
    if pct != 0 {
        base + " for percentage "@ + int_to_dec(pct as int)
    } else {
        base
    }
}

/// Decides a set-alert command: either the demand to insert plus the
/// confirmation to send, or the refusal to show. The store insert and
/// the count increment happen outside, against the returned demand.
pub fn plan_set_alert(
    counts: &ChatDemandCounts,
    chat_id: i64,
    thread_id: Option<i32>,
    alert: String,
    tokens: &Vec<String>,
) -> (r: Result<(Demand, String), ValidationError>)
    requires
        counts.wf(),
    ensures
        match r {
            Ok(p) => spec_plan_set_alert(
                *counts,
                chat_id,
                alert@,
                tokens@.map_values(|t: String| t@),
            ) == Ok::<_, ValidationError>((p.0.token@, p.0.interval@, p.0.percentage)) && p.0.chat_id == chat_id
                && p.0.thread_id == thread_id && p.0.type_of@ == spec_alert_kind() && p.1@
                == spec_set_alert_message(p.0.token@, p.0.interval@, p.0.percentage),
            Err(e) => spec_plan_set_alert(
                *counts,
                chat_id,
                alert@,
                tokens@.map_values(|t: String| t@),
            ) == Err::<(Seq<char>, Seq<char>, i16), ValidationError>(e),
        },
{
    if let Err(e) = check_demand(counts, chat_id) {
        return Err(e);
    }
    let (token, interval, percentage) = match parse_alert(alert) {
        Ok(t) => t,
        Err(e) => {
            return Err(e);
        },
    };
    let token = upper_str(token.as_str());
    if !token_known(tokens, token.as_str()) {
        return Err(ValidationError::UnknownToken);
    }
    let standardized_interval = match parse_interval(interval.as_str()) {
        Some(s) => s,
        None => {
            return Err(ValidationError::UnknownInterval);
        },
    };
    let mut message = String::new();
    message.append("Alert set for token ");
    message.append(token.as_str());
    message.append(" at interval ");
    message.append(standardized_interval);
    if percentage != 0 {
        message.append(" for percentage ");
        push_i64_dec(&mut message, percentage as i64);
    }
    proof {
        assert(message@ =~= spec_set_alert_message(
            token@,
            standardized_interval@,
            percentage,
        ));
    }
    let demand = Demand {
        chat_id,
        thread_id,
        type_of: alert_kind().to_owned(),
        token,
        percentage,
        interval: standardized_interval.to_owned(),
    };
    Ok((demand, message))
}

/// What the pump-broadcast switch asks for.
#[derive(Debug, Clone, Copy, PartialEq, Eq, Structural)]
pub enum SpecialAction {
    /// Insert the chat's pump subscription (quota permitting).
    Enable,
    /// Delete the chat's pump subscription.
    Disable,
}

/// Decides a pump-switch command: the subscription it concerns, what
/// to do with it, and the reply; or the refusal. Switching on passes
/// the quota gate; switching off never needs it.
pub fn plan_special(
    counts: &ChatDemandCounts,
    chat_id: i64,
    thread_id: Option<i32>,
    switch: String,
) -> (r: Result<(SpecialAction, Demand, String), ValidationError>)
    requires
        counts.wf(),
    ensures
        match r {
            Ok(p) => (match spec_switch_type(switch@) {
                Some(true) => p.0 == SpecialAction::Enable && spec_quota_allows(*counts, chat_id)
                    && p.2@ == "Pump alert set for this channel"@,
                Some(false) => p.0 == SpecialAction::Disable && p.2@
                    == "Pump alert suppressed for this channel"@,
                None => false,
            }) && p.1.chat_id == chat_id && p.1.thread_id == thread_id && p.1.type_of@
                == spec_special_kind() && p.1.token@ == Seq::<char>::empty() && p.1.percentage == 0
                && p.1.interval@ == Seq::<char>::empty(),
            Err(e) => match spec_switch_type(switch@) {
                Some(true) => !spec_quota_allows(*counts, chat_id) && e
                    == ValidationError::QuotaExceeded,
                Some(false) => false,
                None => e == ValidationError::BadSwitch,
            },
        },
{
    let push = match switch_type(switch) {
        Ok(b) => b,
        Err(e) => {
            return Err(e);
        },
    };
    let demand = Demand::new(chat_id, special_kind().to_owned(), thread_id);
    if push {
        if let Err(e) = check_demand(counts, chat_id) {
            return Err(e);
        }
        Ok((SpecialAction::Enable, demand, "Pump alert set for this channel".to_owned()))
    } else {
        Ok((SpecialAction::Disable, demand, "Pump alert suppressed for this channel".to_owned()))
    }
}

/// The parts of a delete-button callback: the chat the button was made
/// for, and the composite identity token to delete.
pub open spec fn spec_parse_callback(data: Seq<char>) -> Result<(i64, Seq<char>), ValidationError> {
    let parts = split_chars(data, '_');
    if parts.len() < 2 {
        Err(ValidationError::BadAlertSyntax)
    } else {
        match spec_parse_i64(parts[0]) {
            None => Err(ValidationError::BadAlertSyntax),
            Some(chat) => Ok((chat, parts[1])),
        }
    }
}

/// Splits callback data into the chat id and the identity token.
/// The identity token is base64 text, which never holds the
/// underscore separator.
pub fn parse_callback_data(data: &str) -> (r: Result<(i64, String), ValidationError>)
    ensures
        match r {
            Ok(p) => spec_parse_callback(data@) == Ok::<_, ValidationError>((p.0, p.1@)),
            Err(e) => spec_parse_callback(data@) == Err::<(i64, Seq<char>), ValidationError>(e),
        },
{
    let parts = split_on_char(data, '_');
    if parts.len() < 2 {
        return Err(ValidationError::BadAlertSyntax);
    }
    let chat = match parse_i64_str(parts[0].as_str()) {
        Some(v) => v,
        None => {
            return Err(ValidationError::BadAlertSyntax);
        },
    };
    Ok((chat, parts[1].clone()))
}

/// The help text shown for the help command.
pub fn help_message() -> (r: &'static str)
    ensures
        r@ == spec_help_message(),
{
    "__*Wagmi Alert Bot*__\n\n__*Commands:*__\n- `/free` - Delete all alerts\n- `/special` - (on/start)/(off/stop) erase or activate pump alert\n- `/demands` - Show all our alerts/special. Click to erase one\n- `/setalert [TOKEN] [INTERVAL] Optional<PERCENTAGE>` - Set alert for token\n\n__*Intervals:*__\n- 15min/15m - Every 15 minutes\n- 1h/hourly - Every hour\n- 6h - Every 6 hours\n- 24h/daily - Every afternoon (15utc)\n- mon/wed/fri/sat - Respective day at 12:00 UTC\n\n__*Examples:*__\n`/setalert WAGMI 15min 3` - Alert on 3% WAGMI changes\n`/setalert WAGMI 1h` - Track all WAGMI price updates in 1H\n\n__*Note:*__ Only admins can use commands. Set percentage to 0 or omit for all price updates."
}

pub open spec fn spec_help_message() -> Seq<char> {
    "__*Wagmi Alert Bot*__\n\n__*Commands:*__\n- `/free` - Delete all alerts\n- `/special` - (on/start)/(off/stop) erase or activate pump alert\n- `/demands` - Show all our alerts/special. Click to erase one\n- `/setalert [TOKEN] [INTERVAL] Optional<PERCENTAGE>` - Set alert for token\n\n__*Intervals:*__\n- 15min/15m - Every 15 minutes\n- 1h/hourly - Every hour\n- 6h - Every 6 hours\n- 24h/daily - Every afternoon (15utc)\n- mon/wed/fri/sat - Respective day at 12:00 UTC\n\n__*Examples:*__\n`/setalert WAGMI 15min 3` - Alert on 3% WAGMI changes\n`/setalert WAGMI 1h` - Track all WAGMI price updates in 1H\n\n__*Note:*__ Only admins can use commands. Set percentage to 0 or omit for all price updates."@
}

} // verus!
