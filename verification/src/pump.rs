//! The pump detector: scans the whole current snapshot for tokens
//! whose 24-hour change and market cap cross the fixed thresholds,
//! suppresses repeats within a cool-down window unless a second,
//! larger move re-arms the alert, and builds one combined broadcast
//! message.

use vstd::prelude::*;
use vstd::string::StringExecFns;
use crate::decimal::nat_to_dec;
use crate::decimal::u64_to_string;
use crate::evaluate::percent_text;
use crate::evaluate::price_text;
use crate::evaluate::referral_link;
use crate::evaluate::spec_percent_text;
use crate::evaluate::spec_price_text;
use crate::evaluate::spec_referral_link;
use crate::market::TokenInfo;
use crate::market::TokenMap;

verus! {

/// Smallest 24-hour change that counts as a pump, in hundredths of a
/// percent (inclusive).
pub const SPECIAL_PERCENTAGE: i64 = 1000;

/// Smallest market cap that counts, in whole units (inclusive).
pub const MIN_MARKET_CAP: u64 = 1_000_000;

/// Move past the remembered detection price, in hundredths of a
/// percent, that re-arms a suppressed alert (strict).
pub const OVER_SPECIAL_PERCENTAGE: i64 = 500;

/// How long a detection suppresses repeats, in seconds.
pub const PUMP_MEMORY_SECONDS: i64 = 60 * 60 * 24;

/// Percent change from `previous` to `now`, in hundredths of a
/// percent, truncated toward zero. A previous price of zero yields
/// zero rather than a division error.
pub open spec fn spec_diff_in_percent(now: u64, previous: u64) -> int {
    if previous == 0 {
        0
    } else if now >= previous {
        ((now - previous) * 10000) / (previous as int)
    } else {
        -(((previous - now) * 10000) / (previous as int))
    }
}

pub fn diff_in_percent(now: u64, previous: u64) -> (r: i128)
    ensures
        r == spec_diff_in_percent(now, previous),
{
    if previous == 0 {
        0
    } else if now >= previous {
        ((((now - previous) as u128) * 10000) / (previous as u128)) as i128
    } else {
        -(((((previous - now) as u128) * 10000) / (previous as u128)) as i128)
    }
}

/// The pump-eligible change: the raw 24-hour change where it reaches
/// `SPECIAL_PERCENTAGE` and the market cap reaches `MIN_MARKET_CAP`,
/// both inclusive; otherwise zero.
pub open spec fn spec_check_pump(t: TokenInfo) -> int {
    let raw = spec_diff_in_percent(t.price, t.price_prev_24h);
    if raw >= SPECIAL_PERCENTAGE && t.market_cap >= MIN_MARKET_CAP {
        raw
    } else {
        0
    }
}

pub fn check_pump(t: &TokenInfo) -> (r: i128)
    ensures
        r == spec_check_pump(*t),
{
    let ret = diff_in_percent(t.price, t.price_prev_24h);
    if ret < SPECIAL_PERCENTAGE as i128 || t.market_cap < MIN_MARKET_CAP {
        0
    } else {
        ret
    }
}

/// Whether the price has moved strictly past the re-arm threshold
/// since the remembered detection price.
pub open spec fn spec_check_over_pump(now: u64, then: u64) -> bool {
    (now - then) * 10000 > OVER_SPECIAL_PERCENTAGE * then
}

pub fn check_over_pump(now: u64, then: u64) -> (r: bool)
    ensures
        r == spec_check_over_pump(now, then),
{
    proof {
        assert((OVER_SPECIAL_PERCENTAGE as int) * (then as int) <= 500 * (u64::MAX as int))
            by (nonlinear_arith)
            requires
                0 <= then <= u64::MAX,
        ;
    }
    ((now as i128) - (then as i128)) * 10000 > (OVER_SPECIAL_PERCENTAGE as i128) * (then as i128)
}

/// One remembered detection: when, and at what price.
#[derive(Debug, Clone, Copy, PartialEq, Eq, Structural)]
pub struct PumpRecord {
    pub when: i64,
    pub price: u64,
}

/// Which symbols pumped recently, to suppress repeats. Entries expire
/// a fixed window after their detection.
pub struct PumpMemory {
    entries: Vec<(String, PumpRecord)>,
}

/// Whether `a` holds the same entry for `key` as `b`.
pub open spec fn mem_entry_eq(a: PumpMemory, b: PumpMemory, key: Seq<char>) -> bool {
    a.contains_token(key) == b.contains_token(key) && (b.contains_token(key) ==> a.record_of(key)
        == b.record_of(key))
}

impl PumpMemory {
    pub closed spec fn wf(self) -> bool {
        forall|i: int, j: int|
            0 <= i < j < self.entries@.len() ==> (#[trigger] self.entries@[i]).0@ != (
            #[trigger] self.entries@[j]).0@
    }

    pub closed spec fn contains_token(self, key: Seq<char>) -> bool {
        exists|i: int| 0 <= i < self.entries@.len() && (#[trigger] self.entries@[i]).0@ == key
    }

    pub closed spec fn record_of(self, key: Seq<char>) -> PumpRecord {
        let i = choose|i: int|
            0 <= i < self.entries@.len() && (#[trigger] self.entries@[i]).0@ == key;
        self.entries@[i].1
    }

    proof fn lemma_record_at(self, i: int)
        requires
            self.wf(),
            0 <= i < self.entries@.len(),
        ensures
            self.contains_token(self.entries@[i].0@),
            self.record_of(self.entries@[i].0@) == self.entries@[i].1,
    {
        let key = self.entries@[i].0@;
        assert(self.contains_token(key));
        let j = choose|j: int|
            0 <= j < self.entries@.len() && (#[trigger] self.entries@[j]).0@ == key;
        if i != j {
            if i < j {
                assert(self.entries@[i].0@ != self.entries@[j].0@);
            } else {
                assert(self.entries@[j].0@ != self.entries@[i].0@);
            }
        }
    }

    /// An empty memory: nothing is suppressed.
    pub fn new() -> (r: Self)
        ensures
            r.wf(),
            forall|key: Seq<char>| !r.contains_token(key),
    {
        PumpMemory { entries: Vec::new() }
    }

    fn find_index(&self, key: &str) -> (r: Option<usize>)
        ensures
            match r {
                Some(i) => i < self.entries@.len() && self.entries@[i as int].0@ == key@,
                None => !self.contains_token(key@),
            },
    {
        let mut idx: usize = 0;
        while idx < self.entries.len()
            invariant
                idx <= self.entries@.len(),
                forall|k: int| 0 <= k < idx ==> (#[trigger] self.entries@[k]).0@ != key@,
            decreases self.entries@.len() - idx,
        {
            if crate::text::str_eq(self.entries[idx].0.as_str(), key) {
                return Some(idx);
            }
            idx = idx + 1;
        }
        None
    }

    /// The remembered record, if any.
    pub fn get_token_that_pumped(&self, key: &str) -> (r: Option<PumpRecord>)
        requires
            self.wf(),
        ensures
            match r {
                Some(rec) => self.contains_token(key@) && rec == self.record_of(key@),
                None => !self.contains_token(key@),
            },
    {
        match self.find_index(key) {
            Some(i) => {
                proof {
                    self.lemma_record_at(i as int);
                }
                Some(self.entries[i].1)
            },
            None => None,
        }
    }

    /// The remembered record if it is still inside the suppression
    /// window; an entry older than the window is dropped and nothing
    /// is returned.
    pub fn check_token_that_pumped(&mut self, key: &str, now: i64) -> (r: Option<PumpRecord>)
        requires
            old(self).wf(),
        ensures
            final(self).wf(),
            match r {
                Some(rec) => old(self).contains_token(key@) && rec == old(self).record_of(key@)
                    && (now - rec.when) < PUMP_MEMORY_SECONDS && *final(self) == *old(self),
                None => {
                    &&& (old(self).contains_token(key@) ==> (now - old(self).record_of(
                        key@,
                    ).when) >= PUMP_MEMORY_SECONDS)
                    &&& !final(self).contains_token(key@)
                    &&& forall|other: Seq<char>|
                        other != key@ ==> mem_entry_eq(*final(self), *old(self), other)
                },
            },
    {
        let ghost prev = *self;
        match self.find_index(key) {
            Some(i) => {
                proof {
                    self.lemma_record_at(i as int);
                }
                let rec = self.entries[i].1;
                if (now as i128) - (rec.when as i128) >= PUMP_MEMORY_SECONDS as i128 {
                    self.entries.remove(i);
                    proof {
                        self.lemma_removed(prev, i as int, key@);
                    }
                    None
                } else {
                    Some(rec)
                }
            },
            None => {
                proof {
                    assert forall|other: Seq<char>| other != key@ implies mem_entry_eq(
                        *self,
                        prev,
                        other,
                    ) by {}
                }
                None
            },
        }
    }

    proof fn lemma_removed(self, prev: Self, i: int, key: Seq<char>)
        requires
            prev.wf(),
            0 <= i < prev.entries@.len(),
            prev.entries@[i].0@ == key,
            self.entries@ == prev.entries@.remove(i),
        ensures
            self.wf(),
            !self.contains_token(key),
            forall|other: Seq<char>| other != key ==> mem_entry_eq(self, prev, other),
    {
        assert forall|p: int, q: int| 0 <= p < q < self.entries@.len() implies (
        #[trigger] self.entries@[p]).0@ != (#[trigger] self.entries@[q]).0@ by {
            let p0 = if p < i {
                p
            } else {
                p + 1
            };
            let q0 = if q < i {
                q
            } else {
                q + 1
            };
            assert(prev.entries@[p0].0@ != prev.entries@[q0].0@);
        }
        assert forall|j: int| 0 <= j < self.entries@.len() implies (#[trigger] self.entries@[j]).0@
            != key by {
            let j0 = if j < i {
                j
            } else {
                j + 1
            };
            if j0 < i {
                assert(prev.entries@[j0].0@ != prev.entries@[i].0@);
            } else if j0 > i {
                assert(prev.entries@[i].0@ != prev.entries@[j0].0@);
            }
        }
        assert forall|other: Seq<char>| other != key implies mem_entry_eq(self, prev, other) by {
            if prev.contains_token(other) {
                let j = choose|j: int|
                    0 <= j < prev.entries@.len() && (#[trigger] prev.entries@[j]).0@ == other;
                let j1 = if j < i {
                    j
                } else {
                    j - 1
                };
                assert(self.entries@[j1].0@ == other);
                self.lemma_record_at(j1);
                prev.lemma_record_at(j);
            } else if self.contains_token(other) {
                let j = choose|j: int|
                    0 <= j < self.entries@.len() && (#[trigger] self.entries@[j]).0@ == other;
                let j0 = if j < i {
                    j
                } else {
                    j + 1
                };
                assert(prev.entries@[j0].0@ == other);
            }
        }
    }

    /// Remembers a detection, replacing any previous entry for the
    /// symbol.
    pub fn insert(&mut self, key: String, rec: PumpRecord)
        requires
            old(self).wf(),
        ensures
            final(self).wf(),
            final(self).contains_token(key@),
            final(self).record_of(key@) == rec,
            forall|other: Seq<char>|
                other != key@ ==> mem_entry_eq(*final(self), *old(self), other),
    {
        let ghost prev = *self;
        match self.find_index(key.as_str()) {
            Some(i) => {
                self.entries[i] = (key, rec);
                proof {
                    let kv = self.entries@[i as int].0@;
                    assert forall|p: int, q: int|
                        0 <= p < q < self.entries@.len() implies (#[trigger] self.entries@[p]).0@
                        != (#[trigger] self.entries@[q]).0@ by {
                        assert(prev.entries@[p].0@ == self.entries@[p].0@);
                        assert(prev.entries@[q].0@ == self.entries@[q].0@);
                    }
                    self.lemma_record_at(i as int);
                    assert forall|other: Seq<char>| other != kv implies mem_entry_eq(
                        *self,
                        prev,
                        other,
                    ) by {
                        if prev.contains_token(other) {
                            let j = choose|j: int|
                                0 <= j < prev.entries@.len() && (#[trigger] prev.entries@[j]).0@
                                    == other;
                            assert(self.entries@[j].0@ == other);
                            self.lemma_record_at(j);
                            prev.lemma_record_at(j);
                        } else if self.contains_token(other) {
                            let j = choose|j: int|
                                0 <= j < self.entries@.len() && (#[trigger] self.entries@[j]).0@
                                    == other;
                            assert(prev.entries@[j].0@ == other);
                        }
                    }
                }
            },
            None => {
                self.entries.push((key, rec));
                proof {
                    let n = prev.entries@.len() as int;
                    let kv = self.entries@[n].0@;
                    assert forall|p: int, q: int|
                        0 <= p < q < self.entries@.len() implies (#[trigger] self.entries@[p]).0@
                        != (#[trigger] self.entries@[q]).0@ by {
                        if q < n {
                            assert(prev.entries@[p].0@ != prev.entries@[q].0@);
                        } else {
                            assert(prev.entries@[p].0@ == self.entries@[p].0@);
                            assert(!prev.contains_token(kv));
                        }
                    }
                    self.lemma_record_at(n);
                    assert forall|other: Seq<char>| other != kv implies mem_entry_eq(
                        *self,
                        prev,
                        other,
                    ) by {
                        if prev.contains_token(other) {
                            let j = choose|j: int|
                                0 <= j < prev.entries@.len() && (#[trigger] prev.entries@[j]).0@
                                    == other;
                            assert(self.entries@[j].0@ == other);
                            self.lemma_record_at(j);
                            prev.lemma_record_at(j);
                        } else if self.contains_token(other) {
                            let j = choose|j: int|
                                0 <= j < self.entries@.len() && (#[trigger] self.entries@[j]).0@
                                    == other;
                            if j < n {
                                assert(prev.entries@[j].0@ == other);
                            }
                        }
                    }
                }
            },
        }
    }
}

/// The heading of every combined pump broadcast.
pub open spec fn spec_pump_header() -> Seq<char> {
    "__*\u{1F4C8} WAGMI Pump Alert:*__\n\n"@
}

pub fn pump_header() -> (r: &'static str)
    ensures
        r@ == spec_pump_header(),
{
    "__*\u{1F4C8} WAGMI Pump Alert:*__\n\n"
}

/// Whether the snapshot holds the key.
pub open spec fn spec_snapshot_has_key(tokens: TokenMap, key: Seq<char>) -> bool {
    exists|i: int| 0 <= i < tokens.entry_count() && #[trigger] tokens.key_at(i) == key
}

/// What a scan leaves of a remembered detection it did not renew:
/// kept exactly as it was while it is still inside the suppression
/// window, and dropped once the window has passed (or when there was
/// no entry to keep).
pub open spec fn mem_kept_or_expired(
    post: PumpMemory,
    pre: PumpMemory,
    key: Seq<char>,
    now: i64,
) -> bool {
    if pre.contains_token(key) && (now - pre.record_of(key).when) < PUMP_MEMORY_SECONDS {
        mem_entry_eq(post, pre, key)
    } else {
        !post.contains_token(key)
    }
}

/// Whether the snapshot's `i`-th symbol produces a line, judged
/// against the memory as it stood before the scan: the change and
/// market cap qualify, and no fresh remembered detection suppresses it
/// — unless the over-pump re-arm clears the suppression.
pub open spec fn spec_symbol_pumps(tokens: TokenMap, mem: PumpMemory, now: i64, i: int) -> bool {
    let key = tokens.key_at(i);
    let info = tokens.info_at(i);
    let raw = spec_check_pump(info);
    &&& raw != 0
    &&& (mem.contains_token(key) && (now - mem.record_of(key).when) < PUMP_MEMORY_SECONDS
        ==> spec_check_over_pump(info.price, mem.record_of(key).price))
}

/// The line one pumped symbol contributes.
pub open spec fn spec_pump_line(key: Seq<char>, info: TokenInfo) -> Seq<char> {
    "__["@ + key + "]("@ + spec_referral_link() + nat_to_dec(
        (match info.pair_number {
            Some(n) => n,
            None => 0u16,
        }) as nat,
    ) + ")__: Price has risen by "@ + spec_percent_text(spec_check_pump(info) as nat)
        + "% in the last 24h: "@ + spec_price_text(info.price) + "$\n------------------------\n"@
}

/// The combined message body for the first `i` symbols.
pub open spec fn spec_pump_body(tokens: TokenMap, mem: PumpMemory, now: i64, i: int) -> Seq<char>
    decreases i,
{
    if i <= 0 {
        Seq::empty()
    } else {
        spec_pump_body(tokens, mem, now, i - 1) + (if spec_symbol_pumps(tokens, mem, now, i - 1) {
            spec_pump_line(tokens.key_at(i - 1), tokens.info_at(i - 1))
        } else {
            Seq::empty()
        })
    }
}

/// Scans the whole snapshot: every qualifying, unsuppressed symbol
/// contributes one line and its detection is remembered at the current
/// price; when nothing qualifies there is no message at all, as
/// opposed to an empty one.
pub fn generate_pump_alert(tokens: &TokenMap, memory: &mut PumpMemory, now: i64) -> (r: Option<
    String,
>)
    requires
        tokens.wf(),
        old(memory).wf(),
    ensures
        final(memory).wf(),
        ({
            let body = spec_pump_body(*tokens, *old(memory), now, tokens.entry_count() as int);
            match r {
                Some(msg) => body.len() > 0 && msg@ == spec_pump_header() + body,
                None => body.len() == 0,
            }
        }),
        forall|i: int|
            0 <= i < tokens.entry_count() && spec_symbol_pumps(*tokens, *old(memory), now, i)
                ==> final(memory).contains_token(#[trigger] tokens.key_at(i))
                    && final(memory).record_of(tokens.key_at(i))
                    == (PumpRecord { when: now, price: tokens.info_at(i).price }),
        forall|i: int|
            0 <= i < tokens.entry_count() && !spec_symbol_pumps(*tokens, *old(memory), now, i)
                ==> mem_kept_or_expired(
                    *final(memory),
                    *old(memory),
                    #[trigger] tokens.key_at(i),
                    now,
                ),
        forall|key: Seq<char>|
            !spec_snapshot_has_key(*tokens, key) ==> mem_entry_eq(
                *final(memory),
                *old(memory),
                key,
            ),
{
    let n = tokens.len();
    let mut body = String::new();
    let mut i: usize = 0;
    while i < n
        invariant
            i <= n,
            n == tokens.entry_count(),
            tokens.wf(),
            memory.wf(),
            body@ == spec_pump_body(*tokens, *old(memory), now, i as int),
            forall|k: int|
                i <= k < n ==> mem_entry_eq(*memory, *old(memory), #[trigger] tokens.key_at(k)),
            forall|k: int|
                0 <= k < i && spec_symbol_pumps(*tokens, *old(memory), now, k) ==> memory
                    .contains_token(#[trigger] tokens.key_at(k)) && memory.record_of(
                    tokens.key_at(k),
                ) == (PumpRecord { when: now, price: tokens.info_at(k).price }),
            forall|k: int|
                0 <= k < i && !spec_symbol_pumps(*tokens, *old(memory), now, k)
                    ==> mem_kept_or_expired(*memory, *old(memory), #[trigger] tokens.key_at(k), now),
            forall|key: Seq<char>|
                !spec_snapshot_has_key(*tokens, key) ==> mem_entry_eq(
                    *memory,
                    *old(memory),
                    key,
                ),
        decreases n - i,
    {
        proof {
            tokens.lemma_entry_lookup(i as int);
        }
        let key = tokens.symbol_at(i);
        let value = tokens.info_at_idx(i);
        let mut pump = check_pump(value);
        let ghost mem_before = *memory;
        let suppressed = match memory.check_token_that_pumped(key.as_str(), now) {
            Some(rec) => !check_over_pump(value.price, rec.price),
            None => false,
        };
        let ghost mem_mid = *memory;
        if suppressed {
            pump = 0;
        }
        proof {
            assert(mem_entry_eq(mem_before, *old(memory), tokens.key_at(i as int)));
            assert((pump != 0) == spec_symbol_pumps(*tokens, *old(memory), now, i as int));
        }
        if pump != 0 {
            let mut line = String::new();
            line.append("__[");
            line.append(key.as_str());
            line.append("](");
            line.append(referral_link());
            let pair_no = match value.pair_number {
                Some(p) => p,
                None => 0,
            };
            let pair_text = u64_to_string(pair_no as u64);
            line.append(pair_text.as_str());
            line.append(")__: Price has risen by ");
            let pct = percent_text(pump as u128);
            line.append(pct.as_str());
            line.append("% in the last 24h: ");
            let pr = price_text(value.price);
            line.append(pr.as_str());
            line.append("$\n------------------------\n");
            proof {
                assert(line@ =~= spec_pump_line(tokens.key_at(i as int), tokens.info_at(i as int)));
            }
            let key_owned = key.clone();
            memory.insert(key_owned, PumpRecord { when: now, price: value.price });
            body.append(line.as_str());
        }
        proof {
            assert(body@ =~= spec_pump_body(*tokens, *old(memory), now, i + 1 as int));
            tokens.lemma_keys_distinct();
            assert forall|k: int|
                0 <= k < n && tokens.key_at(k) != tokens.key_at(i as int) implies mem_entry_eq(
                *memory,
                mem_before,
                #[trigger] tokens.key_at(k),
            ) by {
                assert(mem_entry_eq(mem_mid, mem_before, tokens.key_at(k)));
                assert(mem_entry_eq(*memory, mem_mid, tokens.key_at(k)));
            }
            assert forall|k: int|
                i + 1 <= k < n implies mem_entry_eq(
                *memory,
                *old(memory),
                #[trigger] tokens.key_at(k),
            ) by {
                assert(tokens.key_at(i as int) != tokens.key_at(k));
                assert(mem_entry_eq(*memory, mem_before, tokens.key_at(k)));
                assert(mem_entry_eq(mem_before, *old(memory), tokens.key_at(k)));
            }
            assert forall|k: int|
                0 <= k < i + 1 && spec_symbol_pumps(*tokens, *old(memory), now, k) implies memory
                    .contains_token(#[trigger] tokens.key_at(k)) && memory.record_of(
                tokens.key_at(k),
            ) == (PumpRecord { when: now, price: tokens.info_at(k).price }) by {
                if k < i as int {
                    assert(tokens.key_at(k) != tokens.key_at(i as int));
                    assert(mem_entry_eq(*memory, mem_before, tokens.key_at(k)));
                }
            }
            assert forall|k: int|
                0 <= k < i + 1 && !spec_symbol_pumps(*tokens, *old(memory), now, k)
                    implies mem_kept_or_expired(
                *memory,
                *old(memory),
                #[trigger] tokens.key_at(k),
                now,
            ) by {
                if k < i as int {
                    assert(tokens.key_at(k) != tokens.key_at(i as int));
                    assert(mem_entry_eq(*memory, mem_before, tokens.key_at(k)));
                } else {
                    let key_i = tokens.key_at(i as int);
                    assert(*memory == mem_mid);
                    assert(mem_entry_eq(mem_before, *old(memory), key_i));
                    if old(memory).contains_token(key_i) && (now - old(memory).record_of(
                        key_i,
                    ).when) < PUMP_MEMORY_SECONDS {
                        assert(mem_entry_eq(mem_mid, mem_before, key_i));
                        assert(mem_entry_eq(*memory, *old(memory), key_i));
                    } else {
                        assert(!memory.contains_token(key_i));
                    }
                }
            }
            assert forall|key: Seq<char>|
                !spec_snapshot_has_key(*tokens, key) implies mem_entry_eq(
                *memory,
                *old(memory),
                key,
            ) by {
                assert(tokens.key_at(i as int) != key);
                assert(mem_entry_eq(mem_mid, mem_before, key));
                assert(mem_entry_eq(*memory, mem_mid, key));
                assert(mem_entry_eq(mem_before, *old(memory), key));
            }
        }
        i = i + 1;
    }
    if body.unicode_len() == 0 {
        proof {
            assert(body@ =~= Seq::<char>::empty());
        }
        None
    } else {
        let mut msg = pump_header().to_owned();
        msg.append(body.as_str());
        Some(msg)
    }
}

} // verus!
