//! The subscriber demand store: the persisted subscription table as
//! the core sees it, with the per-chat count cache kept in step.
//!
//! Identity is the whole five-field tuple: inserting an identical
//! subscription is refused as a duplicate (which callers present as
//! "already exists"), deletion removes exactly the matching row. The
//! count cache moves with each successful insert and delete and is
//! rebuilt from the table on demand; a bulk delete drops the chat's
//! entry entirely.

use vstd::prelude::*;
use crate::counts::ChatDemandCounts;
use crate::counts::spec_decrease;
use crate::counts::spec_increase;
use crate::demand::Demand;
use crate::demand::spec_special_kind;
use crate::text::str_eq;

verus! {

/// Why the store refused a change.
#[derive(Debug, Clone, Copy, PartialEq, Eq, Structural)]
pub enum StoreRejection {
    /// A subscription with the same identity already exists. Callers
    /// surface this as "already exists", not as a failure.
    Duplicate,
    /// No subscription with the identity exists.
    NotFound,
}

/// How many of the demands belong to the chat.
pub open spec fn chat_count(ds: Seq<Demand>, chat: i64) -> nat
    decreases ds.len(),
{
    if ds.len() == 0 {
        0
    } else {
        chat_count(ds.drop_last(), chat) + (if ds.last().chat_id == chat {
            1nat
        } else {
            0nat
        })
    }
}

/// Lexicographic order on text by scalar value; the store's listing
/// order rests on it.
pub open spec fn lex_le(a: Seq<char>, b: Seq<char>) -> bool
    decreases a.len(),
{
    if a.len() == 0 {
        true
    } else if b.len() == 0 {
        false
    } else if (a[0] as u32) < (b[0] as u32) {
        true
    } else if (a[0] as u32) > (b[0] as u32) {
        false
    } else {
        lex_le(a.drop_first(), b.drop_first())
    }
}

/// Any two texts are ordered one way or the other.
pub proof fn lemma_lex_le_total(a: Seq<char>, b: Seq<char>)
    ensures
        lex_le(a, b) || lex_le(b, a),
    decreases a.len(),
{
    if a.len() > 0 && b.len() > 0 && a[0] as u32 == b[0] as u32 {
        lemma_lex_le_total(a.drop_first(), b.drop_first());
    }
}

/// Listing order for a chat's subscriptions: by kind, then token,
/// then threshold, then interval.
pub open spec fn spec_demand_le(a: Demand, b: Demand) -> bool {
    if a.type_of@ != b.type_of@ {
        lex_le(a.type_of@, b.type_of@)
    } else if a.token@ != b.token@ {
        lex_le(a.token@, b.token@)
    } else if a.percentage != b.percentage {
        a.percentage < b.percentage
    } else {
        lex_le(a.interval@, b.interval@)
    }
}

pub proof fn lemma_demand_le_total(a: Demand, b: Demand)
    ensures
        spec_demand_le(a, b) || spec_demand_le(b, a),
{
    lemma_lex_le_total(a.type_of@, b.type_of@);
    lemma_lex_le_total(a.token@, b.token@);
    lemma_lex_le_total(a.interval@, b.interval@);
}

fn lex_le_str(a: &str, b: &str) -> (r: bool)
    ensures
        r == lex_le(a@, b@),
{
    let an = a.unicode_len();
    let bn = b.unicode_len();
    let mut i: usize = 0;
    proof {
        assert(a@.skip(0) =~= a@);
        assert(b@.skip(0) =~= b@);
    }
    while i < an && i < bn
        invariant
            i <= an,
            i <= bn,
            an == a@.len(),
            bn == b@.len(),
            lex_le(a@, b@) == lex_le(a@.skip(i as int), b@.skip(i as int)),
        decreases an - i,
    {
        let ca = a.get_char(i) as u32;
        let cb = b.get_char(i) as u32;
        proof {
            assert(a@.skip(i as int)[0] == a@[i as int]);
            assert(b@.skip(i as int)[0] == b@[i as int]);
        }
        if ca < cb {
            return true;
        }
        if ca > cb {
            return false;
        }
        proof {
            assert(a@.skip(i as int).drop_first() =~= a@.skip(i + 1 as int));
            assert(b@.skip(i as int).drop_first() =~= b@.skip(i + 1 as int));
        }
        i = i + 1;
    }
    proof {
        if i >= an {
            assert(a@.skip(i as int).len() == 0);
        } else {
            assert(b@.skip(i as int).len() == 0);
            assert(a@.skip(i as int).len() > 0);
        }
    }
    i >= an
}

fn demand_le(a: &Demand, b: &Demand) -> (r: bool)
    ensures
        r == spec_demand_le(*a, *b),
{
    if !str_eq(a.type_of.as_str(), b.type_of.as_str()) {
        lex_le_str(a.type_of.as_str(), b.type_of.as_str())
    } else if !str_eq(a.token.as_str(), b.token.as_str()) {
        lex_le_str(a.token.as_str(), b.token.as_str())
    } else if a.percentage != b.percentage {
        a.percentage < b.percentage
    } else {
        lex_le_str(a.interval.as_str(), b.interval.as_str())
    }
}

/// Whether two demands share all five identity fields.
pub fn same_identity(a: &Demand, b: &Demand) -> (r: bool)
    ensures
        r == (a.identity() == b.identity()),
{
    a.chat_id == b.chat_id && str_eq(a.type_of.as_str(), b.type_of.as_str()) && str_eq(
        a.token.as_str(),
        b.token.as_str(),
    ) && a.percentage == b.percentage && str_eq(a.interval.as_str(), b.interval.as_str())
}

/// The subscription table and the count cache that shadows it.
pub struct DemandStore {
    demands: Vec<Demand>,
    counts: ChatDemandCounts,
}

impl DemandStore {
    /// Identities are pairwise distinct, and the cache is well formed.
    pub closed spec fn wf(self) -> bool {
        &&& self.counts.wf()
        &&& forall|i: int, j: int|
            0 <= i < j < self.demands@.len() ==> (#[trigger] self.demands@[i]).identity() != (
            #[trigger] self.demands@[j]).identity()
    }

    /// The stored subscriptions, in insertion order.
    pub closed spec fn demands_view(self) -> Seq<Demand> {
        self.demands@
    }

    /// The count cache.
    pub closed spec fn counts_view(self) -> ChatDemandCounts {
        self.counts
    }

    /// Whether a subscription with this identity is stored.
    pub open spec fn has_identity(self, d: Demand) -> bool {
        exists|i: int|
            0 <= i < self.demands_view().len() && (#[trigger] self.demands_view()[i]).identity()
                == d.identity()
    }

    /// Counts of every chat but `chat` agree with `other`'s.
    pub open spec fn counts_same_except(self, other: Self, chat: i64) -> bool {
        forall|c: i64|
            c != chat ==> self.counts_view().count_of(c) == other.counts_view().count_of(c)
    }

    /// An empty store.
    pub fn new() -> (r: Self)
        ensures
            r.wf(),
            r.demands_view().len() == 0,
            forall|c: i64| r.counts_view().count_of(c) == 0,
    {
        DemandStore { demands: Vec::new(), counts: ChatDemandCounts::new() }
    }

    /// The cached count; quota decisions read this, never the table.
    pub fn count_for_chat(&self, chat_id: i64) -> (n: u8)
        requires
            self.wf(),
        ensures
            n == self.counts_view().count_of(chat_id),
    {
        self.counts.count_for_chat(chat_id)
    }

    /// The cache itself, for the quota gate.
    pub fn counts(&self) -> (r: &ChatDemandCounts)
        ensures
            *r == self.counts_view(),
    {
        &self.counts
    }

    fn find_identity(&self, d: &Demand) -> (r: Option<usize>)
        ensures
            match r {
                Some(i) => i < self.demands_view().len()
                    && self.demands_view()[i as int].identity() == d.identity(),
                None => !self.has_identity(*d),
            },
    {
        let mut i: usize = 0;
        while i < self.demands.len()
            invariant
                i <= self.demands@.len(),
                forall|k: int|
                    0 <= k < i ==> (#[trigger] self.demands@[k]).identity() != d.identity(),
            decreases self.demands@.len() - i,
        {
            if same_identity(&self.demands[i], d) {
                return Some(i);
            }
            i = i + 1;
        }
        None
    }

    /// Persists a new subscription and steps the chat's count up.
    /// Exactly the already-present identity is refused, as a
    /// duplicate; the store is then unchanged.
    pub fn insert(&mut self, d: Demand) -> (r: Result<(), StoreRejection>)
        requires
            old(self).wf(),
        ensures
            final(self).wf(),
            match r {
                Ok(u) => {
                    &&& !old(self).has_identity(d)
                    &&& final(self).demands_view() == old(self).demands_view().push(d)
                    &&& final(self).counts_view().count_of(d.chat_id) == spec_increase(
                        old(self).counts_view().count_of(d.chat_id),
                    )
                    &&& final(self).counts_same_except(*old(self), d.chat_id)
                },
                Err(e) => {
                    &&& e == StoreRejection::Duplicate
                    &&& old(self).has_identity(d)
                    &&& *final(self) == *old(self)
                },
            },
    {
        match self.find_identity(&d) {
            Some(i) => {
                proof {
                    assert(self.has_identity(d));
                }
                Err(StoreRejection::Duplicate)
            },
            None => {
                let chat_id = d.chat_id;
                let ghost prev = self.demands@;
                self.demands.push(d);
                self.counts.increase_chat_demand(chat_id);
                proof {
                    assert forall|i: int, j: int|
                        0 <= i < j < self.demands@.len() implies (
                    #[trigger] self.demands@[i]).identity() != (
                    #[trigger] self.demands@[j]).identity() by {
                        if j < prev.len() {
                            assert(prev[i].identity() != prev[j].identity());
                        } else {
                            assert(self.demands@[i] == prev[i]);
                            assert(old(self).demands_view()[i] == prev[i]);
                            if prev[i].identity() == d.identity() {
                                assert(old(self).has_identity(d));
                            }
                        }
                    }
                }
                Ok(())
            },
        }
    }

    /// Removes exactly the row with this identity and steps the
    /// chat's count down (floored at zero). An identity that is not
    /// stored is refused, and the store is unchanged.
    pub fn delete_by_identity(&mut self, d: &Demand) -> (r: Result<(), StoreRejection>)
        requires
            old(self).wf(),
        ensures
            final(self).wf(),
            match r {
                Ok(u) => {
                    &&& old(self).has_identity(*d)
                    &&& !final(self).has_identity(*d)
                    &&& final(self).demands_view().len() == old(self).demands_view().len() - 1
                    &&& forall|e: Demand|
                        e.identity() != d.identity() ==> final(self).has_identity(e) == old(
                            self,
                        ).has_identity(e)
                    &&& final(self).counts_view().count_of(d.chat_id) == spec_decrease(
                        old(self).counts_view().count_of(d.chat_id),
                    )
                    &&& final(self).counts_same_except(*old(self), d.chat_id)
                },
                Err(e) => {
                    &&& e == StoreRejection::NotFound
                    &&& !old(self).has_identity(*d)
                    &&& *final(self) == *old(self)
                },
            },
    {
        match self.find_identity(d) {
            Some(i) => {
                let ghost prev = self.demands@;
                self.demands.remove(i);
                self.counts.decrease_chat_demand(d.chat_id);
                proof {
                    assert forall|p: int, q: int|
                        0 <= p < q < self.demands@.len() implies (
                    #[trigger] self.demands@[p]).identity() != (
                    #[trigger] self.demands@[q]).identity() by {
                        let p0 = if p < i as int {
                            p
                        } else {
                            p + 1
                        };
                        let q0 = if q < i as int {
                            q
                        } else {
                            q + 1
                        };
                        assert(prev[p0].identity() != prev[q0].identity());
                    }
                    assert forall|k: int|
                        0 <= k < self.demands@.len() implies (
                    #[trigger] self.demands@[k]).identity() != d.identity() by {
                        let k0 = if k < i as int {
                            k
                        } else {
                            k + 1
                        };
                        if k0 < i as int {
                            assert(prev[k0].identity() != prev[i as int].identity());
                        } else if k0 > i as int {
                            assert(prev[i as int].identity() != prev[k0].identity());
                        }
                    }
                    assert forall|e: Demand|
                        e.identity() != d.identity() implies self.has_identity(e) == old(
                    self).has_identity(e) by {
                        if old(self).has_identity(e) {
                            let k = choose|k: int|
                                0 <= k < old(self).demands_view().len() && (#[trigger] old(
                                self).demands_view()[k]).identity() == e.identity();
                            let k1 = if k < i as int {
                                k
                            } else {
                                k - 1
                            };
                            assert(prev[k] == old(self).demands_view()[k]);
                            assert(k != i as int);
                            assert(self.demands_view()[k1].identity() == e.identity());
                            assert(self.has_identity(e));
                        } else if self.has_identity(e) {
                            let k = choose|k: int|
                                0 <= k < self.demands_view().len() && (
                                #[trigger] self.demands_view()[k]).identity() == e.identity();
                            let k0 = if k < i as int {
                                k
                            } else {
                                k + 1
                            };
                            assert(old(self).demands_view()[k0].identity() == e.identity());
                            assert(old(self).has_identity(e));
                        }
                    }
                }
                Ok(())
            },
            None => Err(StoreRejection::NotFound),
        }
    }

    /// Removes every subscription of the chat and drops the chat's
    /// cache entry entirely, so a later quota check treats the chat as
    /// unknown (zero).
    pub fn delete_all_for_chat(&mut self, chat_id: i64)
        requires
            old(self).wf(),
        ensures
            final(self).wf(),
            final(self).demands_view() == old(self).demands_view().filter(
                |d: Demand| d.chat_id != chat_id,
            ),
            !final(self).counts_view().contains_chat(chat_id),
            final(self).counts_view().count_of(chat_id) == 0,
            final(self).counts_same_except(*old(self), chat_id),
    {
        let ghost prev = self.demands@;
        let mut kept: Vec<Demand> = Vec::new();
        let mut i: usize = 0;
        proof {
            reveal(Seq::filter);
            assert(kept@ =~= prev.take(0).filter(|d: Demand| d.chat_id != chat_id));
        }
        while i < self.demands.len()
            invariant
                i <= self.demands@.len(),
                self.demands@ == prev,
                kept@ == prev.take(i as int).filter(|d: Demand| d.chat_id != chat_id),
            decreases self.demands@.len() - i,
        {
            proof {
                reveal(Seq::filter);
                assert(prev.take(i + 1 as int).drop_last() =~= prev.take(i as int));
                assert(prev.take(i + 1 as int).last() == prev[i as int]);
            }
            if self.demands[i].chat_id != chat_id {
                kept.push(self.demands[i].duplicate());
            }
            i = i + 1;
        }
        proof {
            assert(prev.take(prev.len() as int) =~= prev);
        }
        self.demands = kept;
        self.counts.remove_chat(chat_id);
        proof {
            let p = |d: Demand| d.chat_id != chat_id;
            assert forall|a: int, b: int|
                0 <= a < b < self.demands@.len() implies (
            #[trigger] self.demands@[a]).identity() != (
            #[trigger] self.demands@[b]).identity() by {
                lemma_filter_distinct_positions(prev, p, a, b);
            }
        }
    }
}

/// A count capped at the counter type's width.
pub open spec fn capped_count(n: nat) -> u8 {
    if n > 255 {
        255u8
    } else {
        n as u8
    }
}

/// Adjacent pairs respect the listing order.
pub open spec fn demands_sorted(s: Seq<Demand>) -> bool {
    forall|k: int| 0 <= k < s.len() - 1 ==> spec_demand_le(#[trigger] s[k], s[k + 1])
}

impl DemandStore {
    /// The chat's subscriptions in the stable listing order: the same
    /// rows, arranged by kind, token, threshold and interval.
    pub fn get_demands_by_chat_id(&self, chat_id: i64) -> (r: Vec<Demand>)
        requires
            self.wf(),
        ensures
            demands_sorted(r@),
            r@.to_multiset() == self.demands_view().filter(
                |d: Demand| d.chat_id == chat_id,
            ).to_multiset(),
    {
        broadcast use vstd::seq_lib::group_to_multiset_ensures;

        let ghost p = |d: Demand| d.chat_id == chat_id;
        let ghost whole = self.demands@;
        let mut out: Vec<Demand> = Vec::new();
        let mut i: usize = 0;
        proof {
            reveal(Seq::filter);
            assert(whole.take(0).filter(p) =~= Seq::<Demand>::empty());
            assert(out@.to_multiset() =~= whole.take(0).filter(p).to_multiset());
        }
        proof {
            assert(p == (|d: Demand| d.chat_id == chat_id));
        }
        while i < self.demands.len()
            invariant
                i <= whole.len(),
                whole == self.demands@,
                demands_sorted(out@),
                out@.to_multiset() == whole.take(i as int).filter(
                    |d: Demand| d.chat_id == chat_id,
                ).to_multiset(),
            decreases whole.len() - i,
        {
            proof {
                reveal(Seq::filter);
                assert(whole.take(i + 1 as int).drop_last() =~= whole.take(i as int));
                assert(whole.take(i + 1 as int).last() == whole[i as int]);
            }
            if self.demands[i].chat_id == chat_id {
                let d = self.demands[i].duplicate();
                let mut pos: usize = 0;
                while pos < out.len() && demand_le(&out[pos], &d)
                    invariant
                        pos <= out@.len(),
                        demands_sorted(out@),
                        forall|k: int| 0 <= k < pos ==> spec_demand_le(#[trigger] out@[k], d),
                    decreases out@.len() - pos,
                {
                    pos = pos + 1;
                }
                proof {
                    if pos < out@.len() {
                        lemma_demand_le_total(out@[pos as int], d);
                    }
                }
                let ghost old_out = out@;
                out.insert(pos, d);
                proof {
                    reveal(Seq::filter);
                    broadcast use vstd::seq_lib::group_to_multiset_ensures;

                    assert forall|k: int|
                        0 <= k < out@.len() - 1 implies spec_demand_le(
                        #[trigger] out@[k],
                        out@[k + 1],
                    ) by {
                        if k + 1 < pos as int {
                            assert(out@[k] == old_out[k]);
                            assert(out@[k + 1] == old_out[k + 1]);
                        } else if k + 1 == pos as int {
                            assert(out@[k] == old_out[k]);
                            assert(out@[k + 1] == d);
                        } else if k == pos as int {
                            assert(out@[k] == d);
                            assert(out@[k + 1] == old_out[k]);
                        } else {
                            assert(out@[k] == old_out[k - 1]);
                            assert(out@[k + 1] == old_out[k]);
                        }
                    }
                    assert(out@.remove(pos as int) =~= old_out);
                    assert(out@[pos as int] == d);
                    assert(out@.remove(pos as int).to_multiset() =~= out@.to_multiset().remove(
                        d,
                    ));
                    assert(out@.to_multiset().contains(d)) by {
                        assert(out@.contains(d));
                    }
                    assert(out@.to_multiset() =~= old_out.to_multiset().insert(d));
                    let q = |d: Demand| d.chat_id == chat_id;
                    assert(whole.take(i + 1 as int).filter(q) =~= whole.take(i as int).filter(
                        q,
                    ).push(whole[i as int]));
                    assert(whole[i as int] == d);
                }
            } else {
                proof {
                    reveal(Seq::filter);
                    let q = |d: Demand| d.chat_id == chat_id;
                    assert(whole.take(i + 1 as int).filter(q) =~= whole.take(i as int).filter(q));
                }
            }
            i = i + 1;
        }
        proof {
            assert(whole.take(whole.len() as int) =~= whole);
        }
        out
    }

    /// The subscriptions of one interval and kind, in insertion order.
    pub fn list_by_interval_and_kind(&self, interval: &str, kind: &str) -> (r: Vec<Demand>)
        requires
            self.wf(),
        ensures
            r@ == self.demands_view().filter(
                |d: Demand| d.interval@ == interval@ && d.type_of@ == kind@,
            ),
    {
        let ghost p = |d: Demand| d.interval@ == interval@ && d.type_of@ == kind@;
        let ghost whole = self.demands@;
        let mut out: Vec<Demand> = Vec::new();
        let mut i: usize = 0;
        proof {
            reveal(Seq::filter);
            assert(out@ =~= whole.take(0).filter(p));
        }
        while i < self.demands.len()
            invariant
                i <= whole.len(),
                whole == self.demands@,
                out@ == whole.take(i as int).filter(
                    |d: Demand| d.interval@ == interval@ && d.type_of@ == kind@,
                ),
            decreases whole.len() - i,
        {
            proof {
                reveal(Seq::filter);
                assert(whole.take(i + 1 as int).drop_last() =~= whole.take(i as int));
                assert(whole.take(i + 1 as int).last() == whole[i as int]);
            }
            if str_eq(self.demands[i].interval.as_str(), interval) && str_eq(
                self.demands[i].type_of.as_str(),
                kind,
            ) {
                out.push(self.demands[i].duplicate());
            }
            i = i + 1;
        }
        proof {
            assert(whole.take(whole.len() as int) =~= whole);
        }
        out
    }

    /// The chats holding a pump-broadcast subscription.
    pub fn get_all_special_chat_id(&self) -> (r: Vec<i64>)
        requires
            self.wf(),
        ensures
            r@ == self.demands_view().filter(
                |d: Demand| d.type_of@ == spec_special_kind(),
            ).map_values(|d: Demand| d.chat_id),
    {
        let ghost p = |d: Demand| d.type_of@ == spec_special_kind();
        let ghost whole = self.demands@;
        let mut out: Vec<i64> = Vec::new();
        let mut i: usize = 0;
        proof {
            reveal(Seq::filter);
            assert(out@ =~= whole.take(0).filter(p).map_values(|d: Demand| d.chat_id));
        }
        while i < self.demands.len()
            invariant
                i <= whole.len(),
                whole == self.demands@,
                out@ == whole.take(i as int).filter(
                    |d: Demand| d.type_of@ == spec_special_kind(),
                ).map_values(|d: Demand| d.chat_id),
            decreases whole.len() - i,
        {
            proof {
                reveal(Seq::filter);
                assert(whole.take(i + 1 as int).drop_last() =~= whole.take(i as int));
                assert(whole.take(i + 1 as int).last() == whole[i as int]);
            }
            if str_eq(self.demands[i].type_of.as_str(), crate::demand::special_kind()) {
                out.push(self.demands[i].chat_id);
                proof {
                    reveal(Seq::filter);
                    let q = |d: Demand| d.type_of@ == spec_special_kind();
                    assert(whole.take(i + 1 as int).filter(q) =~= whole.take(i as int).filter(
                        q,
                    ).push(whole[i as int]));
                    assert(out@ =~= whole.take(i + 1 as int).filter(q).map_values(
                        |d: Demand| d.chat_id,
                    ));
                }
            } else {
                proof {
                    reveal(Seq::filter);
                    let q = |d: Demand| d.type_of@ == spec_special_kind();
                    assert(whole.take(i + 1 as int).filter(q) =~= whole.take(i as int).filter(q));
                }
            }
            i = i + 1;
        }
        proof {
            assert(whole.take(whole.len() as int) =~= whole);
        }
        out
    }

    /// Rebuilds the count cache from the table: afterwards every
    /// chat's cached count is its true row count (capped at the
    /// counter's width), as at process start.
    pub fn reload_all_counts(&mut self)
        requires
            old(self).wf(),
        ensures
            final(self).wf(),
            final(self).demands_view() == old(self).demands_view(),
            forall|c: i64|
                final(self).counts_view().count_of(c) == capped_count(
                    chat_count(final(self).demands_view(), c),
                ),
    {
        let ghost whole = self.demands@;
        let mut counts = ChatDemandCounts::new();
        let mut i: usize = 0;
        proof {
            assert(forall|c: i64| chat_count(whole.take(0), c) == 0);
        }
        while i < self.demands.len()
            invariant
                i <= whole.len(),
                whole == self.demands@,
                counts.wf(),
                forall|c: i64|
                    counts.count_of(c) == capped_count(chat_count(whole.take(i as int), c)),
            decreases whole.len() - i,
        {
            let chat = self.demands[i].chat_id;
            counts.increase_chat_demand(chat);
            proof {
                assert(whole.take(i + 1 as int).drop_last() =~= whole.take(i as int));
                assert(whole.take(i + 1 as int).last() == whole[i as int]);
                assert forall|c: i64|
                    counts.count_of(c) == capped_count(
                        chat_count(whole.take(i + 1 as int), c),
                    ) by {
                    if c == chat {
                        assert(chat_count(whole.take(i + 1 as int), c) == chat_count(
                            whole.take(i as int),
                            c,
                        ) + 1);
                    } else {
                        assert(chat_count(whole.take(i + 1 as int), c) == chat_count(
                            whole.take(i as int),
                            c,
                        ));
                    }
                }
            }
            i = i + 1;
        }
        proof {
            assert(whole.take(whole.len() as int) =~= whole);
        }
        self.counts = counts;
    }
}

/// Every element of a filtered sequence occurs in the source.
proof fn lemma_filter_index_source(s: Seq<Demand>, p: spec_fn(Demand) -> bool, a: int)
    requires
        0 <= a < s.filter(p).len(),
    ensures
        s.contains(s.filter(p)[a]),
    decreases s.len(),
{
    reveal(Seq::filter);
    if s.len() > 0 {
        let rest = s.drop_last();
        let f = s.filter(p);
        let fr = rest.filter(p);
        if p(s.last()) {
            assert(f == fr.push(s.last()));
            if a < f.len() - 1 {
                assert(f[a] == fr[a]);
                lemma_filter_index_source(rest, p, a);
                let k = choose|k: int| 0 <= k < rest.len() && rest[k] == fr[a];
                assert(s[k] == fr[a]);
            } else {
                assert(f[a] == s.last());
                assert(s[s.len() - 1] == s.last());
            }
        } else {
            assert(f == fr);
            lemma_filter_index_source(rest, p, a);
            let k = choose|k: int| 0 <= k < rest.len() && rest[k] == fr[a];
            assert(s[k] == fr[a]);
        }
    }
}

/// A source with pairwise-distinct identities keeps them distinct
/// through a filter.
proof fn lemma_filter_distinct_positions(
    s: Seq<Demand>,
    p: spec_fn(Demand) -> bool,
    a: int,
    b: int,
)
    requires
        0 <= a < b < s.filter(p).len(),
        forall|i: int, j: int|
            0 <= i < j < s.len() ==> (#[trigger] s[i]).identity() != (#[trigger] s[j]).identity(),
    ensures
        s.filter(p)[a].identity() != s.filter(p)[b].identity(),
    decreases s.len(),
{
    reveal(Seq::filter);
    if s.len() > 0 {
        let rest = s.drop_last();
        let f = s.filter(p);
        let fr = rest.filter(p);
        assert forall|i: int, j: int|
            0 <= i < j < rest.len() implies (#[trigger] rest[i]).identity() != (
        #[trigger] rest[j]).identity() by {
            assert(rest[i] == s[i]);
            assert(rest[j] == s[j]);
        }
        if p(s.last()) {
            assert(f == fr.push(s.last()));
            if b < f.len() - 1 {
                assert(f[a] == fr[a]);
                assert(f[b] == fr[b]);
                lemma_filter_distinct_positions(rest, p, a, b);
            } else {
                assert(f[b] == s.last());
                assert(f[a] == fr[a]);
                lemma_filter_index_source(rest, p, a);
                let ia = choose|ia: int| 0 <= ia < rest.len() && rest[ia] == fr[a];
                assert(s[ia] == fr[a]);
                assert(s[ia].identity() != s[s.len() - 1].identity());
            }
        } else {
            assert(f == fr);
            lemma_filter_distinct_positions(rest, p, a, b);
        }
    }
}

} // verus!
