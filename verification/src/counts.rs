//! Per-chat subscription counters.
//!
//! The bot keeps an in-memory count of active subscriptions per chat so
//! that quota checks never have to re-query the backing store. The cache
//! is an association list with pairwise-distinct chat keys; a chat
//! without an entry counts as zero.

use vstd::prelude::*;

verus! {

/// Count of active subscriptions for each chat.
pub struct ChatDemandCounts {
    entries: Vec<(i64, u8)>,
}

/// One counter step up, capped at the counter's width.
pub open spec fn spec_increase(c: u8) -> u8 {
    if c == 255 {
        255u8
    } else {
        (c + 1) as u8
    }
}

/// One counter step down, floored at zero.
pub open spec fn spec_decrease(c: u8) -> u8 {
    if c > 0 {
        (c - 1) as u8
    } else {
        0u8
    }
}

/// `k` counter steps down from `c`.
pub open spec fn spec_decrease_n(c: u8, k: nat) -> u8
    decreases k,
{
    if k == 0 {
        c
    } else {
        spec_decrease(spec_decrease_n(c, (k - 1) as nat))
    }
}

/// A counter never leaves zero by being decreased: however many steps
/// down are taken from zero, the value stays zero, and no sequence of
/// steps down produces anything but a well-defined (non-wrapped) count.
pub proof fn lemma_decrease_floors_at_zero(c: u8, k: nat)
    ensures
        c == 0 ==> spec_decrease_n(c, k) == 0,
        spec_decrease_n(c, k) <= c,
    decreases k,
{
    if k > 0 {
        lemma_decrease_floors_at_zero(c, (k - 1) as nat);
    }
}

impl ChatDemandCounts {
    /// Chat keys are pairwise distinct.
    pub closed spec fn wf(self) -> bool {
        forall|i: int, j: int|
            0 <= i < j < self.entries@.len() ==> (#[trigger] self.entries@[i]).0 != (
            #[trigger] self.entries@[j]).0
    }

    /// Whether the cache holds an entry for `chat`.
    pub closed spec fn contains_chat(self, chat: i64) -> bool {
        exists|i: int| 0 <= i < self.entries@.len() && (#[trigger] self.entries@[i]).0 == chat
    }

    /// The cached count for `chat`; a chat without an entry counts as zero.
    pub closed spec fn count_of(self, chat: i64) -> u8 {
        if self.contains_chat(chat) {
            let i = choose|i: int|
                0 <= i < self.entries@.len() && (#[trigger] self.entries@[i]).0 == chat;
            self.entries@[i].1
        } else {
            0u8
        }
    }

    proof fn lemma_count_at(self, i: int)
        requires
            self.wf(),
            0 <= i < self.entries@.len(),
        ensures
            self.contains_chat(self.entries@[i].0),
            self.count_of(self.entries@[i].0) == self.entries@[i].1,
    {
        let chat = self.entries@[i].0;
        assert(self.contains_chat(chat));
        let j = choose|j: int|
            0 <= j < self.entries@.len() && (#[trigger] self.entries@[j]).0 == chat;
        if i != j {
            if i < j {
                assert(self.entries@[i].0 != self.entries@[j].0);
            } else {
                assert(self.entries@[j].0 != self.entries@[i].0);
            }
        }
    }

    /// An empty cache: every chat counts as zero.
    pub fn new() -> (r: Self)
        ensures
            r.wf(),
            forall|c: i64| !r.contains_chat(c),
            forall|c: i64| r.count_of(c) == 0,
    {
        ChatDemandCounts { entries: Vec::new() }
    }

    fn find_index(&self, chat: i64) -> (r: Option<usize>)
        ensures
            match r {
                Some(i) => i < self.entries@.len() && self.entries@[i as int].0 == chat,
                None => !self.contains_chat(chat),
            },
    {
        let mut idx: usize = 0;
        while idx < self.entries.len()
            invariant
                idx <= self.entries@.len(),
                forall|k: int| 0 <= k < idx ==> (#[trigger] self.entries@[k]).0 != chat,
            decreases self.entries@.len() - idx,
        {
            if self.entries[idx].0 == chat {
                return Some(idx);
            }
            idx = idx + 1;
        }
        None
    }

    /// The cached count, read without touching the backing store.
    pub fn count_for_chat(&self, chat: i64) -> (n: u8)
        requires
            self.wf(),
        ensures
            n == self.count_of(chat),
    {
        match self.find_index(chat) {
            Some(i) => {
                proof {
                    self.lemma_count_at(i as int);
                }
                self.entries[i].1
            },
            None => 0,
        }
    }

    /// Step the chat's count up by one (capped), creating the entry if absent.
    pub fn increase_chat_demand(&mut self, chat: i64) -> (n: u8)
        requires
            old(self).wf(),
        ensures
            final(self).wf(),
            final(self).contains_chat(chat),
            final(self).count_of(chat) == spec_increase(old(self).count_of(chat)),
            n == final(self).count_of(chat),
            forall|c: i64|
                c != chat ==> final(self).count_of(c) == old(self).count_of(c)
                    && final(self).contains_chat(c) == old(self).contains_chat(c),
    {
        match self.find_index(chat) {
            Some(i) => {
                proof {
                    self.lemma_count_at(i as int);
                }
                let cur = self.entries[i].1;
                let nv = if cur == 255 {
                    cur
                } else {
                    cur + 1
                };
                self.entries[i] = (chat, nv);
                proof {
                    self.lemma_update_same_key(*old(self), i as int, chat);
                }
                nv
            },
            None => {
                self.entries.push((chat, 1));
                proof {
                    self.lemma_push_new_key(*old(self), chat);
                }
                1
            },
        }
    }

    /// Step the chat's count down by one (floored at zero), creating a
    /// zero entry if absent.
    pub fn decrease_chat_demand(&mut self, chat: i64) -> (n: u8)
        requires
            old(self).wf(),
        ensures
            final(self).wf(),
            final(self).contains_chat(chat),
            final(self).count_of(chat) == spec_decrease(old(self).count_of(chat)),
            n == final(self).count_of(chat),
            forall|c: i64|
                c != chat ==> final(self).count_of(c) == old(self).count_of(c)
                    && final(self).contains_chat(c) == old(self).contains_chat(c),
    {
        match self.find_index(chat) {
            Some(i) => {
                proof {
                    self.lemma_count_at(i as int);
                }
                let cur = self.entries[i].1;
                let nv = if cur > 0 {
                    cur - 1
                } else {
                    0
                };
                self.entries[i] = (chat, nv);
                proof {
                    self.lemma_update_same_key(*old(self), i as int, chat);
                }
                nv
            },
            None => {
                self.entries.push((chat, 0));
                proof {
                    self.lemma_push_new_key(*old(self), chat);
                }
                0
            },
        }
    }

    /// Drop the chat's entry entirely, so a later read treats the chat as
    /// unknown (zero).
    pub fn remove_chat(&mut self, chat: i64)
        requires
            old(self).wf(),
        ensures
            final(self).wf(),
            !final(self).contains_chat(chat),
            final(self).count_of(chat) == 0,
            forall|c: i64|
                c != chat ==> final(self).count_of(c) == old(self).count_of(c)
                    && final(self).contains_chat(c) == old(self).contains_chat(c),
    {
        match self.find_index(chat) {
            Some(i) => {
                self.entries.remove(i);
                proof {
                    self.lemma_remove_key(*old(self), i as int, chat);
                }
            },
            None => {},
        }
    }

    proof fn lemma_update_same_key(self, prev: Self, i: int, chat: i64)
        requires
            prev.wf(),
            0 <= i < prev.entries@.len(),
            prev.entries@[i].0 == chat,
            self.entries@ == prev.entries@.update(i, (chat, self.entries@[i].1)),
        ensures
            self.wf(),
            self.contains_chat(chat),
            self.count_of(chat) == self.entries@[i].1,
            forall|c: i64|
                c != chat ==> self.count_of(c) == prev.count_of(c) && self.contains_chat(c)
                    == prev.contains_chat(c),
    {
        assert forall|p: int, q: int| 0 <= p < q < self.entries@.len() implies (
        #[trigger] self.entries@[p]).0 != (#[trigger] self.entries@[q]).0 by {
            assert(prev.entries@[p].0 == self.entries@[p].0);
            assert(prev.entries@[q].0 == self.entries@[q].0);
        }
        self.lemma_count_at(i);
        assert forall|c: i64| c != chat implies self.count_of(c) == prev.count_of(c)
            && self.contains_chat(c) == prev.contains_chat(c) by {
            if prev.contains_chat(c) {
                let j = choose|j: int|
                    0 <= j < prev.entries@.len() && (#[trigger] prev.entries@[j]).0 == c;
                assert(self.entries@[j].0 == c);
                self.lemma_count_at(j);
                prev.lemma_count_at(j);
            } else if self.contains_chat(c) {
                let j = choose|j: int|
                    0 <= j < self.entries@.len() && (#[trigger] self.entries@[j]).0 == c;
                assert(prev.entries@[j].0 == c);
            }
        }
    }

    proof fn lemma_push_new_key(self, prev: Self, chat: i64)
        requires
            prev.wf(),
            !prev.contains_chat(chat),
            self.entries@ == prev.entries@.push(
                (chat, self.entries@[self.entries@.len() - 1].1),
            ),
        ensures
            self.wf(),
            self.contains_chat(chat),
            self.count_of(chat) == self.entries@[self.entries@.len() - 1].1,
            forall|c: i64|
                c != chat ==> self.count_of(c) == prev.count_of(c) && self.contains_chat(c)
                    == prev.contains_chat(c),
    {
        let n = prev.entries@.len() as int;
        assert forall|p: int, q: int| 0 <= p < q < self.entries@.len() implies (
        #[trigger] self.entries@[p]).0 != (#[trigger] self.entries@[q]).0 by {
            if q < n {
                assert(prev.entries@[p].0 != prev.entries@[q].0);
            } else {
                assert(prev.entries@[p].0 == self.entries@[p].0);
                assert(!prev.contains_chat(chat));
                assert(prev.entries@[p].0 != chat);
            }
        }
        self.lemma_count_at(n);
        assert forall|c: i64| c != chat implies self.count_of(c) == prev.count_of(c)
            && self.contains_chat(c) == prev.contains_chat(c) by {
            if prev.contains_chat(c) {
                let j = choose|j: int|
                    0 <= j < prev.entries@.len() && (#[trigger] prev.entries@[j]).0 == c;
                assert(self.entries@[j].0 == c);
                self.lemma_count_at(j);
                prev.lemma_count_at(j);
            } else if self.contains_chat(c) {
                let j = choose|j: int|
                    0 <= j < self.entries@.len() && (#[trigger] self.entries@[j]).0 == c;
                assert(j == n);
            }
        }
    }

    proof fn lemma_remove_key(self, prev: Self, i: int, chat: i64)
        requires
            prev.wf(),
            0 <= i < prev.entries@.len(),
            prev.entries@[i].0 == chat,
            self.entries@ == prev.entries@.remove(i),
        ensures
            self.wf(),
            !self.contains_chat(chat),
            self.count_of(chat) == 0,
            forall|c: i64|
                c != chat ==> self.count_of(c) == prev.count_of(c) && self.contains_chat(c)
                    == prev.contains_chat(c),
    {
        let n = prev.entries@.len() as int;
        assert forall|p: int, q: int| 0 <= p < q < self.entries@.len() implies (
        #[trigger] self.entries@[p]).0 != (#[trigger] self.entries@[q]).0 by {
            let p0 = if p < i {
                p
            } else {
                p + 1
            };
            let q0 = if q < i {
                q
            } else {
                q + 1
            };
            assert(prev.entries@[p0].0 != prev.entries@[q0].0);
        }
        assert forall|j: int| 0 <= j < self.entries@.len() implies (
        #[trigger] self.entries@[j]).0 != chat by {
            let j0 = if j < i {
                j
            } else {
                j + 1
            };
            if j0 < i {
                assert(prev.entries@[j0].0 != prev.entries@[i].0);
            } else if j0 > i {
                assert(prev.entries@[i].0 != prev.entries@[j0].0);
            }
        }
        assert forall|c: i64| c != chat implies self.count_of(c) == prev.count_of(c)
            && self.contains_chat(c) == prev.contains_chat(c) by {
            if prev.contains_chat(c) {
                let j = choose|j: int|
                    0 <= j < prev.entries@.len() && (#[trigger] prev.entries@[j]).0 == c;
                let j1 = if j < i {
                    j
                } else {
                    j - 1
                };
                assert(self.entries@[j1].0 == c);
                self.lemma_count_at(j1);
                prev.lemma_count_at(j);
            } else if self.contains_chat(c) {
                let j = choose|j: int|
                    0 <= j < self.entries@.len() && (#[trigger] self.entries@[j]).0 == c;
                let j0 = if j < i {
                    j
                } else {
                    j + 1
                };
                assert(prev.entries@[j0].0 == c);
            }
        }
    }
}

} // verus!
