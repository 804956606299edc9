//! Snapshot history: time-bucketed market snapshots tagged with the
//! interval names they satisfy. Append-only; the lookup returns the
//! most recent snapshot still tagged with a given interval name, the
//! comparison point for demand evaluation.

use vstd::prelude::*;
use crate::market::TokenMap;
use crate::text::str_eq;

verus! {

/// One persisted snapshot: the minute bucket it was taken in, the
/// interval names it satisfies, and the full market mapping.
pub struct TokensAt {
    pub timestamp_in_min: i32,
    pub times: Vec<String>,
    pub tokens: TokenMap,
}

/// Whether the snapshot is tagged with the interval name.
pub open spec fn spec_tagged(s: TokensAt, interval: Seq<char>) -> bool {
    exists|i: int| 0 <= i < s.times@.len() && (#[trigger] s.times@[i])@ == interval
}

/// Whether the snapshot's times list carries the name.
pub fn is_tagged(s: &TokensAt, interval: &str) -> (r: bool)
    ensures
        r == spec_tagged(*s, interval@),
{
    let mut i: usize = 0;
    while i < s.times.len()
        invariant
            i <= s.times@.len(),
            forall|k: int| 0 <= k < i ==> (#[trigger] s.times@[k])@ != interval@,
        decreases s.times@.len() - i,
    {
        if str_eq(s.times[i].as_str(), interval) {
            return true;
        }
        i = i + 1;
    }
    false
}

/// The persisted, append-only sequence of tagged snapshots.
pub struct SnapshotHistory {
    snapshots: Vec<TokensAt>,
}

impl SnapshotHistory {
    /// The stored snapshots, oldest first.
    pub closed spec fn view_seq(self) -> Seq<TokensAt> {
        self.snapshots@
    }

    /// Empty history, as on cold start.
    pub fn new() -> (r: Self)
        ensures
            r.view_seq().len() == 0,
    {
        SnapshotHistory { snapshots: Vec::new() }
    }

    /// Persists one more snapshot; nothing is ever updated in place
    /// or removed.
    pub fn append(&mut self, snapshot: TokensAt)
        ensures
            final(self).view_seq() == old(self).view_seq().push(snapshot),
    {
        self.snapshots.push(snapshot);
    }

    /// The most recent stored snapshot (by minute bucket) tagged with
    /// the interval name; nothing when no stored snapshot carries the
    /// tag, as expected on cold start.
    pub fn latest_tagged(&self, interval: &str) -> (r: Option<&TokensAt>)
        ensures
            match r {
                Some(s) => {
                    &&& exists|i: int|
                        0 <= i < self.view_seq().len() && #[trigger] self.view_seq()[i] == *s
                    &&& spec_tagged(*s, interval@)
                    &&& forall|i: int|
                        0 <= i < self.view_seq().len() && spec_tagged(
                            #[trigger] self.view_seq()[i],
                            interval@,
                        ) ==> self.view_seq()[i].timestamp_in_min <= s.timestamp_in_min
                },
                None => forall|i: int|
                    0 <= i < self.view_seq().len() ==> !spec_tagged(
                        #[trigger] self.view_seq()[i],
                        interval@,
                    ),
            },
    {
        let mut best: Option<usize> = None;
        let mut i: usize = 0;
        while i < self.snapshots.len()
            invariant
                i <= self.snapshots@.len(),
                match best {
                    Some(b) => {
                        &&& b < i
                        &&& spec_tagged(self.snapshots@[b as int], interval@)
                        &&& forall|k: int|
                            0 <= k < i && spec_tagged(#[trigger] self.snapshots@[k], interval@)
                                ==> self.snapshots@[k].timestamp_in_min
                                <= self.snapshots@[b as int].timestamp_in_min
                    },
                    None => forall|k: int|
                        0 <= k < i ==> !spec_tagged(#[trigger] self.snapshots@[k], interval@),
                },
            decreases self.snapshots@.len() - i,
        {
            if is_tagged(&self.snapshots[i], interval) {
                match best {
                    Some(b) => {
                        if self.snapshots[i].timestamp_in_min > self.snapshots[b].timestamp_in_min {
                            best = Some(i);
                        }
                    },
                    None => {
                        best = Some(i);
                    },
                }
            }
            i = i + 1;
        }
        match best {
            Some(b) => {
                proof {
                    assert(self.view_seq()[b as int] == self.snapshots@[b as int]);
                }
                Some(&self.snapshots[b])
            },
            None => None,
        }
    }
}

} // verus!
