//! Dispatch fan-out accounting: one message to many chats, with a
//! bounded number of in-flight sends, a fixed pacing delay between
//! submissions, and best-effort completion — a failed send is counted,
//! never allowed to stop the rest.
//!
//! The sends themselves are asynchronous work done outside; this state
//! machine decides when one more may be submitted, books completions,
//! and judges the aggregate outcome.

use vstd::prelude::*;

verus! {

/// Most sends allowed in flight at once.
pub const MAX_CONCURRENT_SENDS: usize = 5;

/// Pacing delay between dispatch submissions, in milliseconds.
pub const RATE_LIMIT_MS: u64 = 50;

/// The bookkeeping of one broadcast: which destinations remain, how
/// many sends are in flight, and how many finished, failed included.
pub struct BroadcastRun {
    destinations: Vec<i64>,
    submitted: usize,
    in_flight: usize,
    failures: usize,
}

impl BroadcastRun {
    /// The concurrency ceiling and the books balance: every submitted
    /// send is in flight or completed, failures among the completed.
    pub closed spec fn wf(self) -> bool {
        &&& self.submitted <= self.destinations@.len()
        &&& self.in_flight <= MAX_CONCURRENT_SENDS
        &&& self.in_flight <= self.submitted
        &&& self.failures <= self.submitted - self.in_flight
    }

    pub closed spec fn destinations_view(self) -> Seq<i64> {
        self.destinations@
    }

    pub closed spec fn submitted_count(self) -> nat {
        self.submitted as nat
    }

    pub closed spec fn in_flight_count(self) -> nat {
        self.in_flight as nat
    }

    pub closed spec fn completed_count(self) -> nat {
        (self.submitted - self.in_flight) as nat
    }

    pub closed spec fn failure_count(self) -> nat {
        self.failures as nat
    }

    /// However the sends interleave, a well-formed run never holds
    /// more than the ceiling in flight.
    pub proof fn lemma_bounded_concurrency(self)
        requires
            self.wf(),
        ensures
            self.in_flight_count() <= MAX_CONCURRENT_SENDS,
    {
    }

    /// A finished run has attempted every destination: nothing is
    /// skipped, however many sends failed along the way.
    pub proof fn lemma_all_attempted(self)
        requires
            self.wf(),
            self.is_finished(),
        ensures
            self.completed_count() == self.destinations_view().len(),
    {
    }

    /// A broadcast over these destinations, nothing sent yet.
    pub fn new(destinations: Vec<i64>) -> (r: Self)
        ensures
            r.wf(),
            r.destinations_view() == destinations@,
            r.submitted_count() == 0,
            r.in_flight_count() == 0,
            r.failure_count() == 0,
    {
        BroadcastRun { destinations, submitted: 0, in_flight: 0, failures: 0 }
    }

    /// Whether one more send may be submitted now: a destination
    /// remains and the ceiling leaves room.
    pub fn can_submit(&self) -> (r: bool)
        requires
            self.wf(),
        ensures
            r == (self.submitted_count() < self.destinations_view().len()
                && self.in_flight_count() < MAX_CONCURRENT_SENDS),
    {
        self.submitted < self.destinations.len() && self.in_flight < MAX_CONCURRENT_SENDS
    }

    /// Whether the ceiling forces the caller to await a completion
    /// before submitting more.
    pub fn must_drain(&self) -> (r: bool)
        requires
            self.wf(),
        ensures
            r == (self.in_flight_count() >= MAX_CONCURRENT_SENDS),
    {
        self.in_flight >= MAX_CONCURRENT_SENDS
    }

    /// The destination of the next send.
    pub fn next_destination(&self) -> (r: i64)
        requires
            self.wf(),
            self.submitted_count() < self.destinations_view().len(),
        ensures
            r == self.destinations_view()[self.submitted_count() as int],
    {
        self.destinations[self.submitted]
    }

    /// Books one submission; only allowed below the ceiling, so the
    /// bound is never broken.
    pub fn record_submit(&mut self)
        requires
            old(self).wf(),
            old(self).submitted_count() < old(self).destinations_view().len(),
            old(self).in_flight_count() < MAX_CONCURRENT_SENDS,
        ensures
            final(self).wf(),
            final(self).destinations_view() == old(self).destinations_view(),
            final(self).submitted_count() == old(self).submitted_count() + 1,
            final(self).in_flight_count() == old(self).in_flight_count() + 1,
            final(self).failure_count() == old(self).failure_count(),
    {
        proof {
            vstd::std_specs::vec::axiom_spec_len(&self.destinations);
        }
        self.submitted = self.submitted + 1;
        self.in_flight = self.in_flight + 1;
    }

    /// Books one completed send; a failure is counted and the run
    /// goes on.
    pub fn record_completion(&mut self, success: bool)
        requires
            old(self).wf(),
            old(self).in_flight_count() > 0,
        ensures
            final(self).wf(),
            final(self).destinations_view() == old(self).destinations_view(),
            final(self).submitted_count() == old(self).submitted_count(),
            final(self).in_flight_count() == old(self).in_flight_count() - 1,
            final(self).failure_count() == old(self).failure_count() + (if success {
                0int
            } else {
                1int
            }),
    {
        self.in_flight = self.in_flight - 1;
        if !success {
            self.failures = self.failures + 1;
        }
    }

    /// Whether every destination has been attempted and every send
    /// has come back.
    pub open spec fn is_finished(self) -> bool {
        self.submitted_count() == self.destinations_view().len() && self.in_flight_count() == 0
    }

    pub fn finished(&self) -> (r: bool)
        requires
            self.wf(),
        ensures
            r == self.is_finished(),
    {
        self.submitted == self.destinations.len() && self.in_flight == 0
    }

    /// The aggregate outcome: the broadcast failed exactly when at
    /// least one send failed, however many were still delivered.
    pub fn outcome(&self) -> (r: Result<(), ()>)
        requires
            self.wf(),
            self.is_finished(),
        ensures
            r is Ok <==> self.failure_count() == 0,
    {
        if self.failures == 0 {
            Ok(())
        } else {
            Err(())
        }
    }
}

} // verus!
