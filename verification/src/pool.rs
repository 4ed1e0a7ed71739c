//! A bounded task pool for the per-message candidate work.
//!
//! One inbound message may contain many link candidates; each is processed by
//! an independent task (probe, rewrite, reply). The pool is the state machine
//! that hands candidates out in order and never lets more than
//! [`MAX_IN_FLIGHT`] of them run at once: a candidate is handed out by
//! `try_start` only while a slot is free, and a slot is freed by `finish`.
//! The driver loop that actually awaits the tasks lives outside the library;
//! it only calls these transitions.

use vstd::prelude::*;

verus! {

/// How many per-candidate tasks of a single message may be in flight at once.
pub const MAX_IN_FLIGHT: usize = 4;

/// The scheduling state for the candidates of one message.
pub struct TaskPool {
    jobs: Vec<String>,
    started: usize,
    in_flight: usize,
}

impl TaskPool {
    /// The candidates this pool was created with, in extraction order.
    pub closed spec fn spec_jobs(self) -> Seq<Seq<char>> {
        self.jobs.deep_view()
    }

    /// How many candidates have been handed out so far.
    pub closed spec fn spec_started(self) -> nat {
        self.started as nat
    }

    /// How many handed-out candidates have not yet been reported finished.
    pub closed spec fn spec_in_flight(self) -> nat {
        self.in_flight as nat
    }

    /// The pool invariant: candidates are handed out at most once each, a
    /// task in flight is one that was started and not yet finished, and the
    /// concurrency bound always holds.
    pub closed spec fn wf(self) -> bool {
        &&& self.started <= self.jobs@.len()
        &&& self.in_flight <= self.started
        &&& self.in_flight <= MAX_IN_FLIGHT
    }

    /// True when every candidate has been handed out and every task finished.
    pub fn is_done(&self) -> (r: bool)
        ensures
            r == (self.spec_started() == self.spec_jobs().len() && self.spec_in_flight() == 0),
    {
        self.started == self.jobs.len() && self.in_flight == 0
    }

    /// True when at least one task is in flight.
    pub fn has_in_flight(&self) -> (r: bool)
        ensures
            r == (self.spec_in_flight() > 0),
    {
        self.in_flight > 0
    }

    /// A fresh pool over the given candidates: nothing started, nothing in
    /// flight.
    pub fn new(jobs: Vec<String>) -> (p: TaskPool)
        ensures
            p.wf(),
            p.spec_jobs() == jobs.deep_view(),
            p.spec_started() == 0,
            p.spec_in_flight() == 0,
    {
        TaskPool { jobs, started: 0, in_flight: 0 }
    }

    /// Hands out the next candidate if one remains and a slot is free, and
    /// counts it as in flight; otherwise changes nothing. The concurrency
    /// bound is never exceeded.
    pub fn try_start(&mut self) -> (job: Option<String>)
        requires
            old(self).wf(),
        ensures
            final(self).wf(),
            final(self).spec_jobs() == old(self).spec_jobs(),
            final(self).spec_in_flight() <= MAX_IN_FLIGHT,
            match job {
                Some(j) => {
                    &&& old(self).spec_started() < old(self).spec_jobs().len()
                    &&& old(self).spec_in_flight() < MAX_IN_FLIGHT
                    &&& j@ == old(self).spec_jobs()[old(self).spec_started() as int]
                    &&& final(self).spec_started() == old(self).spec_started() + 1
                    &&& final(self).spec_in_flight() == old(self).spec_in_flight() + 1
                },
                None => {
                    &&& (old(self).spec_started() == old(self).spec_jobs().len()
                        || old(self).spec_in_flight() == MAX_IN_FLIGHT)
                    &&& final(self).spec_started() == old(self).spec_started()
                    &&& final(self).spec_in_flight() == old(self).spec_in_flight()
                },
            },
    {
        if self.started < self.jobs.len() && self.in_flight < MAX_IN_FLIGHT {
            let job = self.jobs[self.started].clone();
            assert(job@ == self.jobs.deep_view()[self.started as int]);
            self.started = self.started + 1;
            self.in_flight = self.in_flight + 1;
            Some(job)
        } else {
            None
        }
    }

    /// Reports one in-flight task as finished, freeing its slot.
    pub fn finish(&mut self)
        requires
            old(self).wf(),
            old(self).spec_in_flight() > 0,
        ensures
            final(self).wf(),
            final(self).spec_jobs() == old(self).spec_jobs(),
            final(self).spec_started() == old(self).spec_started(),
            final(self).spec_in_flight() == old(self).spec_in_flight() - 1,
    {
        self.in_flight = self.in_flight - 1;
    }
}

} // verus!
