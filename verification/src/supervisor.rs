//! Background-job supervision: at most one in-flight job per logical slot,
//! with single-flight delivery of outcomes.
//!
//! The supervisor is a pure state machine. The caller owns the actual task
//! handles: `start` tells it which old task to abort and under which fresh
//! job id to run the new one, and when a task terminates the caller reports
//! that through `finish`, which decides whether the outcome is delivered or
//! silently discarded because the slot has since been reassigned. Success
//! payloads stay with the caller, who holds the task's result; the
//! supervisor tracks identity and lifecycle only.

use vstd::prelude::*;

use crate::models::SearchQuery;

verus! {

/// A logical background-job category; each holds at most one live job.
#[derive(Clone, Copy, PartialEq, Eq, Structural, Debug)]
pub enum SlotKind {
    /// A paged search against the remote service.
    Search,
    /// Fetching one randomly chosen entry.
    RandomPick,
    /// Fetching the extended data of one entry.
    ExtendedFetch,
}

/// Which page movement a search job serves.
#[derive(Clone, Copy, PartialEq, Eq, Structural, Debug)]
pub enum PageContext {
    /// A fresh search from user input.
    Initial,
    /// Advancing to the next result page.
    NextPage,
    /// Returning to the previous result page.
    PreviousPage,
}

/// The request a job was started for.
pub enum JobRequest {
    /// Search for `query`; `page` records which page movement it serves.
    Search { query: SearchQuery, page: PageContext },
    /// Fetch one randomly chosen entry.
    RandomPick,
    /// Fetch extended data for the entry `entity_id`.
    ExtendedFetch { entity_id: i32 },
}

impl JobRequest {
    /// The slot this request occupies.
    pub open spec fn spec_slot(&self) -> SlotKind {
        match self {
            JobRequest::Search { .. } => SlotKind::Search,
            JobRequest::RandomPick => SlotKind::RandomPick,
            JobRequest::ExtendedFetch { .. } => SlotKind::ExtendedFetch,
        }
    }

    /// The slot this request occupies.
    pub fn slot(&self) -> (k: SlotKind)
        ensures
            k == self.spec_slot(),
    {
        match self {
            JobRequest::Search { .. } => SlotKind::Search,
            JobRequest::RandomPick => SlotKind::RandomPick,
            JobRequest::ExtendedFetch { .. } => SlotKind::ExtendedFetch,
        }
    }
}

/// How the caller saw a task end.
pub enum TaskTermination {
    /// The task ran to completion and its collaborator call succeeded.
    Done,
    /// The task ran to completion but the collaborator reported an error.
    Error(String),
    /// The runtime reported that the task panicked.
    Panicked,
    /// The runtime reported that the task was aborted.
    Aborted,
}

/// The terminal outcome of a job, as delivered to application state.
pub enum JobOutcome {
    /// The job's collaborator call succeeded; its payload stays with the
    /// caller, who holds the task's result.
    Success,
    /// The collaborator reported the contained error message.
    Failure(String),
    /// The task was aborted or ended abnormally before producing a result.
    Cancelled,
}

/// One delivered outcome, paired with the request that produced it.
pub struct OutcomeEvent {
    /// The request the finished job was started for.
    pub request: JobRequest,
    /// The time `start` recorded for the job.
    pub started_at: i64,
    /// The classified outcome.
    pub outcome: JobOutcome,
    /// True when the task ended through a panic rather than a normal
    /// return or an abort; kept distinct for observability.
    pub abnormal: bool,
}

/// What the caller must do after `start`: abort the old task, if any, and
/// run the new one under the fresh id.
pub struct StartCommand {
    /// The id the new job runs under.
    pub job_id: u64,
    /// The id of the superseded job whose task should be aborted.
    pub abort: Option<u64>,
}

/// A job currently occupying a slot.
pub struct ActiveJob {
    /// The id `start` assigned; ids are never reused.
    pub id: u64,
    /// The request the job was started for.
    pub request: JobRequest,
    /// The time `start` was called.
    pub started_at: i64,
    /// True once `cancel` was called; the eventual outcome is then
    /// discarded instead of delivered.
    pub cancelled: bool,
}

/// Classification of a task termination into a job outcome: collaborator
/// errors surface as failures, aborts and panics as cancellation.
pub open spec fn spec_classify(term: TaskTermination) -> JobOutcome {
    match term {
        TaskTermination::Done => JobOutcome::Success,
        TaskTermination::Error(m) => JobOutcome::Failure(m),
        TaskTermination::Panicked => JobOutcome::Cancelled,
        TaskTermination::Aborted => JobOutcome::Cancelled,
    }
}

/// Owns the three job slots and the id counter.
pub struct JobSupervisor {
    /// Ids `0 .. next_id` have been handed out already.
    pub next_id: u64,
    /// The search slot.
    pub search: Option<ActiveJob>,
    /// The random-pick slot.
    pub random: Option<ActiveJob>,
    /// The extended-fetch slot.
    pub extended: Option<ActiveJob>,
}

impl JobSupervisor {
    /// The job occupying slot `k`.
    pub open spec fn spec_slot(self, k: SlotKind) -> Option<ActiveJob> {
        match k {
            SlotKind::Search => self.search,
            SlotKind::RandomPick => self.random,
            SlotKind::ExtendedFetch => self.extended,
        }
    }

    /// `self` with slot `k` replaced by `v`.
    pub open spec fn with_slot(self, k: SlotKind, v: Option<ActiveJob>) -> JobSupervisor {
        match k {
            SlotKind::Search => JobSupervisor { search: v, ..self },
            SlotKind::RandomPick => JobSupervisor { random: v, ..self },
            SlotKind::ExtendedFetch => JobSupervisor { extended: v, ..self },
        }
    }

    /// Well-formedness: every live id was handed out, and no id occupies
    /// two slots.
    pub open spec fn wf(self) -> bool {
        &&& (self.search matches Some(j) ==> j.id < self.next_id
            && j.request.spec_slot() == SlotKind::Search)
        &&& (self.random matches Some(j) ==> j.id < self.next_id
            && j.request.spec_slot() == SlotKind::RandomPick)
        &&& (self.extended matches Some(j) ==> j.id < self.next_id
            && j.request.spec_slot() == SlotKind::ExtendedFetch)
        &&& match (self.search, self.random) {
            (Some(a), Some(b)) => a.id != b.id,
            _ => true,
        }
        &&& match (self.search, self.extended) {
            (Some(a), Some(b)) => a.id != b.id,
            _ => true,
        }
        &&& match (self.random, self.extended) {
            (Some(a), Some(b)) => a.id != b.id,
            _ => true,
        }
    }

    /// True when slot `k` holds a job that has not been cancelled.
    pub open spec fn spec_busy(self, k: SlotKind) -> bool {
        match self.spec_slot(k) {
            Some(j) => !j.cancelled,
            None => false,
        }
    }

    /// The state after starting `request` at `now`: the request's slot is
    /// reassigned to a fresh id and the counter advances.
    pub open spec fn spec_start(self, request: JobRequest, now: i64) -> JobSupervisor {
        self.with_slot(
            request.spec_slot(),
            Some(
                ActiveJob {
                    id: self.next_id,
                    request,
                    started_at: now,
                    cancelled: false,
                },
            ),
        ).with_counter((self.next_id + 1) as u64)
    }

    /// `self` with the id counter replaced.
    pub open spec fn with_counter(self, next_id: u64) -> JobSupervisor {
        JobSupervisor { next_id, ..self }
    }

    /// The state after cancelling slot `k`: an occupied slot stays
    /// occupied but is marked cancelled, so its eventual outcome is
    /// discarded.
    pub open spec fn spec_cancel(self, k: SlotKind) -> JobSupervisor {
        match self.spec_slot(k) {
            Some(j) => self.with_slot(k, Some(ActiveJob { cancelled: true, ..j })),
            None => self,
        }
    }

    /// The state and delivered event after the caller reports that the
    /// task for `job_id` in slot `k` ended as `term`. A report for a job
    /// the slot no longer holds changes nothing and delivers nothing; a
    /// report for a cancelled job clears the slot but its outcome is
    /// discarded.
    pub open spec fn spec_finish(
        self,
        k: SlotKind,
        job_id: u64,
        term: TaskTermination,
    ) -> (JobSupervisor, Option<OutcomeEvent>) {
        match self.spec_slot(k) {
            Some(j) => {
                if j.id == job_id {
                    let cleared = self.with_slot(k, None);
                    if j.cancelled {
                        (cleared, None)
                    } else {
                        (
                            cleared,
                            Some(
                                OutcomeEvent {
                                    request: j.request,
                                    started_at: j.started_at,
                                    outcome: spec_classify(term),
                                    abnormal: term is Panicked,
                                },
                            ),
                        )
                    }
                } else {
                    (self, None)
                }
            },
            None => (self, None),
        }
    }

    /// A supervisor with all slots idle.
    pub fn new() -> (r: JobSupervisor)
        ensures
            r.wf(),
            r.next_id == 0,
            r.search is None,
            r.random is None,
            r.extended is None,
    {
        JobSupervisor { next_id: 0, search: None, random: None, extended: None }
    }

    /// True when slot `k` holds a job that has not been cancelled.
    pub fn is_busy(&self, k: SlotKind) -> (r: bool)
        ensures
            r == self.spec_busy(k),
    {
        let slot = match k {
            SlotKind::Search => &self.search,
            SlotKind::RandomPick => &self.random,
            SlotKind::ExtendedFetch => &self.extended,
        };
        match slot {
            Some(j) => !j.cancelled,
            None => false,
        }
    }

    /// Start a job for `request`: the slot it belongs to is reassigned to
    /// a fresh id, and the command names the superseded job, if any, whose
    /// task the caller must abort.
    pub fn start(&mut self, request: JobRequest, now: i64) -> (r: StartCommand)
        requires
            old(self).wf(),
            old(self).next_id < u64::MAX,
        ensures
            final(self).wf(),
            *final(self) == old(self).spec_start(request, now),
            r.job_id == old(self).next_id,
            r.abort == match old(self).spec_slot(request.spec_slot()) {
                Some(j) => Some(j.id),
                None => None,
            },
    {
        let k = request.slot();
        let id = self.next_id;
        self.next_id = self.next_id + 1;
        let slot = match k {
            SlotKind::Search => &mut self.search,
            SlotKind::RandomPick => &mut self.random,
            SlotKind::ExtendedFetch => &mut self.extended,
        };
        let previous = slot.take();
        *slot = Some(ActiveJob { id, request, started_at: now, cancelled: false });
        let abort = match previous {
            Some(j) => Some(j.id),
            None => None,
        };
        StartCommand { job_id: id, abort }
    }

    /// Cancel the job in slot `k`, if any: the slot is marked cancelled so
    /// that its eventual outcome is discarded, and the returned id names
    /// the task the caller should abort.
    pub fn cancel(&mut self, k: SlotKind) -> (r: Option<u64>)
        requires
            old(self).wf(),
        ensures
            final(self).wf(),
            *final(self) == old(self).spec_cancel(k),
            r == match old(self).spec_slot(k) {
                Some(j) => Some(j.id),
                None => None,
            },
    {
        let slot = match k {
            SlotKind::Search => &mut self.search,
            SlotKind::RandomPick => &mut self.random,
            SlotKind::ExtendedFetch => &mut self.extended,
        };
        match slot {
            Some(j) => {
                let id = j.id;
                j.cancelled = true;
                Some(id)
            },
            None => None,
        }
    }

    /// Report that the task for `job_id` in slot `k` ended as `term`.
    /// Exactly the currently held job clears its slot; its outcome is
    /// delivered unless the job was cancelled or superseded.
    pub fn finish(&mut self, k: SlotKind, job_id: u64, term: TaskTermination) -> (r: Option<
        OutcomeEvent,
    >)
        requires
            old(self).wf(),
        ensures
            final(self).wf(),
            (*final(self), r) == old(self).spec_finish(k, job_id, term),
    {
        let slot = match k {
            SlotKind::Search => &mut self.search,
            SlotKind::RandomPick => &mut self.random,
            SlotKind::ExtendedFetch => &mut self.extended,
        };
        let held = match slot {
            Some(j) => j.id == job_id,
            None => false,
        };
        if !held {
            return None;
        }
        let job = slot.take();
        match job {
            Some(j) => {
                if j.cancelled {
                    None
                } else {
                    let abnormal = matches!(term, TaskTermination::Panicked);
                    let outcome = match term {
                        TaskTermination::Done => JobOutcome::Success,
                        TaskTermination::Error(m) => JobOutcome::Failure(m),
                        TaskTermination::Panicked => JobOutcome::Cancelled,
                        TaskTermination::Aborted => JobOutcome::Cancelled,
                    };
                    Some(
                        OutcomeEvent {
                            request: j.request,
                            started_at: j.started_at,
                            outcome,
                            abnormal,
                        },
                    )
                }
            },
            None => None,
        }
    }
}

/// Single-flight: starting job B while job A occupies the same slot
/// guarantees that A's eventual result is never delivered — only B's
/// terminal outcome is, and the start command for B orders A's task
/// aborted. The requests are arbitrary, so this holds for every slot:
/// search, random pick and extended fetch alike.
pub proof fn lemma_single_flight(
    s: JobSupervisor,
    req_a: JobRequest,
    req_b: JobRequest,
    now_a: i64,
    now_b: i64,
    term_a: TaskTermination,
    term_b: TaskTermination,
)
    requires
        s.wf(),
        s.next_id + 1 < u64::MAX,
        req_a.spec_slot() == req_b.spec_slot(),
    ensures
        ({
            let s1 = s.spec_start(req_a, now_a);
            let id_a = s.next_id;
            let s2 = s1.spec_start(req_b, now_b);
            let id_b = s1.next_id;
            &&& s2.spec_finish(req_a.spec_slot(), id_a, term_a).1 is None
            &&& match s2.spec_slot(req_b.spec_slot()) {
                Some(j) => j.id == id_b,
                None => false,
            }
            &&& s2.spec_finish(req_b.spec_slot(), id_b, term_b).1 matches Some(e)
                && e.outcome == spec_classify(term_b) && e.request == req_b
        }),
{
}

} // verus!
