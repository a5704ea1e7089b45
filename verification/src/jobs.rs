//! Background job primitives: priorities, progress snapshots, job ids
//! and the events a job's owner receives.

use vstd::prelude::*;

verus! {

/// Scheduling priority. Lower variants run first.
#[derive(Copy, Clone, Debug, PartialEq, Eq, PartialOrd, Ord, Hash, Structural)]
pub enum Priority {
    /// The user is waiting for this right now (visible thumbnail, scrub frame).
    Interactive,
    /// Needed very soon (items just outside the viewport, next clips).
    Soon,
    /// Regular background work (probing, full-size thumbnails).
    Background,
    /// Only when nothing else is pending (proxies, cache maintenance).
    Idle,
}

/// Error returned when a job observed cancellation.
#[derive(Copy, Clone, Debug, PartialEq, Eq, Structural)]
pub struct Cancelled;

/// A progress snapshot. `total` is `None` while the amount of work is
/// unknown.
#[derive(Clone, Debug, PartialEq, Eq)]
pub struct Progress {
    pub done: u64,
    pub total: Option<u64>,
    pub message: String,
}

impl Progress {
    pub fn indeterminate(message: &str) -> (p: Progress)
        ensures
            p.done == 0,
            p.total is None,
            p.message@ == message@,
    {
        Progress { done: 0, total: None, message: message.to_owned() }
    }

    pub fn of(done: u64, total: u64, message: &str) -> (p: Progress)
        ensures
            p.done == done,
            p.total == Some(total),
            p.message@ == message@,
    {
        Progress { done, total: Some(total), message: message.to_owned() }
    }

    /// Completion as a fraction `(part, whole)` with `part <= whole`: the
    /// work done, capped at the total, over the total; `(1, 1)` when the
    /// total is zero; `None` when indeterminate.
    pub fn completion(&self) -> (c: Option<(u64, u64)>)
        ensures
            c == (match self.total {
                None => None,
                Some(t) => if t == 0 {
                    Some((1u64, 1u64))
                } else {
                    Some((if self.done < t { self.done } else { t }, t))
                },
            }),
    {
        match self.total {
            None => None,
            Some(t) => if t == 0 {
                Some((1, 1))
            } else {
                Some((if self.done < t { self.done } else { t }, t))
            },
        }
    }
}

/// Identifies a submitted job.
#[derive(Copy, Clone, Debug, PartialEq, Eq, Hash, PartialOrd, Ord, Structural)]
pub struct JobId(pub u64);

/// Why a job did not complete normally.
#[derive(Clone, Debug, PartialEq, Eq)]
pub enum JobError {
    Cancelled,
    /// The job body returned an error message meant for logs and the UI.
    Failed(String),
    /// The job body panicked. The message is what could be extracted.
    Panicked(String),
}

impl JobError {
    /// The error a cancelled job reports.
    pub fn from_cancelled(_c: Cancelled) -> (e: JobError)
        ensures
            e is Cancelled,
    {
        JobError::Cancelled
    }
}

/// Lifecycle notifications, in order per job: `Started`, any number of
/// `Progress`, then exactly one `Finished`. Cancelled-before-start jobs emit
/// only `Finished(Err(Cancelled))`.
#[derive(Debug, PartialEq, Eq)]
pub enum JobEvent {
    Started { id: JobId },
    Progress { id: JobId, progress: Progress },
    Finished { id: JobId, outcome: Result<(), JobError> },
}

impl Clone for JobEvent {
    fn clone(&self) -> (e: JobEvent)
        ensures
            e.id_spec() == self.id_spec(),
    {
        match self {
            JobEvent::Started { id } => JobEvent::Started { id: *id },
            JobEvent::Progress { id, progress } => JobEvent::Progress { id: *id, progress: progress.clone() },
            JobEvent::Finished { id, outcome } => JobEvent::Finished {
                id: *id,
                outcome: match outcome {
                    Ok(()) => Ok(()),
                    Err(e) => Err(e.clone()),
                },
            },
        }
    }
}

impl JobEvent {
    pub open spec fn id_spec(&self) -> JobId {
        match self {
            JobEvent::Started { id } => *id,
            JobEvent::Progress { id, .. } => *id,
            JobEvent::Finished { id, .. } => *id,
        }
    }

    pub fn id(&self) -> (i: JobId)
        ensures
            i == (match self {
                JobEvent::Started { id } => *id,
                JobEvent::Progress { id, .. } => *id,
                JobEvent::Finished { id, .. } => *id,
            }),
    {
        match self {
            JobEvent::Started { id } => *id,
            JobEvent::Progress { id, .. } => *id,
            JobEvent::Finished { id, .. } => *id,
        }
    }
}

} // verus!
