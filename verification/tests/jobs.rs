use clipforge::jobs::{Cancelled, JobError, JobEvent, JobId, Priority, Progress};

#[test]
fn priorities_order_interactive_first() {
    let mut v = vec![Priority::Idle, Priority::Background, Priority::Interactive, Priority::Soon];
    v.sort();
    assert_eq!(v, [Priority::Interactive, Priority::Soon, Priority::Background, Priority::Idle]);
}

#[test]
fn progress_fraction() {
    assert_eq!(Progress::indeterminate("x").completion(), None);
    assert_eq!(Progress::of(1, 4, "x").completion(), Some((1, 4)));
    assert_eq!(Progress::of(9, 4, "x").completion(), Some((4, 4)));
    assert_eq!(Progress::of(0, 0, "x").completion(), Some((1, 1)));
}

#[test]
fn events_carry_their_job_id() {
    let id = JobId(7);
    assert_eq!(JobEvent::Started { id }.id(), id);
    let e = JobEvent::Progress { id, progress: Progress::of(1, 2, "half") };
    assert_eq!(e.clone(), e);
    assert_eq!(e.id(), id);
    let f = JobEvent::Finished { id, outcome: Err(JobError::from_cancelled(Cancelled)) };
    assert_eq!(f.id(), id);
    assert_eq!(f.clone(), JobEvent::Finished { id, outcome: Err(JobError::Cancelled) });
    assert_eq!(Progress::of(3, 5, "m").message, "m");
}
