use clipforge::jobs::{JobId, Priority};
use clipforge::queue::JobQueue;

#[test]
fn manual_scheduler_runs_by_priority_then_fifo() {
    let mut q = JobQueue::new();
    let mut tags = std::collections::HashMap::new();
    tags.insert(q.submit(Priority::Idle), "idle");
    tags.insert(q.submit(Priority::Background), "bg1");
    tags.insert(q.submit(Priority::Interactive), "hot");
    tags.insert(q.submit(Priority::Background), "bg2");
    assert_eq!(q.len(), 4);
    let mut order = Vec::new();
    while let Some(id) = q.pop_next() {
        order.push(tags[&id]);
    }
    assert_eq!(order, ["hot", "bg1", "bg2", "idle"]);
    assert_eq!(q.pop_next(), None);
}

#[test]
fn cancelling_a_queued_job_drops_it_and_reports() {
    let mut q = JobQueue::new();
    let id = q.submit(Priority::Background);
    assert!(q.remove(id));
    assert_eq!(q.len(), 0);
    assert_eq!(q.pop_next(), None);
    assert!(!q.remove(id), "a job is only removed once");
}

#[test]
fn reprioritize_moves_queued_jobs() {
    let mut q = JobQueue::new();
    let a = q.submit(Priority::Idle);
    let b = q.submit(Priority::Background);
    assert!(q.reprioritize(a, Priority::Interactive));
    assert!(q.reprioritize(a, Priority::Interactive), "same priority is a no-op success");
    assert_eq!(q.pop_next(), Some(a));
    assert_eq!(q.pop_next(), Some(b));
    assert!(!q.reprioritize(a, Priority::Idle), "finished jobs cannot be moved");
}

#[test]
fn cancel_all_queued_reports_each() {
    let mut q = JobQueue::new();
    let ids: Vec<JobId> = (0..3).map(|_| q.submit(Priority::Idle)).collect();
    let drained = q.drain();
    assert_eq!(q.len(), 0);
    assert_eq!(drained, ids);
}

#[test]
fn ids_count_up_from_one() {
    let mut q = JobQueue::new();
    assert_eq!(q.submit(Priority::Soon), JobId(1));
    assert_eq!(q.submit(Priority::Soon), JobId(2));
    assert_eq!(q.pop_next(), Some(JobId(1)));
    assert_eq!(q.submit(Priority::Interactive), JobId(3));
    assert_eq!(q.drain(), vec![JobId(3), JobId(2)]);
}
