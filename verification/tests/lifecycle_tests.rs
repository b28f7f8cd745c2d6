use sprint_poker::lifecycle::{Job, JobRunner, TaskKind};
use sprint_poker::registry::Registry;

#[test]
fn queue_delete_is_idempotent() {
    // Queueing the same session twice has the same effect as queueing it
    // once.
    let mut reg = Registry::new();
    let mut once = JobRunner::new();
    let mut twice = JobRunner::new();
    let sid = reg.create();

    once.run(&mut reg, Job::QueueDelete(sid));
    twice.run(&mut reg, Job::QueueDelete(sid));
    twice.run(&mut reg, Job::QueueDelete(sid));
    assert!(once.is_queued(sid));
    assert!(twice.is_queued(sid));

    // Either way, one sweep removes the session.
    twice.run(&mut reg, Job::Drain);
    assert!(!twice.is_queued(sid));
    assert!(!reg.has_session(sid));
}

#[test]
fn keep_alive_on_unqueued_session_is_noop() {
    let mut reg = Registry::new();
    let mut runner = JobRunner::new();
    let queued_id = reg.create();
    let other_id = reg.create();

    runner.run(&mut reg, Job::QueueDelete(queued_id));
    assert!(!runner.is_queued(other_id));
    runner.run(&mut reg, Job::KeepAlive(other_id));
    assert!(runner.is_queued(queued_id));
    assert!(!runner.is_queued(other_id));
    assert!(reg.has_session(queued_id));
    assert!(reg.has_session(other_id));
}

#[test]
fn keep_alive_rescues_before_drain() {
    // A session queued for deletion and then kept alive before the next
    // sweep is never removed.
    let mut reg = Registry::new();
    let mut runner = JobRunner::new();
    let sid = reg.create();

    runner.run(&mut reg, Job::QueueDelete(sid));
    runner.run(&mut reg, Job::KeepAlive(sid));
    runner.run(&mut reg, Job::Drain);
    assert!(reg.has_session(sid));
}

#[test]
fn drain_removes_queued_sessions_only() {
    // A session still queued at sweep time is removed and becomes unknown;
    // unqueued sessions survive.
    let mut reg = Registry::new();
    let mut runner = JobRunner::new();
    let doomed = reg.create();
    let kept = reg.create();

    runner.run(&mut reg, Job::QueueDelete(doomed));
    runner.run(&mut reg, Job::Drain);
    assert!(!reg.has_session(doomed));
    assert!(reg.has_session(kept));
    assert!(!runner.is_queued(doomed));
}

#[test]
fn drain_on_empty_queue_keeps_everything() {
    let mut reg = Registry::new();
    let mut runner = JobRunner::new();
    let sid = reg.create();
    runner.run(&mut reg, Job::Drain);
    assert!(reg.has_session(sid));
}

#[test]
fn job_kinds() {
    assert!(matches!(Job::KeepAlive(1).kind(), TaskKind::KeepAlive));
    assert!(matches!(Job::QueueDelete(1).kind(), TaskKind::QueueDelete));
    assert!(matches!(Job::Drain.kind(), TaskKind::Delete));
}
