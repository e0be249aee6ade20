use tubarr::dispatch::{Dispatcher, TaskResult};
use tubarr::jobs::{fire_due, PersistentJob, RecurringJob, RETENTION_SECONDS};
use tubarr::queue::{Task, TaskKind, TaskQueue, TaskState};

fn s(x: &str) -> String {
    x.to_string()
}

fn state(q: &TaskQueue, id: isize) -> TaskState {
    q.state_of(id).expect("task present")
}

#[test]
fn wire_names_round_trip() {
    for k in [TaskKind::VideoDownload, TaskKind::ChannelAdd, TaskKind::ChannelFetch] {
        assert_eq!(TaskKind::from_wire(&k.wire()), Some(k));
    }
    assert_eq!(TaskKind::VideoDownload.wire(), "VIDEO-DOWNLOAD");
    assert_eq!(TaskKind::from_wire("video-download"), None);
    assert_eq!(TaskKind::from_wire("DL-VIDEO"), None);
    assert_eq!(TaskState::from_wire("WIP"), Some(TaskState::Wip));
    assert_eq!(TaskState::Error.wire(), "ERR");
    assert_eq!(TaskState::from_wire("NEW"), None);
}

#[test]
fn enqueue_assigns_increasing_ids_in_wait() {
    let mut q = TaskQueue::new();
    let a = q.enqueue(s("CHANNEL-ADD"), s("{}"), 10);
    let b = q.enqueue(s("CHANNEL-ADD"), s("{}"), 11);
    assert_eq!((a, b), (1, 2));
    assert_eq!(state(&q, a), TaskState::Wait);
    assert_eq!(q.tasks[1].created_at, 11);
    assert_eq!(q.tasks[1].retry_count, 0);
}

#[test]
fn claim_waiting_is_fifo_and_bounded() {
    let mut q = TaskQueue::new();
    for _ in 0..4 {
        q.enqueue(s("CHANNEL-ADD"), s("{}"), 0);
    }
    q.mark(1, TaskState::Wip, 1);
    assert_eq!(q.claim_waiting(2), vec![2, 3]);
    assert_eq!(q.claim_waiting(10), vec![2, 3, 4]);
    assert_eq!(q.claim_waiting(0), Vec::<isize>::new());
}

#[test]
fn mark_on_finished_task_is_a_no_op() {
    let mut q = TaskQueue::new();
    let id = q.enqueue(s("CHANNEL-ADD"), s("{}"), 0);
    assert!(q.mark(id, TaskState::Wip, 1));
    assert!(q.mark(id, TaskState::Done, 2));
    assert!(!q.mark(id, TaskState::Error, 3));
    assert!(!q.mark(id, TaskState::Wip, 3));
    assert_eq!(state(&q, id), TaskState::Done);
    assert_eq!(q.tasks[0].updated_at, 2);
    assert!(!q.mark(99, TaskState::Wip, 3));
}

#[test]
fn retry_requeues_then_fails() {
    let mut q = TaskQueue::new();
    let id = q.enqueue(s("CHANNEL-ADD"), s("{}"), 0);
    for round in 0..2u32 {
        q.mark(id, TaskState::Wip, 1);
        q.mark(id, TaskState::Error, 2);
        q.retry_failed(2, 3);
        assert_eq!(state(&q, id), TaskState::Wait);
        assert_eq!(q.tasks[0].retry_count, round + 1);
    }
    q.mark(id, TaskState::Wip, 4);
    q.mark(id, TaskState::Error, 5);
    q.retry_failed(2, 6);
    assert_eq!(state(&q, id), TaskState::Fail);
    assert_eq!(q.tasks[0].retry_count, 2);
    q.retry_failed(2, 7);
    assert_eq!(state(&q, id), TaskState::Fail);
}

#[test]
fn permanent_failures_are_not_retried() {
    let mut d = Dispatcher::new(TaskQueue::new(), 2, 0);
    let bad = d.enqueue(s("VIDEO-DOWNLOAD"), s("not json"), 0);
    let flaky = d.enqueue(s("VIDEO-DOWNLOAD"), s("{}"), 0);
    d.tick(1);
    assert!(d.complete(TaskResult::Failure(bad, -500), 2));
    assert!(d.complete(TaskResult::Failure(flaky, -504), 2));
    d.retry_failed(3, 3);
    assert_eq!(d.queue.state_of(bad), Some(TaskState::Error));
    assert_eq!(d.queue.tasks[0].error_code, -500);
    assert_eq!(d.queue.tasks[0].retry_count, 0);
    assert_eq!(d.queue.state_of(flaky), Some(TaskState::Wait));
    assert_eq!(d.queue.tasks[1].retry_count, 1);
}

#[test]
fn sweep_keeps_recent_and_unfinished_tasks() {
    let mut q = TaskQueue::new();
    let old_done = q.enqueue(s("CHANNEL-ADD"), s("{}"), 0);
    let new_done = q.enqueue(s("CHANNEL-ADD"), s("{}"), 0);
    let old_err = q.enqueue(s("CHANNEL-ADD"), s("{}"), 0);
    let waiting = q.enqueue(s("CHANNEL-ADD"), s("{}"), 0);
    q.mark(old_done, TaskState::Wip, 100);
    q.mark(old_done, TaskState::Done, 100);
    q.mark(new_done, TaskState::Wip, 100);
    q.mark(new_done, TaskState::Done, 50_000);
    q.mark(old_err, TaskState::Wip, 100);
    q.mark(old_err, TaskState::Error, 100);
    q.sweep_stale(100 + RETENTION_SECONDS, RETENTION_SECONDS);
    let ids: Vec<isize> = q.tasks.iter().map(|t| t.id).collect();
    assert_eq!(ids, vec![new_done, old_err, waiting]);
    q.sweep_stale(50_000 + RETENTION_SECONDS - 1, RETENTION_SECONDS);
    assert_eq!(q.tasks.len(), 3);
}

#[test]
fn restore_accepts_only_rising_ids() {
    let mut q = TaskQueue::new();
    let t = |id: isize| Task {
        id,
        kind: s("CHANNEL-ADD"),
        payload: s("{}"),
        state: TaskState::Wip,
        retry_count: 0,
        error_code: 0,
        created_at: 0,
        updated_at: 0,
    };
    assert!(q.restore(t(5)));
    assert!(!q.restore(t(5)));
    assert!(!q.restore(t(3)));
    assert!(q.restore(t(9)));
    assert_eq!(q.next_id, 10);
    let d = Dispatcher::new(q, 3, 20);
    assert_eq!(d.queue.state_of(5), Some(TaskState::Error));
    assert_eq!(d.queue.tasks[1].updated_at, 20);
}

#[test]
fn second_task_waits_while_budget_is_spent() {
    let mut d = Dispatcher::new(TaskQueue::new(), 1, 0);
    let first = d.enqueue(s("VIDEO-DOWNLOAD"), s("{\"url\":\"a\"}"), 0);
    let second = d.enqueue(s("VIDEO-DOWNLOAD"), s("{\"url\":\"b\"}"), 0);
    let launched = d.tick(1);
    assert_eq!(launched.len(), 1);
    assert_eq!(launched[0].task_id, first);
    assert_eq!(launched[0].kind, TaskKind::VideoDownload);
    assert_eq!(launched[0].payload, "{\"url\":\"a\"}");
    for now in 2..5 {
        assert!(d.tick(now).is_empty());
        assert_eq!(d.queue.state_of(first), Some(TaskState::Wip));
        assert_eq!(d.queue.state_of(second), Some(TaskState::Wait));
    }
    assert!(d.complete(TaskResult::Success(first), 5));
    assert_eq!(d.queue.state_of(first), Some(TaskState::Done));
    let next = d.tick(6);
    assert_eq!(next.len(), 1);
    assert_eq!(next[0].task_id, second);
    assert_eq!(d.queue.state_of(second), Some(TaskState::Wip));
}

#[test]
fn claims_are_never_handed_out_twice() {
    let mut d = Dispatcher::new(TaskQueue::new(), 3, 0);
    for _ in 0..5 {
        d.enqueue(s("CHANNEL-FETCH"), s("{}"), 0);
    }
    let a = d.tick(1);
    let b = d.tick(2);
    assert_eq!(a.iter().map(|l| l.task_id).collect::<Vec<_>>(), vec![1, 2, 3]);
    assert!(b.is_empty());
    assert!(d.complete(TaskResult::Failure(2, -500), 3));
    let c = d.tick(4);
    assert_eq!(c.iter().map(|l| l.task_id).collect::<Vec<_>>(), vec![4]);
    assert_eq!(d.in_flight, vec![1, 3, 4]);
    assert_eq!(d.queue.state_of(2), Some(TaskState::Error));
}

#[test]
fn unknown_kind_goes_to_error_without_launch() {
    let mut d = Dispatcher::new(TaskQueue::new(), 3, 0);
    let bad = d.enqueue(s("DL-VIDEO"), s("{}"), 0);
    let good = d.enqueue(s("CHANNEL-ADD"), s("{}"), 0);
    let launched = d.tick(1);
    assert_eq!(launched.len(), 1);
    assert_eq!(launched[0].task_id, good);
    assert_eq!(d.queue.state_of(bad), Some(TaskState::Error));
    assert_eq!(d.queue.tasks[0].error_code, -509);
    assert_eq!(d.in_flight, vec![good]);
    d.retry_failed(3, 2);
    assert_eq!(d.queue.state_of(bad), Some(TaskState::Error));
    assert_eq!(d.queue.tasks[0].retry_count, 0);
}

#[test]
fn outcome_reported_twice_is_ignored() {
    let mut d = Dispatcher::new(TaskQueue::new(), 2, 0);
    let id = d.enqueue(s("CHANNEL-ADD"), s("{}"), 0);
    d.tick(1);
    assert!(d.complete(TaskResult::Failure(id, -400), 2));
    assert!(!d.complete(TaskResult::Success(id), 3));
    assert_eq!(d.queue.state_of(id), Some(TaskState::Error));
    assert!(!d.complete(TaskResult::Success(42), 3));
    assert!(d.in_flight.is_empty());
}

#[test]
fn every_task_reaches_a_terminal_state() {
    let mut d = Dispatcher::new(TaskQueue::new(), 2, 0);
    let ok = d.enqueue(s("CHANNEL-ADD"), s("{}"), 0);
    let bad = d.enqueue(s("CHANNEL-ADD"), s("{}"), 0);
    let mut now = 1;
    for _ in 0..10 {
        for l in d.tick(now) {
            let r = if l.task_id == ok {
                TaskResult::Success(l.task_id)
            } else {
                TaskResult::Failure(l.task_id, -505)
            };
            assert!(d.complete(r, now));
        }
        d.retry_failed(3, now);
        now += 1;
    }
    assert_eq!(d.queue.state_of(ok), Some(TaskState::Done));
    assert_eq!(d.queue.state_of(bad), Some(TaskState::Fail));
    assert_eq!(d.queue.tasks[1].retry_count, 3);
    assert!(d.in_flight.is_empty());
}

#[test]
fn shutdown_stops_claims_but_records_outcomes() {
    let mut d = Dispatcher::new(TaskQueue::new(), 2, 0);
    let a = d.enqueue(s("CHANNEL-ADD"), s("{}"), 0);
    d.tick(1);
    let b = d.enqueue(s("CHANNEL-ADD"), s("{}"), 1);
    d.request_shutdown();
    assert!(d.tick(2).is_empty());
    assert!(d.complete(TaskResult::Success(a), 3));
    assert_eq!(d.queue.state_of(a), Some(TaskState::Done));
    assert_eq!(d.queue.state_of(b), Some(TaskState::Wait));
}

#[test]
fn take_in_accepts_new_waiting_rows() {
    let mut d = Dispatcher::new(TaskQueue::new(), 2, 0);
    let t = |id: isize, st: TaskState| Task {
        id,
        kind: s("CHANNEL-ADD"),
        payload: s("{}"),
        state: st,
        retry_count: 0,
        error_code: 0,
        created_at: 0,
        updated_at: 0,
    };
    assert!(d.take_in(t(7, TaskState::Wait)));
    assert!(!d.take_in(t(8, TaskState::Wip)));
    assert!(!d.take_in(t(7, TaskState::Wait)));
    assert_eq!(d.tick(1)[0].task_id, 7);
}

fn job(name: &str, last: u64, interval: u64) -> PersistentJob {
    PersistentJob { id: 1, name: s(name), last_exec: last, interval }
}

#[test]
fn job_names_are_known() {
    assert_eq!(RecurringJob::from_name("DB-CLEAN-TASKS"), Some(RecurringJob::CleanTasks));
    assert_eq!(RecurringJob::from_name("BG-CHANNEL-FETCH"), Some(RecurringJob::ChannelRefresh));
    assert_eq!(RecurringJob::from_name("db-clean-tasks"), None);
}

#[test]
fn jobs_fire_no_more_often_than_their_interval() {
    let mut jobs = vec![job("DB-CLEAN-TASKS", 1000, 14400), job("BG-CHANNEL-FETCH", 0, 28800)];
    assert_eq!(fire_due(&mut jobs, 15399), Vec::<usize>::new());
    assert_eq!(fire_due(&mut jobs, 15400), vec![0]);
    assert_eq!(jobs[0].last_exec, 15400);
    // the clock steps back: nothing is due
    assert_eq!(fire_due(&mut jobs, 15000), Vec::<usize>::new());
    assert_eq!(fire_due(&mut jobs, 28800), vec![1]);
    // a failed run keeps its stamp: the next tick does not fire again
    assert_eq!(fire_due(&mut jobs, 28801), Vec::<usize>::new());
    assert_eq!(fire_due(&mut jobs, 29799), Vec::<usize>::new());
    assert_eq!(fire_due(&mut jobs, 29800), vec![0]);
    assert!(jobs[1].due(57600));
    assert!(!jobs[1].due(57599));
}
