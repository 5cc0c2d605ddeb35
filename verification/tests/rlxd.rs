use fibre::oneshot::{exclusive, ExclusiveReceiver, ExclusiveSender};

use futures_orchestra::execution::{relaxed_step, FuturePoll, RelaxedStep};
use futures_orchestra::manager::{ResumeStep, WorkerAction};
use futures_orchestra::notifier::{CompletionSink, NotifierAction};
use futures_orchestra::rlxd::RlxdSubmission;
use futures_orchestra::shutdown::{ShutdownAction, ShutdownEvent};
use futures_orchestra::task::LabelSet;
use futures_orchestra::{
    FuturePoolManagerRlxd, PoolError, ShutdownMode, TaskCompletionStatus, TaskHandle,
};

type Outcome = Result<u64, PoolError>;
type Receiver = ExclusiveReceiver<Outcome>;
type Handle = TaskHandle<Receiver>;

/// The work of a task: what its future will do, where the result goes, and
/// whether the work was boxed on its way.
struct Job {
    end: FuturePoll<u64>,
    tx: ExclusiveSender<Outcome>,
    boxed: bool,
}

/// Drives a relaxed pool step by step, as a runtime would.
struct Driver {
    pool: FuturePoolManagerRlxd<Job, u8>,
    running: Vec<(u64, Job)>,
    started: Vec<u64>,
    seen: Vec<(u64, TaskCompletionStatus)>,
    polls: usize,
}

fn labels(names: &[&str]) -> LabelSet {
    LabelSet::from_labels(names.iter().map(|s| (*s).to_string()).collect())
}

fn boxed(job: Job) -> Job {
    Job { boxed: true, ..job }
}

impl Driver {
    fn new(limit: usize, capacity: usize, dispatchers: usize, name: &str) -> Driver {
        Driver {
            pool: FuturePoolManagerRlxd::new(limit, capacity, dispatchers, name),
            running: Vec::new(),
            started: Vec::new(),
            seen: Vec::new(),
            polls: 0,
        }
    }

    fn accept(&mut self, submission: RlxdSubmission<Job, Receiver>) -> Handle {
        match submission {
            RlxdSubmission::Started(handle, job) => {
                self.started.push(handle.id());
                self.running.push((handle.id(), job));
                handle
            }
            RlxdSubmission::Queued(handle) => handle,
            RlxdSubmission::Waiting(_) => panic!("the queue is full"),
        }
    }

    fn submit(&mut self, names: &[&str], end: FuturePoll<u64>) -> Handle {
        let (tx, rx) = exclusive();
        let job = Job {
            end,
            tx,
            boxed: true,
        };
        match self.pool.submit(labels(names), job, rx) {
            Ok(submission) => self.accept(submission),
            Err(refusal) => panic!("{}", refusal.error.message()),
        }
    }

    fn submit_future(&mut self, value: u64) -> Handle {
        let (tx, rx) = exclusive();
        let job = Job {
            end: FuturePoll::Returned(value),
            tx,
            boxed: false,
        };
        match self.pool.submit_future(LabelSet::new(), job, boxed, rx) {
            Ok(submission) => self.accept(submission),
            Err(refusal) => panic!("{}", refusal.error.message()),
        }
    }

    /// Runs the dispatch loop of `lane` until it waits or ends; tells whether it
    /// ended.
    fn dispatch_lane(&mut self, lane: usize) -> bool {
        loop {
            match self.pool.poll_lane(lane) {
                WorkerAction::Wait => return false,
                WorkerAction::Stop(_) => return true,
                WorkerAction::Cancelled(task) => {
                    let _ = task.work.tx.send(Err(PoolError::TaskCancelled));
                }
                WorkerAction::Start(task) => {
                    self.started.push(task.core.task_id());
                    self.running.push((task.core.task_id(), task.work));
                }
            }
        }
    }

    fn dispatch(&mut self) {
        for lane in 0..self.pool.lane_count() {
            self.dispatch_lane(lane);
        }
    }

    fn finish(&mut self, id: u64) -> bool {
        let at = self
            .running
            .iter()
            .position(|(running, _)| *running == id)
            .expect("the task does not run");
        let (_, job) = self.running.remove(at);
        assert!(matches!(relaxed_step::<u64>(None, None), RelaxedStep::Poll));
        self.polls += 1;
        let polled = match relaxed_step(Some(job.end), None) {
            RelaxedStep::Look(polled) => polled,
            _ => panic!("expected a look at the cancellation"),
        };
        let outcome = match relaxed_step(Some(polled), Some(self.pool.is_cancelled(id))) {
            RelaxedStep::Finish(outcome) => outcome,
            _ => panic!("no outcome yet"),
        };
        assert!(self.pool.record_outcome(id, &outcome));
        let _ = job.tx.send(outcome);
        assert!(self.pool.conclude_task(id));
        assert!(self.pool.retire_task(id));
        job.boxed
    }

    fn finish_all(&mut self) {
        while let Some((id, _)) = self.running.first() {
            let id = *id;
            self.finish(id);
        }
    }

    /// Runs the pool until nothing runs and nothing waits.
    fn run_dry(&mut self) {
        self.dispatch();
        while !self.running.is_empty() {
            self.finish_all();
            self.dispatch();
        }
    }

    fn notify(&mut self) -> bool {
        loop {
            match self.pool.next_notification() {
                NotifierAction::Wait => return false,
                NotifierAction::Stop => return true,
                NotifierAction::Discard(_) => {}
                NotifierAction::Deliver(message) => {
                    self.seen.push((message.core.task_id(), message.status));
                }
            }
        }
    }

    fn shutdown(&mut self, mode: ShutdownMode) {
        let (mut run, _) = self.pool.shutdown(mode);
        let mut lane = 0;
        loop {
            let event = match run.action() {
                ShutdownAction::WatchActive(_, _) => {
                    self.finish_all();
                    ShutdownEvent::Tick(self.pool.active_task_count())
                }
                ShutdownAction::JoinWorker(_) => {
                    assert!(self.dispatch_lane(lane));
                    lane += 1;
                    ShutdownEvent::WorkerEnded
                }
                ShutdownAction::JoinNotifier(_) => {
                    assert!(self.notify());
                    ShutdownEvent::NotifierEnded
                }
                ShutdownAction::Finish => return,
            };
            self.pool.shutdown_step(&mut run, event);
        }
    }
}

fn await_result(mut handle: Handle) -> Outcome {
    let received = handle.take_receiver().map(|mut rx| rx.recv_blocking());
    handle.await_result(received)
}

#[test]
fn submit_future_works_on_both_paths() {
    let mut driver = Driver::new(2, 32, 2, "rlxd_unboxed");
    let mut blockers = Vec::new();
    for _ in 0..2 {
        blockers.push(driver.submit_future(0));
    }
    assert_eq!(driver.running.len(), 2);
    let mut queued = Vec::new();
    for i in 1..20 {
        queued.push(driver.submit_future(i * 3));
    }
    assert_eq!(driver.pool.queued_task_count(), 19);
    assert!(!driver.finish(blockers[0].id()), "started past the queue, never boxed");
    assert!(!driver.finish(blockers[1].id()));
    driver.dispatch();
    let (first, _) = driver.running[0];
    assert!(driver.finish(first), "boxed to wait in the queue");
    driver.run_dry();

    for handle in blockers {
        assert_eq!(await_result(handle), Ok(0));
    }
    for (i, handle) in queued.into_iter().enumerate() {
        assert_eq!(await_result(handle), Ok((i as u64 + 1) * 3));
    }
    driver.shutdown(ShutdownMode::Graceful);
}

#[test]
fn tasks_complete_across_dispatchers() {
    let mut driver = Driver::new(8, 64, 4, "rlxd_basic");
    assert_eq!(driver.pool.name(), "rlxd_basic");
    assert_eq!(driver.pool.lane_count(), 4);
    let mut handles = Vec::new();
    for i in 0..500 {
        if driver.pool.queued_task_count() == 64 {
            driver.run_dry();
        }
        handles.push(driver.submit(&[], FuturePoll::Returned(i * 2)));
        assert!(driver.pool.active_task_count() <= 8);
    }
    driver.run_dry();
    for (i, handle) in handles.into_iter().enumerate() {
        assert_eq!(await_result(handle), Ok(i as u64 * 2));
    }
    driver.shutdown(ShutdownMode::Graceful);
}

#[test]
fn cancellation_by_label_stops_running_tasks() {
    let mut driver = Driver::new(4, 16, 2, "rlxd_cancel");
    let mut handles = Vec::new();
    for _ in 0..4 {
        handles.push(driver.submit(&["stoppable"], FuturePoll::Returned(1)));
    }
    driver.dispatch();
    let mut hit = driver.pool.cancel_tasks_by_label(&"stoppable".to_string());
    hit.sort_unstable();
    assert_eq!(hit, vec![0, 1, 2, 3]);
    driver.finish_all();
    for handle in handles {
        assert_eq!(await_result(handle), Err(PoolError::TaskCancelled));
    }
    driver.shutdown(ShutdownMode::Graceful);
}

#[test]
fn rlxd_no_completion_queue_without_a_handler() {
    let mut driver = Driver::new(2, 8, 2, "rlxd_lazy_notifier");
    for i in 0..8 {
        let handle = driver.submit(&[], FuturePoll::Returned(i));
        driver.run_dry();
        assert_eq!(await_result(handle), Ok(i));
    }
    assert_eq!(driver.pool.notifier().sink(), CompletionSink::Unset);
    driver.shutdown(ShutdownMode::Graceful);
}

#[test]
fn completion_handler_sees_every_task() {
    let mut driver = Driver::new(4, 32, 3, "rlxd_handler");
    assert!(driver.pool.add_completion_handler(0));
    let mut handles = Vec::new();
    for i in 0..100 {
        if driver.pool.queued_task_count() == 32 {
            driver.run_dry();
        }
        handles.push(driver.submit(&[], FuturePoll::Returned(i)));
    }
    driver.run_dry();
    for handle in handles {
        assert!(await_result(handle).is_ok());
    }
    driver.shutdown(ShutdownMode::Graceful);
    assert_eq!(driver.seen.len(), 100);
    let mut ids: Vec<u64> = driver.seen.iter().map(|(id, _)| *id).collect();
    ids.sort_unstable();
    assert_eq!(ids, (0..100).collect::<Vec<u64>>());
}

#[test]
fn shutdown_completes_while_other_pool_clone_alive() {
    let mut driver = Driver::new(1, 8, 2, "rlxd_live_clone");
    driver.pool.add_instance();
    let handle = driver.submit(&[], FuturePoll::Returned(5));
    driver.run_dry();
    assert_eq!(await_result(handle), Ok(5));
    driver.shutdown(ShutdownMode::Graceful);
    assert!(!driver.pool.drop_instance());
    assert!(!driver.pool.drop_instance());
}

#[test]
fn forceful_shutdown_cancels_running_tasks() {
    let mut driver = Driver::new(4, 16, 2, "rlxd_forceful");
    let mut handles = Vec::new();
    for _ in 0..4 {
        handles.push(driver.submit(&[], FuturePoll::Returned(1)));
    }
    driver.shutdown(ShutdownMode::ForcefulCancel);
    for handle in handles {
        assert_eq!(await_result(handle), Err(PoolError::TaskCancelled));
    }
}

#[test]
fn panicking_task_reports_and_pool_survives() {
    let mut driver = Driver::new(2, 8, 2, "rlxd_panic");
    let bad = driver.submit(&[], FuturePoll::Panicked);
    driver.run_dry();
    assert_eq!(await_result(bad), Err(PoolError::TaskPanicked));
    let good = driver.submit(&[], FuturePoll::Returned(7));
    driver.run_dry();
    assert_eq!(await_result(good), Ok(7));
    driver.shutdown(ShutdownMode::Graceful);
}

#[test]
fn a_task_starts_directly_only_while_nothing_waits() {
    let mut driver = Driver::new(1, 8, 2, "rlxd_direct");
    driver.submit(&[], FuturePoll::Returned(0));
    assert_eq!(driver.started, vec![0]);
    driver.submit(&[], FuturePoll::Returned(1));
    driver.submit(&[], FuturePoll::Returned(2));
    driver.finish(0);
    driver.submit(&[], FuturePoll::Returned(3));
    assert_eq!(driver.started, vec![0], "the queue is not empty");
    driver.run_dry();
    assert_eq!(driver.started.len(), 4);
}

#[test]
fn a_dispatcher_that_waits_for_a_permit_is_served_before_newcomers() {
    let mut driver = Driver::new(1, 8, 1, "rlxd_one_lane");
    driver.submit(&[], FuturePoll::Returned(0));
    driver.submit(&[], FuturePoll::Returned(1));
    driver.dispatch();
    assert_eq!(driver.pool.queued_task_count(), 0, "the dispatcher holds the task");
    driver.finish(0);
    driver.submit(&[], FuturePoll::Returned(2));
    driver.submit(&[], FuturePoll::Returned(3));
    driver.run_dry();
    assert_eq!(driver.started, vec![0, 1, 2, 3], "one lane is strictly in order");
}

#[test]
fn lanes_drain_independently_and_in_order() {
    let mut driver = Driver::new(2, 16, 2, "rlxd_lanes");
    driver.submit(&[], FuturePoll::Returned(0));
    driver.submit(&[], FuturePoll::Returned(1));
    for i in 2..8 {
        driver.submit(&[], FuturePoll::Returned(i));
    }
    driver.finish_all();
    driver.dispatch_lane(1);
    assert_eq!(driver.started, vec![0, 1, 3, 5], "lane one went ahead of lane zero");
    driver.finish_all();
    driver.dispatch_lane(0);
    assert_eq!(driver.started, vec![0, 1, 3, 5, 2, 4]);
}

#[test]
fn an_idle_lane_pins_no_permit() {
    let mut driver = Driver::new(2, 16, 4, "rlxd_idle");
    driver.dispatch();
    driver.submit(&[], FuturePoll::Returned(0));
    driver.submit(&[], FuturePoll::Returned(1));
    assert_eq!(driver.pool.active_task_count(), 2);
}

#[test]
fn all_limits_are_at_least_one() {
    let mut driver = Driver::new(0, 0, 0, "rlxd_zero");
    assert_eq!(driver.pool.lane_count(), 1);
    driver.submit(&[], FuturePoll::Returned(0));
    driver.submit(&[], FuturePoll::Returned(1));
    assert_eq!(driver.pool.active_task_count(), 1);
    assert_eq!(driver.pool.queued_task_count(), 1);
}

#[test]
fn a_waiting_relaxed_submission_is_refused_in_two_ways() {
    let mut driver = Driver::new(1, 1, 1, "rlxd_refused");
    driver.submit(&[], FuturePoll::Returned(0));
    driver.submit(&[], FuturePoll::Returned(1));
    let mut waiting = Vec::new();
    for _ in 0..2 {
        let (tx, rx) = exclusive();
        let job = Job {
            end: FuturePoll::Returned(2),
            tx,
            boxed: true,
        };
        match driver.pool.submit(LabelSet::new(), job, rx) {
            Ok(RlxdSubmission::Waiting(handle)) => waiting.push(handle),
            _ => panic!("expected the submission to wait"),
        }
    }
    assert!(matches!(driver.pool.resume_submit(2), ResumeStep::Waiting));
    let _ = driver.pool.shutdown(ShutdownMode::Graceful);
    assert!(driver.pool.is_shutting_down());
    assert!(matches!(
        driver.pool.resume_submit(2),
        ResumeStep::Refused(PoolError::PoolShuttingDown, _)
    ));
    assert!(driver.dispatch_lane(0));
    assert!(matches!(
        driver.pool.resume_submit(3),
        ResumeStep::Refused(PoolError::QueueSendChannelClosed, _)
    ));
    assert!(matches!(driver.pool.resume_submit(3), ResumeStep::Unknown));
    assert!(driver.pool.withdraw_submit(3).is_none());
    assert_eq!(driver.pool.next_task_id(), 4);
}

#[test]
fn a_shutdown_refuses_a_waiting_relaxed_submission_although_a_place_is_free() {
    let mut driver = Driver::new(1, 1, 2, "rlxd_refused_lane");
    driver.submit(&[], FuturePoll::Returned(0));
    driver.submit(&[], FuturePoll::Returned(1));
    for _ in 0..2 {
        let (tx, rx) = exclusive();
        let job = Job {
            end: FuturePoll::Returned(2),
            tx,
            boxed: true,
        };
        assert!(matches!(
            driver.pool.submit(LabelSet::new(), job, rx),
            Ok(RlxdSubmission::Waiting(_))
        ));
    }
    let _ = driver.pool.shutdown(ShutdownMode::Graceful);
    assert!(driver.dispatch_lane(1));
    assert_eq!(driver.pool.queued_task_count(), 0);
    assert!(
        matches!(
            driver.pool.resume_submit(2),
            ResumeStep::Refused(PoolError::PoolShuttingDown, _)
        ),
        "the dispatcher of lane zero is still there"
    );
    assert!(
        matches!(
            driver.pool.resume_submit(3),
            ResumeStep::Refused(PoolError::QueueSendChannelClosed, _)
        ),
        "the dispatcher of lane one is gone"
    );
}

#[test]
fn a_waiting_relaxed_submission_gets_the_next_place() {
    let mut driver = Driver::new(1, 1, 2, "rlxd_waits");
    driver.submit(&[], FuturePoll::Returned(0));
    driver.submit(&[], FuturePoll::Returned(1));
    let (tx, rx) = exclusive();
    let job = Job {
        end: FuturePoll::Returned(2),
        tx,
        boxed: true,
    };
    let handle = match driver.pool.submit(LabelSet::new(), job, rx) {
        Ok(RlxdSubmission::Waiting(handle)) => handle,
        _ => panic!("expected the submission to wait"),
    };
    driver.finish(0);
    driver.dispatch();
    assert!(matches!(driver.pool.resume_submit(handle.id()), ResumeStep::Queued));
    driver.run_dry();
    assert_eq!(await_result(handle), Ok(2));
}

#[test]
fn a_task_cancelled_in_its_lane_never_starts() {
    let mut driver = Driver::new(1, 8, 2, "rlxd_precancel");
    assert!(driver.pool.add_completion_handler(0));
    driver.submit(&[], FuturePoll::Returned(0));
    let queued = driver.submit(&["x"], FuturePoll::Returned(1));
    assert!(driver
        .pool
        .cancel_tasks_by_labels(&labels(&["x"]))
        .is_empty());
    driver.pool.cancel(&queued);
    assert!(driver.pool.is_cancellation_requested(&queued));
    driver.run_dry();
    assert_eq!(driver.started, vec![0]);
    assert_eq!(await_result(queued), Err(PoolError::TaskCancelled));
    driver.notify();
    assert_eq!(
        driver.seen,
        vec![
            (1, TaskCompletionStatus::Cancelled),
            (0, TaskCompletionStatus::Success),
        ]
    );
}

#[test]
fn a_relaxed_shutdown_drops_what_waits() {
    let mut driver = Driver::new(1, 8, 2, "rlxd_drop");
    driver.submit(&[], FuturePoll::Returned(0));
    let mut waiting = Vec::new();
    for i in 1..6 {
        waiting.push(driver.submit(&[], FuturePoll::Returned(i)));
    }
    driver.dispatch();
    driver.shutdown(ShutdownMode::Graceful);
    assert_eq!(driver.started, vec![0]);
    assert_eq!(driver.pool.queued_task_count(), 0);
    for handle in waiting {
        assert!(matches!(
            await_result(handle),
            Err(PoolError::ResultChannelError(_))
        ));
    }
    let (tx, rx) = exclusive();
    let job = Job {
        end: FuturePoll::Returned(9),
        tx,
        boxed: true,
    };
    match driver.pool.submit(LabelSet::new(), job, rx) {
        Err(refusal) => assert_eq!(refusal.error, PoolError::PoolShuttingDown),
        Ok(_) => panic!("expected a refusal"),
    }
}

#[test]
fn the_last_relaxed_instance_shuts_the_pool_down() {
    let mut driver = Driver::new(1, 8, 2, "rlxd_last");
    driver.pool.add_completion_handler(0);
    driver.pool.add_instance();
    assert!(!driver.pool.drop_instance());
    assert!(!driver.pool.is_shutting_down());
    assert!(driver.pool.drop_instance());
    assert!(driver.pool.is_shutting_down());
    assert_eq!(driver.pool.notifier().sink(), CompletionSink::Closed);
    assert!(driver.pool.note_shutdown());
    assert!(driver.dispatch_lane(0));
    assert!(driver.dispatch_lane(1));
    assert!(driver.notify());
}

#[test]
fn a_running_task_ends_once_in_the_relaxed_pool() {
    let mut driver = Driver::new(1, 8, 2, "rlxd_once");
    let handle = driver.submit(&[], FuturePoll::Returned(0));
    let id = handle.id();
    driver.pool.drop_handle(id);
    let outcome: Outcome = Ok(0);
    assert!(!driver.pool.conclude_task(id), "it has no outcome yet");
    assert!(driver.pool.record_outcome(id, &outcome));
    assert!(!driver.pool.record_outcome(id, &outcome));
    assert!(!driver.pool.retire_task(id), "it was not reported yet");
    assert!(driver.pool.conclude_task(id));
    assert!(!driver.pool.conclude_task(id));
    assert_eq!(driver.pool.active_task_count(), 1, "a reported task still counts");
    assert!(driver.pool.retire_task(id));
    assert!(!driver.pool.retire_task(id));
    assert_eq!(driver.pool.active_task_count(), 0);
}

#[test]
fn the_permit_is_free_only_after_the_task_is_over() {
    let mut driver = Driver::new(1, 8, 1, "rlxd_permit");
    driver.submit(&[], FuturePoll::Returned(0));
    driver.submit(&[], FuturePoll::Returned(1));
    let outcome: Outcome = Ok(0);
    assert!(driver.pool.record_outcome(0, &outcome));
    driver.dispatch();
    assert!(driver.pool.conclude_task(0));
    driver.dispatch();
    assert_eq!(driver.started, vec![0]);
    assert!(driver.pool.retire_task(0));
    driver.dispatch();
    assert_eq!(driver.started, vec![0, 1]);
}

#[test]
fn a_relaxed_task_that_ends_after_the_first_registration_is_reported() {
    let mut driver = Driver::new(4, 8, 2, "rlxd_late");
    driver.submit(&[], FuturePoll::Returned(0));
    driver.finish(0);
    driver.submit(&[], FuturePoll::Returned(1));
    driver.submit(&[], FuturePoll::Returned(2));
    let outcome: Outcome = Ok(2);
    assert!(driver.pool.record_outcome(2, &outcome));
    assert!(driver.pool.conclude_task(2));
    assert!(driver.pool.add_completion_handler(0));
    driver.submit(&[], FuturePoll::Panicked);
    driver.finish(1);
    driver.finish(3);
    assert!(driver.pool.retire_task(2));
    driver.notify();
    assert_eq!(
        driver.seen,
        vec![
            (1, TaskCompletionStatus::Success),
            (3, TaskCompletionStatus::Panicked),
        ]
    );
}

#[test]
fn a_relaxed_handler_added_after_shutdown_opens_no_queue() {
    let mut driver = Driver::new(1, 8, 2, "rlxd_late_first_handler");
    driver.submit(&[], FuturePoll::Returned(0));
    driver.shutdown(ShutdownMode::Graceful);
    assert_eq!(driver.pool.notifier().sink(), CompletionSink::Closed);
    assert!(!driver.pool.add_completion_handler(0));
    assert_eq!(driver.pool.notifier().sink(), CompletionSink::Closed);
    assert!(!driver.pool.notifier().has_queue());
}

#[test]
fn the_last_relaxed_instance_closes_the_sink_in_any_case() {
    let mut driver = Driver::new(1, 8, 2, "rlxd_abandoned_shutdown");
    driver.pool.add_completion_handler(0);
    driver.submit(&[], FuturePoll::Pending);
    let _ = driver.pool.shutdown(ShutdownMode::Graceful);
    assert_eq!(driver.pool.notifier().sink(), CompletionSink::Open);
    assert!(!driver.pool.drop_instance(), "the shutdown was started before");
    assert_eq!(driver.pool.notifier().sink(), CompletionSink::Closed);
}

#[test]
fn a_cancelled_relaxed_task_is_polled_and_cancelled() {
    let mut driver = Driver::new(2, 8, 2, "rlxd_poll_order");
    let handle = driver.submit(&["x"], FuturePoll::Returned(4));
    assert_eq!(driver.pool.cancel_tasks_by_labels(&labels(&["x", "y"])), vec![0]);
    driver.finish(0);
    assert_eq!(driver.polls, 1);
    assert_eq!(await_result(handle), Err(PoolError::TaskCancelled));
}

#[test]
fn a_forceful_relaxed_shutdown_names_each_task_once() {
    let mut driver = Driver::new(8, 8, 3, "rlxd_victims");
    for i in 0..6 {
        driver.submit(&["x"], FuturePoll::Returned(i));
    }
    driver.finish(2);
    driver.submit(&["x"], FuturePoll::Returned(6));
    let mut hit = driver.pool.cancel_tasks_by_labels(&labels(&["x"]));
    hit.sort_unstable();
    assert_eq!(hit, vec![0, 1, 3, 4, 5, 6]);
    let (_, mut victims) = driver.pool.shutdown(ShutdownMode::ForcefulCancel);
    victims.sort_unstable();
    assert_eq!(victims, vec![0, 1, 3, 4, 5, 6]);
}
