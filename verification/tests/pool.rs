use fibre::oneshot::{exclusive, ExclusiveReceiver, ExclusiveSender};
use std::cell::RefCell;
use std::rc::Rc;
use std::time::SystemTime;

use futures_orchestra::execution::{
    execution_outcome, relaxed_step, strict_step, FuturePoll, RelaxedStep, StrictStep,
};
use futures_orchestra::manager::{ResumeStep, Submission, WorkerAction};
use futures_orchestra::notifier::{
    CompletionSink, HandlerRun, HandlerStep, NotifierAction, TaskCompletionInfo,
};
use futures_orchestra::shutdown::{ShutdownAction, ShutdownEvent};
use futures_orchestra::task::LabelSet;
use futures_orchestra::token::CancellationToken;
use futures_orchestra::{
    FuturePoolManager, PoolError, ShutdownMode, TaskCompletionStatus, TaskHandle,
};

type Outcome = Result<String, PoolError>;
type Receiver = ExclusiveReceiver<Outcome>;
type Handle = TaskHandle<Receiver>;

/// A token of the test's own, which the future of a task looks at.
type InnerToken = Rc<RefCell<CancellationToken>>;

/// The work of a task: what its future will do, and where the result goes. A
/// future with a token of its own ends early once that is triggered.
struct Job {
    end: FuturePoll<String>,
    inner: Option<InnerToken>,
    tx: ExclusiveSender<Outcome>,
}

impl Job {
    /// Polls the future.
    fn poll(&mut self) -> FuturePoll<String> {
        if let Some(token) = &self.inner {
            if token.borrow().is_cancelled() {
                return done_with("task_1_cancelled_internally_by_task");
            }
        }
        std::mem::replace(&mut self.end, FuturePoll::Pending)
    }
}

/// A completion handler: notes what it is told, or panics.
#[derive(Clone, Copy, PartialEq)]
enum Handler {
    Collect(usize),
    Panic,
}

/// Drives a pool step by step, as a runtime would.
struct Driver {
    pool: FuturePoolManager<Job, Handler>,
    running: Vec<(u64, Job)>,
    started: Vec<u64>,
    notes: Vec<Vec<TaskCompletionInfo>>,
    handler_errors: usize,
    polls: usize,
}

fn labels(names: &[&str]) -> LabelSet {
    LabelSet::from_labels(names.iter().map(|s| (*s).to_string()).collect())
}

fn done_with(value: &str) -> FuturePoll<String> {
    FuturePoll::Returned(value.to_string())
}

impl Driver {
    fn new(limit: usize, capacity: usize, name: &str) -> Driver {
        Driver {
            pool: FuturePoolManager::new(limit, capacity, name),
            running: Vec::new(),
            started: Vec::new(),
            notes: vec![Vec::new(), Vec::new()],
            handler_errors: 0,
            polls: 0,
        }
    }

    fn try_submit(&mut self, names: &[&str], end: FuturePoll<String>) -> Result<Submission<Receiver>, PoolError> {
        let (tx, rx) = exclusive();
        let job = Job {
            end,
            inner: None,
            tx,
        };
        match self.pool.submit(labels(names), job, rx) {
            Ok(submission) => Ok(submission),
            Err(refusal) => Err(refusal.error),
        }
    }

    fn submit_with_token(&mut self, token: InnerToken, end: FuturePoll<String>) -> Handle {
        let (tx, rx) = exclusive();
        let job = Job {
            end,
            inner: Some(token),
            tx,
        };
        match self.pool.submit(LabelSet::new(), job, rx) {
            Ok(Submission::Queued(handle)) => handle,
            _ => panic!("expected the task to be queued"),
        }
    }

    fn submit(&mut self, names: &[&str], end: FuturePoll<String>) -> Handle {
        match self.try_submit(names, end) {
            Ok(Submission::Queued(handle)) => handle,
            Ok(Submission::Waiting(_)) => panic!("the queue is full"),
            Err(error) => panic!("{}", error.message()),
        }
    }

    /// Runs the dispatch loop until it waits or ends; tells whether it ended.
    fn dispatch(&mut self) -> bool {
        loop {
            match self.pool.poll_worker() {
                WorkerAction::Wait => return false,
                WorkerAction::Stop(_) => return true,
                WorkerAction::Cancelled(task) => {
                    let _ = task.work.tx.send(Err(PoolError::TaskCancelled));
                }
                WorkerAction::Start(task) => {
                    self.started.push(task.core.task_id());
                    self.running.push((task.core.task_id(), task.work));
                }
            }
        }
    }

    /// Wakes running task `id`; tells whether it came to its end.
    fn wake(&mut self, id: u64) -> bool {
        let at = self
            .running
            .iter()
            .position(|(running, _)| *running == id)
            .expect("the task does not run");
        let cancelled = self.pool.is_cancelled(id);
        let mut step = strict_step(cancelled, None);
        if let StrictStep::Poll = step {
            self.polls += 1;
            step = strict_step(cancelled, Some(self.running[at].1.poll()));
        }
        match step {
            StrictStep::Finish(outcome) => {
                let (_, job) = self.running.remove(at);
                assert!(self.pool.record_outcome(id, &outcome));
                let _ = job.tx.send(outcome);
                assert!(self.pool.conclude_task(id));
                assert!(self.pool.retire_task(id));
                true
            }
            StrictStep::Sleep => false,
            StrictStep::Poll => panic!("the future was polled already"),
        }
    }

    /// Lets running task `id` come to its end.
    fn finish(&mut self, id: u64) {
        assert!(self.wake(id), "no outcome yet");
    }

    fn finish_all(&mut self) {
        while let Some((id, _)) = self.running.first() {
            let id = *id;
            self.finish(id);
        }
    }

    /// Runs the notification worker until it waits or ends; tells whether it ended.
    fn notify(&mut self) -> bool {
        loop {
            match self.pool.next_notification() {
                NotifierAction::Wait => return false,
                NotifierAction::Stop => return true,
                NotifierAction::Discard(_) => {}
                NotifierAction::Deliver(message) => {
                    let info = message.public_info(SystemTime::now());
                    let mut run = HandlerRun::new(self.pool.notifier().handler_count());
                    while let HandlerStep::Invoke(index) = run.step() {
                        let panicked = match *self.pool.notifier().handler(index) {
                            Handler::Collect(list) => {
                                self.notes[list].push(info.clone());
                                false
                            }
                            Handler::Panic => true,
                        };
                        if run.after_handler(panicked) {
                            self.handler_errors += 1;
                        }
                    }
                }
            }
        }
    }

    fn shutdown(&mut self, mode: ShutdownMode) {
        let (mut run, _) = self.pool.shutdown(mode);
        loop {
            let event = match run.action() {
                ShutdownAction::WatchActive(50, 30_000) => {
                    self.finish_all();
                    ShutdownEvent::Tick(self.pool.active_task_count())
                }
                ShutdownAction::JoinWorker(5_000) => {
                    assert!(self.dispatch());
                    ShutdownEvent::WorkerEnded
                }
                ShutdownAction::JoinNotifier(5_000) => {
                    assert!(self.notify());
                    ShutdownEvent::NotifierEnded
                }
                ShutdownAction::Finish => return,
                other => panic!("unexpected limits: {:?}", other),
            };
            self.pool.shutdown_step(&mut run, event);
        }
    }
}

fn await_result(mut handle: Handle) -> Outcome {
    let received = handle.take_receiver().map(|mut rx| rx.recv_blocking());
    handle.await_result(received)
}

#[test]
fn test_submit_and_await_basic_task() {
    let mut driver = Driver::new(2, 5, "test_pool_basic_submit");
    assert_eq!(driver.pool.name(), "test_pool_basic_submit");
    let handle = driver.submit(&[], done_with("task1_done"));
    driver.dispatch();
    driver.finish(handle.id());
    assert_eq!(await_result(handle), Ok("task1_done".to_string()));
    driver.shutdown(ShutdownMode::Graceful);
}

#[test]
fn test_task_panics_are_handled() {
    let mut driver = Driver::new(1, 5, "test_pool_panic_handling");
    let bad = driver.submit(&[], FuturePoll::Panicked);
    driver.dispatch();
    driver.finish(bad.id());
    assert_eq!(await_result(bad), Err(PoolError::TaskPanicked));

    let good = driver.submit(&[], done_with("task2_done"));
    driver.dispatch();
    driver.finish(good.id());
    assert_eq!(await_result(good), Ok("task2_done".to_string()));
    driver.shutdown(ShutdownMode::Graceful);
}

#[test]
fn test_task_cancellation_via_handle_triggers_pool_error() {
    let mut driver = Driver::new(1, 5, "test_pool_cancel_via_handle");
    let handle = driver.submit(&[], done_with("output_if_not_cancelled"));
    driver.dispatch();
    assert!(!driver.pool.is_cancellation_requested(&handle));
    driver.pool.cancel(&handle);
    assert!(driver.pool.is_cancellation_requested(&handle));
    driver.finish(handle.id());
    assert_eq!(await_result(handle), Err(PoolError::TaskCancelled));
    driver.shutdown(ShutdownMode::Graceful);
}

#[test]
fn test_task_cooperative_cancellation_via_its_own_token() {
    let mut driver = Driver::new(1, 5, "test_pool_cooperative_cancel");
    let task_internal_token = Rc::new(RefCell::new(CancellationToken::new()));
    let handle = driver.submit_with_token(task_internal_token.clone(), FuturePoll::Pending);
    driver.dispatch();
    assert!(!driver.wake(handle.id()), "the task goes on until its token is triggered");
    task_internal_token.borrow_mut().cancel();
    assert!(!driver.pool.is_cancellation_requested(&handle));
    assert!(driver.wake(handle.id()));
    assert_eq!(
        await_result(handle),
        Ok("task_1_cancelled_internally_by_task".to_string())
    );
    driver.shutdown(ShutdownMode::Graceful);
}

#[test]
fn test_shutdown_graceful_allows_active_tasks_to_complete() {
    let mut driver = Driver::new(2, 5, "test_pool_shutdown_graceful");
    let handle1 = driver.submit(&[], done_with("task1_done_graceful"));
    let handle2 = driver.submit(&[], done_with("task2_done_graceful"));
    let handle3 = driver.submit(&[], done_with("task3_queued_wont_run"));
    driver.dispatch();
    assert_eq!(driver.pool.active_task_count(), 2);
    assert_eq!(driver.pool.queued_task_count(), 1);

    driver.shutdown(ShutdownMode::Graceful);
    assert_eq!(await_result(handle1), Ok("task1_done_graceful".to_string()));
    assert_eq!(await_result(handle2), Ok("task2_done_graceful".to_string()));
    assert_eq!(driver.started, vec![0, 1]);
    assert!(matches!(
        await_result(handle3),
        Err(PoolError::ResultChannelError(_))
    ));
}

#[test]
fn test_shutdown_forceful_cancels_active_tasks() {
    let mut driver = Driver::new(2, 5, "test_pool_shutdown_forceful");
    let handle1 = driver.submit(&[], done_with("task1_forceful_wont_finish"));
    let handle2 = driver.submit(&[], done_with("task2_forceful_wont_finish"));
    let handle3 = driver.submit(&[], done_with("task3_queued_wont_run_forceful"));
    driver.dispatch();
    assert_eq!(driver.pool.active_task_count(), 2);
    assert_eq!(driver.pool.queued_task_count(), 1);

    driver.shutdown(ShutdownMode::ForcefulCancel);
    assert_eq!(await_result(handle1), Err(PoolError::TaskCancelled));
    assert_eq!(await_result(handle2), Err(PoolError::TaskCancelled));
    assert_eq!(driver.started, vec![0, 1]);
    assert!(await_result(handle3).is_err());
}

#[test]
fn test_submit_to_shutting_down_pool_fails() {
    let mut driver = Driver::new(1, 1, "test_pool_submit_to_shutting_down");
    assert!(!driver.pool.is_shutting_down());
    driver.shutdown(ShutdownMode::Graceful);
    assert!(driver.pool.is_shutting_down());
    assert!(matches!(
        driver.try_submit(&[], done_with("task_after_shutdown_signal")),
        Err(PoolError::PoolShuttingDown)
    ));
    assert_eq!(driver.pool.next_task_id(), 0, "a refused task gets no number");
}

#[test]
fn test_cancel_by_label() {
    let mut driver = Driver::new(3, 5, "test_pool_cancel_by_label");
    let handle1 = driver.submit(&["group_a"], done_with("task1_label_a"));
    let handle2 = driver.submit(&["group_a"], done_with("task2_label_a"));
    let handle3 = driver.submit(&["group_b"], done_with("task3_label_b"));
    driver.dispatch();

    let mut hit = driver.pool.cancel_tasks_by_label(&"group_a".to_string());
    hit.sort_unstable();
    assert_eq!(hit, vec![0, 1]);

    driver.finish_all();
    assert_eq!(await_result(handle1), Err(PoolError::TaskCancelled));
    assert_eq!(await_result(handle2), Err(PoolError::TaskCancelled));
    assert_eq!(await_result(handle3), Ok("task3_label_b".to_string()));
    driver.shutdown(ShutdownMode::Graceful);
}

#[test]
fn test_drop_behavior_initiates_cleanup() {
    let mut driver = Driver::new(1, 1, "test_pool_drop_cleanup");
    driver.pool.add_completion_handler(Handler::Collect(0));
    let handle = driver.submit(&[], done_with("task_for_drop_test"));
    driver.dispatch();
    driver.pool.add_instance();
    assert!(!driver.pool.drop_instance(), "another instance is left");
    assert!(!driver.pool.is_shutting_down());
    assert!(driver.pool.drop_instance());
    assert!(driver.pool.is_shutting_down());
    assert!(driver.dispatch(), "the dispatch loop ends");
    driver.finish_all();
    assert!(driver.notify(), "the notification worker ends");
    assert_eq!(driver.notes[0].len(), 1);
    assert_eq!(await_result(handle), Ok("task_for_drop_test".to_string()));
}

#[test]
fn test_concurrency_limit_and_queuing() {
    let mut driver = Driver::new(1, 5, "test_pool_concurrency_queue");
    let mut handles = Vec::new();
    for i in 0..3 {
        handles.push(driver.submit(&[], FuturePoll::Returned(format!("task_{}_done", i + 1))));
    }
    driver.dispatch();
    assert_eq!(driver.pool.active_task_count(), 1);
    assert_eq!(driver.pool.queued_task_count(), 2);

    for handle in handles {
        driver.dispatch();
        assert_eq!(driver.pool.active_task_count(), 1);
        let expected = format!("task_{}_done", handle.id() + 1);
        driver.finish(handle.id());
        assert_eq!(await_result(handle), Ok(expected));
    }
    assert_eq!(driver.started, vec![0, 1, 2]);
    assert_eq!(driver.pool.active_task_count(), 0);
    assert_eq!(driver.pool.queued_task_count(), 0);
    driver.shutdown(ShutdownMode::Graceful);
}

#[test]
fn manager_no_completion_queue_without_a_handler() {
    let mut driver = Driver::new(2, 8, "lazy_notifier_pool");
    for i in 0..8 {
        let handle = driver.submit(&[], FuturePoll::Returned(format!("{}", i)));
        driver.dispatch();
        driver.finish(handle.id());
        assert_eq!(await_result(handle), Ok(format!("{}", i)));
    }
    assert_eq!(driver.pool.notifier().pending_completions(), 0);
    assert_eq!(driver.pool.notifier().sink(), CompletionSink::Unset);
    driver.shutdown(ShutdownMode::Graceful);
    assert_eq!(driver.pool.notifier().sink(), CompletionSink::Closed);
    assert!(!driver.pool.notifier().has_queue());
}

#[test]
fn cancelled_tasks_do_not_queue_completions_without_a_handler() {
    let mut driver = Driver::new(1, 8, "lazy_notifier_cancel_pool");
    let blocker = driver.submit(&[], done_with("0"));
    driver.dispatch();
    let mut queued = Vec::new();
    for i in 1..5 {
        queued.push(driver.submit(&[], FuturePoll::Returned(format!("{}", i))));
    }
    for handle in &queued {
        driver.pool.cancel(handle);
    }
    driver.finish(blocker.id());
    driver.dispatch();
    assert_eq!(await_result(blocker), Ok("0".to_string()));
    for handle in queued {
        assert_eq!(await_result(handle), Err(PoolError::TaskCancelled));
    }
    assert_eq!(driver.started, vec![0]);
    assert_eq!(driver.pool.notifier().pending_completions(), 0);
    assert_eq!(driver.pool.notifier().sink(), CompletionSink::Unset);
    driver.shutdown(ShutdownMode::Graceful);
}

#[test]
fn completion_queue_is_built_on_first_handler() {
    let mut driver = Driver::new(2, 8, "eager_notifier_pool");
    assert_eq!(driver.pool.notifier().sink(), CompletionSink::Unset);
    assert!(driver.pool.add_completion_handler(Handler::Collect(0)));
    assert_eq!(driver.pool.notifier().sink(), CompletionSink::Open);
    assert!(!driver.pool.add_completion_handler(Handler::Collect(1)));

    let handle = driver.submit(&[], done_with("7"));
    driver.dispatch();
    driver.finish(handle.id());
    assert_eq!(await_result(handle), Ok("7".to_string()));
    driver.shutdown(ShutdownMode::Graceful);
    assert_eq!(driver.notes[0].len(), 1);
}

#[test]
fn shutdown_closes_the_sink_so_the_notifier_can_join() {
    let mut driver = Driver::new(2, 8, "sink_close_pool");
    driver.pool.add_completion_handler(Handler::Collect(0));
    assert_eq!(driver.pool.notifier().sink(), CompletionSink::Open);
    let handle = driver.submit(&[], done_with("1"));
    driver.dispatch();
    driver.finish(handle.id());
    assert_eq!(await_result(handle), Ok("1".to_string()));
    driver.shutdown(ShutdownMode::Graceful);
    assert_eq!(driver.pool.notifier().sink(), CompletionSink::Closed);
}

#[test]
fn test_completion_notifier_success() {
    let mut driver = Driver::new(1, 1, "test_notifier_success");
    driver.pool.add_completion_handler(Handler::Collect(0));
    let handle = driver.submit(&["label1", "success_tag"], done_with("success_val"));
    let task_id = handle.id();
    driver.dispatch();
    driver.finish(task_id);
    assert_eq!(await_result(handle), Ok("success_val".to_string()));
    driver.shutdown(ShutdownMode::Graceful);

    assert_eq!(driver.notes[0].len(), 1);
    let info = &driver.notes[0][0];
    assert_eq!(info.task_id, task_id);
    assert_eq!(*info.pool_name, "test_notifier_success");
    assert_eq!(info.labels.len(), 2);
    assert!(info.labels.contains(&"label1".to_string()));
    assert!(info.labels.contains(&"success_tag".to_string()));
    assert_eq!(info.status, TaskCompletionStatus::Success);
    assert!(info.completion_time <= SystemTime::now());
}

#[test]
fn test_completion_notifier_panic() {
    let mut driver = Driver::new(1, 1, "test_notifier_panic");
    driver.pool.add_completion_handler(Handler::Collect(0));
    let handle = driver.submit(&["panic_label"], FuturePoll::Panicked);
    let task_id = handle.id();
    driver.dispatch();
    driver.finish(task_id);
    assert_eq!(await_result(handle), Err(PoolError::TaskPanicked));
    driver.shutdown(ShutdownMode::Graceful);

    assert_eq!(driver.notes[0].len(), 1);
    let info = &driver.notes[0][0];
    assert_eq!(info.task_id, task_id);
    assert_eq!(*info.pool_name, "test_notifier_panic");
    assert_eq!(info.labels.to_vec(), vec!["panic_label".to_string()]);
    assert_eq!(info.status, TaskCompletionStatus::Panicked);
}

#[test]
fn test_completion_notifier_cancelled_by_handle() {
    let mut driver = Driver::new(1, 1, "test_notifier_cancel_handle");
    driver.pool.add_completion_handler(Handler::Collect(0));
    let handle = driver.submit(&["cancel_handle_label"], done_with("cancel_wont_return"));
    let task_id = handle.id();
    driver.dispatch();
    driver.pool.cancel(&handle);
    driver.finish(task_id);
    assert_eq!(await_result(handle), Err(PoolError::TaskCancelled));
    driver.shutdown(ShutdownMode::Graceful);

    assert_eq!(driver.notes[0].len(), 1);
    let info = &driver.notes[0][0];
    assert_eq!(info.task_id, task_id);
    assert_eq!(*info.pool_name, "test_notifier_cancel_handle");
    assert_eq!(info.labels.to_vec(), vec!["cancel_handle_label".to_string()]);
    assert_eq!(info.status, TaskCompletionStatus::Cancelled);
}

#[test]
fn test_completion_notifier_cancelled_by_label() {
    let mut driver = Driver::new(1, 1, "test_notifier_cancel_label");
    driver.pool.add_completion_handler(Handler::Collect(0));
    let handle = driver.submit(&["cancel_this_label_notifier"], done_with("cancel_wont_return_l"));
    let task_id = handle.id();
    driver.dispatch();
    driver
        .pool
        .cancel_tasks_by_label(&"cancel_this_label_notifier".to_string());
    driver.finish(task_id);
    assert_eq!(await_result(handle), Err(PoolError::TaskCancelled));
    driver.shutdown(ShutdownMode::Graceful);

    assert_eq!(driver.notes[0].len(), 1);
    let info = &driver.notes[0][0];
    assert_eq!(info.task_id, task_id);
    assert_eq!(*info.pool_name, "test_notifier_cancel_label");
    assert_eq!(info.status, TaskCompletionStatus::Cancelled);
}

#[test]
fn test_completion_notifier_task_dequeued_but_pre_cancelled() {
    let mut driver = Driver::new(1, 5, "test_notifier_pre_cancelled_dequeued");
    driver.pool.add_completion_handler(Handler::Collect(0));
    let handle_a = driver.submit(&["task_a_label"], done_with("task_a_done"));
    let task_a_id = handle_a.id();
    driver.dispatch();
    let handle_b = driver.submit(&["pre_cancel_label"], done_with("task_b_wont_run"));
    let task_b_id = handle_b.id();
    driver.pool.cancel(&handle_b);
    driver.finish(task_a_id);
    driver.dispatch();
    assert_eq!(await_result(handle_a), Ok("task_a_done".to_string()));
    assert_eq!(await_result(handle_b), Err(PoolError::TaskCancelled));
    driver.shutdown(ShutdownMode::Graceful);

    assert_eq!(driver.started, vec![task_a_id]);
    assert_eq!(driver.notes[0].len(), 2, "Expected notifications for task A and B");
    let info_a = &driver.notes[0][0];
    assert_eq!(info_a.task_id, task_a_id);
    assert_eq!(info_a.status, TaskCompletionStatus::Success);
    assert_eq!(info_a.labels.to_vec(), vec!["task_a_label".to_string()]);
    let info_b = &driver.notes[0][1];
    assert_eq!(info_b.task_id, task_b_id);
    assert_eq!(info_b.status, TaskCompletionStatus::Cancelled);
    assert_eq!(info_b.labels.to_vec(), vec!["pre_cancel_label".to_string()]);
}

#[test]
fn test_completion_notifier_multiple_handlers() {
    let mut driver = Driver::new(1, 1, "test_notifier_multi_handler");
    driver.pool.add_completion_handler(Handler::Collect(0));
    driver.pool.add_completion_handler(Handler::Collect(1));
    let handle = driver.submit(&[], done_with("multi_handler_val"));
    let task_id = handle.id();
    driver.dispatch();
    driver.finish(task_id);
    assert_eq!(await_result(handle), Ok("multi_handler_val".to_string()));
    driver.shutdown(ShutdownMode::Graceful);
    for notes in &driver.notes {
        assert_eq!(notes.len(), 1);
        assert_eq!(notes[0].task_id, task_id);
        assert_eq!(notes[0].status, TaskCompletionStatus::Success);
    }
}

#[test]
fn test_completion_notifier_handler_panics() {
    let mut driver = Driver::new(1, 1, "test_notifier_handler_panic");
    driver.pool.add_completion_handler(Handler::Panic);
    driver.pool.add_completion_handler(Handler::Collect(0));
    let handle = driver.submit(&[], done_with("handler_panic_test_val"));
    let task_id = handle.id();
    driver.dispatch();
    driver.finish(task_id);
    assert_eq!(await_result(handle), Ok("handler_panic_test_val".to_string()));
    driver.shutdown(ShutdownMode::Graceful);
    assert_eq!(
        driver.notes[0].len(),
        1,
        "Collecting handler should still have received the notification."
    );
    assert_eq!(driver.notes[0][0].task_id, task_id);
    assert_eq!(driver.notes[0][0].status, TaskCompletionStatus::Success);
    assert_eq!(driver.handler_errors, 1);
}

#[test]
fn test_completion_notifier_during_graceful_shutdown() {
    let mut driver = Driver::new(1, 5, "test_notifier_graceful_shutdown");
    driver.pool.add_completion_handler(Handler::Collect(0));
    let handle_a = driver.submit(&[], done_with("task_a_graceful"));
    let task_a_id = handle_a.id();
    let handle_b = driver.submit(&[], done_with("task_b_queued_graceful"));
    driver.dispatch();
    assert_eq!(driver.pool.active_task_count(), 1);
    assert_eq!(driver.pool.queued_task_count(), 1);
    driver.shutdown(ShutdownMode::Graceful);

    assert_eq!(await_result(handle_a), Ok("task_a_graceful".to_string()));
    assert!(matches!(
        await_result(handle_b),
        Err(PoolError::ResultChannelError(_)) | Err(PoolError::TaskCancelled)
    ));
    assert_eq!(
        driver.notes[0].len(),
        1,
        "Only task A should have a completion notification."
    );
    assert_eq!(driver.notes[0][0].task_id, task_a_id);
    assert_eq!(driver.notes[0][0].status, TaskCompletionStatus::Success);
}

#[test]
fn test_completion_notifier_during_forceful_shutdown() {
    let mut driver = Driver::new(1, 5, "test_notifier_forceful_shutdown");
    driver.pool.add_completion_handler(Handler::Collect(0));
    let handle_a = driver.submit(&[], done_with("task_a_forceful"));
    let task_a_id = handle_a.id();
    let handle_b = driver.submit(&[], done_with("task_b_queued_forceful"));
    driver.dispatch();
    assert_eq!(driver.pool.active_task_count(), 1);
    assert_eq!(driver.pool.queued_task_count(), 1);
    driver.shutdown(ShutdownMode::ForcefulCancel);

    assert_eq!(await_result(handle_a), Err(PoolError::TaskCancelled));
    assert!(matches!(
        await_result(handle_b),
        Err(PoolError::ResultChannelError(_)) | Err(PoolError::TaskCancelled)
    ));
    assert_eq!(
        driver.notes[0].len(),
        1,
        "Only task A should have a completion notification."
    );
    assert_eq!(driver.notes[0][0].task_id, task_a_id);
    assert_eq!(driver.notes[0][0].status, TaskCompletionStatus::Cancelled);
}

#[test]
fn test_completion_notifier_no_handlers_added() {
    let mut driver = Driver::new(1, 1, "test_notifier_no_handlers");
    let handle = driver.submit(&[], done_with("no_handler_val"));
    driver.dispatch();
    driver.finish(handle.id());
    assert_eq!(await_result(handle), Ok("no_handler_val".to_string()));
    driver.shutdown(ShutdownMode::Graceful);
    assert!(driver.notify());
}

#[test]
fn test_completion_notifier_pool_name_and_labels_in_info() {
    let mut driver = Driver::new(1, 1, "test_notifier_info_details");
    driver.pool.add_completion_handler(Handler::Collect(0));
    let handle = driver.submit(&["detail_label_1", "detail_label_2"], done_with("details_val"));
    let task_id = handle.id();
    driver.dispatch();
    driver.finish(task_id);
    assert_eq!(await_result(handle), Ok("details_val".to_string()));
    driver.shutdown(ShutdownMode::Graceful);

    assert_eq!(driver.notes[0].len(), 1);
    let info = &driver.notes[0][0];
    assert_eq!(info.task_id, task_id);
    assert_eq!(*info.pool_name, "test_notifier_info_details".to_string());
    let mut names = info.labels.to_vec();
    names.sort();
    assert_eq!(names, vec!["detail_label_1".to_string(), "detail_label_2".to_string()]);
    assert_eq!(info.status, TaskCompletionStatus::Success);
}

#[test]
fn a_full_queue_lets_submissions_wait_until_a_place_is_free() {
    let mut driver = Driver::new(1, 1, "backpressure");
    let running = driver.submit(&[], done_with("a"));
    driver.dispatch();
    let queued = driver.submit(&[], done_with("b"));
    let waiting = match driver.try_submit(&[], done_with("c")) {
        Ok(Submission::Waiting(handle)) => handle,
        _ => panic!("expected the submission to wait"),
    };
    assert_eq!((running.id(), queued.id(), waiting.id()), (0, 1, 2));
    assert!(matches!(driver.pool.resume_submit(2), ResumeStep::Waiting));
    driver.finish(0);
    driver.dispatch();
    assert!(matches!(driver.pool.resume_submit(2), ResumeStep::Queued));
    assert!(matches!(driver.pool.resume_submit(2), ResumeStep::Unknown));
    driver.finish(1);
    driver.dispatch();
    driver.finish(2);
    assert_eq!(await_result(waiting), Ok("c".to_string()));
    assert_eq!(driver.started, vec![0, 1, 2]);
}

#[test]
fn a_shutdown_refuses_a_waiting_submission() {
    let mut driver = Driver::new(1, 0, "no_places");
    let waiting = match driver.try_submit(&[], done_with("never")) {
        Ok(Submission::Waiting(handle)) => handle,
        _ => panic!("expected the submission to wait"),
    };
    driver.shutdown(ShutdownMode::Graceful);
    match driver.pool.resume_submit(waiting.id()) {
        ResumeStep::Refused(PoolError::PoolShuttingDown, task) => {
            assert_eq!(task.core.task_id(), waiting.id())
        }
        _ => panic!("expected a refusal"),
    }
    assert!(matches!(driver.pool.resume_submit(waiting.id()), ResumeStep::Unknown));
}

#[test]
fn a_waiting_submission_can_be_withdrawn() {
    let mut driver = Driver::new(1, 0, "withdrawn");
    let waiting = match driver.try_submit(&["x"], done_with("never")) {
        Ok(Submission::Waiting(handle)) => handle,
        _ => panic!("expected the submission to wait"),
    };
    assert!(driver.pool.withdraw_submit(waiting.id()).is_some());
    assert!(driver.pool.withdraw_submit(waiting.id()).is_none());
    assert!(await_result(waiting).is_err());
}

#[test]
fn a_limit_of_zero_counts_as_one() {
    let mut driver = Driver::new(0, 2, "zero");
    let first = driver.submit(&[], done_with("a"));
    let second = driver.submit(&[], done_with("b"));
    driver.dispatch();
    assert_eq!(driver.started, vec![first.id()]);
    assert_eq!(driver.pool.queued_task_count(), 1);
    driver.finish_all();
    driver.dispatch();
    assert_eq!(driver.started, vec![first.id(), second.id()]);
}

#[test]
fn labels_cancel_active_tasks_only() {
    let mut driver = Driver::new(1, 5, "labels");
    let active = driver.submit(&["x", "y"], done_with("a"));
    let queued = driver.submit(&["x"], done_with("b"));
    driver.dispatch();
    assert_eq!(driver.pool.cancel_tasks_by_labels(&labels(&[])), Vec::<u64>::new());
    assert_eq!(driver.pool.cancel_tasks_by_labels(&labels(&["z"])), Vec::<u64>::new());
    assert!(!driver.pool.is_cancelled(active.id()));
    assert_eq!(
        driver.pool.cancel_tasks_by_labels(&labels(&["z", "x"])),
        vec![active.id()]
    );
    assert!(driver.pool.is_cancelled(active.id()));
    assert!(!driver.pool.is_cancelled(queued.id()));
}

#[test]
fn a_second_shutdown_cancels_nothing() {
    let mut driver = Driver::new(1, 5, "second_shutdown");
    let handle = driver.submit(&[], done_with("kept"));
    driver.dispatch();
    let (first, victims) = driver.pool.shutdown(ShutdownMode::Graceful);
    assert!(first.initiator);
    assert!(victims.is_empty());
    let (second, victims) = driver.pool.shutdown(ShutdownMode::ForcefulCancel);
    assert!(!second.initiator);
    assert!(victims.is_empty());
    assert!(!driver.pool.is_cancelled(handle.id()));
    driver.finish_all();
    assert_eq!(await_result(handle), Ok("kept".to_string()));
}

#[test]
fn only_the_first_shutdown_closes_the_sink() {
    let mut driver = Driver::new(1, 5, "sink_owner");
    driver.pool.add_completion_handler(Handler::Collect(0));
    driver.submit(&[], done_with("a"));
    driver.dispatch();
    let (mut first, _) = driver.pool.shutdown(ShutdownMode::Graceful);
    let (mut second, _) = driver.pool.shutdown(ShutdownMode::Graceful);
    driver.finish_all();
    driver.pool.shutdown_step(&mut second, ShutdownEvent::Tick(0));
    assert_eq!(second.action(), ShutdownAction::JoinWorker(5_000));
    driver.pool.shutdown_step(&mut second, ShutdownEvent::WorkerEnded);
    assert_eq!(driver.pool.notifier().sink(), CompletionSink::Open);
    driver.pool.shutdown_step(&mut first, ShutdownEvent::Tick(0));
    assert_eq!(driver.pool.notifier().sink(), CompletionSink::Closed);
    assert_eq!(first.action(), ShutdownAction::Finish, "the other call waits for the notifier");
    assert_eq!(second.action(), ShutdownAction::JoinNotifier(5_000));
}

#[test]
fn a_shutdown_ends_although_a_task_never_does() {
    let mut driver = Driver::new(1, 5, "stuck");
    driver.pool.add_completion_handler(Handler::Collect(0));
    driver.submit(&[], FuturePoll::Pending);
    driver.dispatch();
    let (mut run, _) = driver.pool.shutdown(ShutdownMode::Graceful);
    assert_eq!(run.action(), ShutdownAction::WatchActive(50, 30_000));
    driver.pool.shutdown_step(&mut run, ShutdownEvent::Tick(1));
    assert_eq!(run.action(), ShutdownAction::WatchActive(50, 30_000));
    driver.pool.shutdown_step(&mut run, ShutdownEvent::ActiveTimeout);
    assert_eq!(run.action(), ShutdownAction::JoinWorker(5_000));
    driver.pool.shutdown_step(&mut run, ShutdownEvent::WorkerTimeout);
    assert_eq!(run.action(), ShutdownAction::JoinNotifier(5_000));
    assert!(!driver.notify(), "the running task still holds a sender");
    driver.pool.shutdown_step(&mut run, ShutdownEvent::NotifierTimeout);
    assert_eq!(run.action(), ShutdownAction::Finish, "three waits at most");
}

#[test]
fn a_handler_added_after_shutdown_brings_nothing_back() {
    let mut driver = Driver::new(1, 5, "late_handler");
    driver.pool.add_completion_handler(Handler::Collect(0));
    driver.shutdown(ShutdownMode::Graceful);
    assert!(!driver.pool.add_completion_handler(Handler::Collect(1)));
    assert_eq!(driver.pool.notifier().sink(), CompletionSink::Closed);
    assert!(driver.pool.note_shutdown());
    assert!(!driver.pool.note_shutdown());
}

#[test]
fn a_handler_added_after_shutdown_opens_no_queue() {
    let mut driver = Driver::new(1, 5, "late_first_handler");
    let handle = driver.submit(&[], done_with("a"));
    driver.dispatch();
    driver.finish(handle.id());
    driver.shutdown(ShutdownMode::Graceful);
    assert_eq!(driver.pool.notifier().sink(), CompletionSink::Closed);
    assert!(
        !driver.pool.add_completion_handler(Handler::Collect(0)),
        "no notification worker is started"
    );
    assert_eq!(driver.pool.notifier().sink(), CompletionSink::Closed);
    assert!(!driver.pool.notifier().has_queue());
    assert_eq!(driver.pool.notifier().handler_count(), 1);
    driver.notify();
    assert!(driver.notes[0].is_empty());
}

#[test]
fn a_task_that_ends_after_the_first_registration_is_reported() {
    let mut driver = Driver::new(3, 5, "late");
    let over = driver.submit(&[], done_with("o"));
    driver.dispatch();
    driver.finish(over.id());
    let early = driver.submit(&[], done_with("a"));
    let cancelled = driver.submit(&[], done_with("c"));
    driver.dispatch();
    driver.pool.add_completion_handler(Handler::Collect(0));
    let late = driver.submit(&[], done_with("b"));
    driver.dispatch();
    driver.pool.cancel(&cancelled);
    driver.finish(early.id());
    driver.finish(cancelled.id());
    driver.finish(late.id());
    driver.notify();
    let seen: Vec<(u64, TaskCompletionStatus)> =
        driver.notes[0].iter().map(|info| (info.task_id, info.status)).collect();
    assert_eq!(
        seen,
        vec![
            (early.id(), TaskCompletionStatus::Success),
            (cancelled.id(), TaskCompletionStatus::Cancelled),
            (late.id(), TaskCompletionStatus::Success),
        ],
        "the task that was over before is not reported"
    );
}

#[test]
fn a_task_that_ends_after_the_sink_was_closed_is_reported() {
    let mut driver = Driver::new(2, 5, "slow");
    let early = driver.submit(&[], done_with("a"));
    driver.dispatch();
    driver.pool.add_completion_handler(Handler::Collect(0));
    assert!(driver.pool.drop_instance());
    assert_eq!(driver.pool.notifier().sink(), CompletionSink::Closed);
    assert!(!driver.notify(), "the running task holds a sender");
    driver.finish(early.id());
    assert!(driver.notify(), "the last sender is gone");
    assert_eq!(driver.notes[0].len(), 1);
    assert_eq!(driver.notes[0][0].task_id, early.id());
}

#[test]
fn a_task_ends_once() {
    let mut driver = Driver::new(1, 5, "once");
    driver.pool.add_completion_handler(Handler::Collect(0));
    let handle = driver.submit(&[], done_with("a"));
    driver.dispatch();
    let outcome: Outcome = Ok("a".to_string());
    let other: Outcome = Err(PoolError::TaskPanicked);
    assert!(!driver.pool.conclude_task(handle.id()), "it has no outcome yet");
    assert!(!driver.pool.retire_task(handle.id()), "it has not ended yet");
    assert!(driver.pool.record_outcome(handle.id(), &outcome));
    assert!(!driver.pool.record_outcome(handle.id(), &other));
    assert!(!driver.pool.retire_task(handle.id()), "it was not reported yet");
    assert_eq!(driver.pool.notifier().pending_completions(), 0);
    assert!(driver.pool.conclude_task(handle.id()));
    assert!(!driver.pool.conclude_task(handle.id()));
    assert_eq!(driver.pool.notifier().pending_completions(), 1);
    assert_eq!(driver.pool.active_task_count(), 1);
    assert!(driver.pool.retire_task(handle.id()));
    assert!(!driver.pool.retire_task(handle.id()));
    assert_eq!(driver.pool.active_task_count(), 0);
    assert!(!driver.pool.record_outcome(77, &outcome));
    assert!(!driver.pool.conclude_task(77));
    driver.notify();
    assert_eq!(driver.notes[0].len(), 1);
    assert_eq!(driver.notes[0][0].status, TaskCompletionStatus::Success);
}

#[test]
fn a_reported_task_frees_its_permit_before_it_leaves_the_list() {
    let mut driver = Driver::new(1, 5, "permit");
    let first = driver.submit(&[], done_with("a"));
    let second = driver.submit(&[], done_with("b"));
    driver.dispatch();
    let outcome: Outcome = Ok("a".to_string());
    assert!(driver.pool.record_outcome(first.id(), &outcome));
    driver.dispatch();
    assert_eq!(driver.started, vec![first.id()]);
    assert!(driver.pool.conclude_task(first.id()));
    driver.dispatch();
    assert_eq!(driver.started, vec![first.id(), second.id()]);
    assert_eq!(driver.pool.active_task_count(), 2);
    assert!(driver.pool.retire_task(first.id()));
    assert_eq!(driver.pool.active_task_count(), 1);
}

#[test]
fn a_cancelled_task_is_not_polled_any_more() {
    let mut driver = Driver::new(2, 5, "poll_order");
    let plain = driver.submit(&[], done_with("a"));
    let cancelled = driver.submit(&[], done_with("b"));
    driver.dispatch();
    driver.pool.cancel(&cancelled);
    driver.finish(cancelled.id());
    assert_eq!(driver.polls, 0);
    driver.finish(plain.id());
    assert_eq!(driver.polls, 1);
    assert_eq!(await_result(cancelled), Err(PoolError::TaskCancelled));
    assert_eq!(await_result(plain), Ok("a".to_string()));
}

#[test]
fn the_strict_steps_look_at_the_cancellation_first() {
    assert!(matches!(strict_step::<u32>(false, None), StrictStep::Poll));
    assert!(matches!(
        strict_step::<u32>(true, None),
        StrictStep::Finish(Err(PoolError::TaskCancelled))
    ));
    assert!(matches!(
        strict_step(false, Some(FuturePoll::<u32>::Pending)),
        StrictStep::Sleep
    ));
    assert!(matches!(
        strict_step(false, Some(FuturePoll::Returned(4))),
        StrictStep::Finish(Ok(4))
    ));
    assert!(matches!(
        strict_step(false, Some(FuturePoll::<u32>::Panicked)),
        StrictStep::Finish(Err(PoolError::TaskPanicked))
    ));
    assert!(matches!(
        strict_step(true, Some(FuturePoll::Returned(4))),
        StrictStep::Finish(Err(PoolError::TaskCancelled))
    ));
}

#[test]
fn the_relaxed_steps_poll_the_future_first() {
    assert!(matches!(relaxed_step::<u32>(None, None), RelaxedStep::Poll));
    assert!(matches!(relaxed_step::<u32>(None, Some(true)), RelaxedStep::Poll));
    assert!(matches!(
        relaxed_step(Some(FuturePoll::Returned(4)), None),
        RelaxedStep::Look(FuturePoll::Returned(4))
    ));
    assert!(matches!(
        relaxed_step(Some(FuturePoll::Returned(4)), Some(true)),
        RelaxedStep::Finish(Err(PoolError::TaskCancelled))
    ));
    assert!(matches!(
        relaxed_step(Some(FuturePoll::Returned(4)), Some(false)),
        RelaxedStep::Finish(Ok(4))
    ));
    assert!(matches!(
        relaxed_step(Some(FuturePoll::<u32>::Pending), Some(true)),
        RelaxedStep::Finish(Err(PoolError::TaskCancelled))
    ));
    assert!(matches!(
        relaxed_step(Some(FuturePoll::<u32>::Panicked), Some(false)),
        RelaxedStep::Finish(Err(PoolError::TaskPanicked))
    ));
    assert!(matches!(
        relaxed_step(Some(FuturePoll::<u32>::Pending), Some(false)),
        RelaxedStep::Sleep
    ));
}

#[test]
fn the_last_instance_closes_the_sink_of_a_pool_that_is_shutting_down() {
    let mut driver = Driver::new(1, 5, "abandoned_shutdown");
    driver.pool.add_completion_handler(Handler::Collect(0));
    driver.submit(&[], FuturePoll::Pending);
    driver.dispatch();
    let (run, _) = driver.pool.shutdown(ShutdownMode::Graceful);
    assert_eq!(run.action(), ShutdownAction::WatchActive(50, 30_000));
    assert_eq!(driver.pool.notifier().sink(), CompletionSink::Open);
    assert!(!driver.pool.drop_instance(), "the shutdown was started before");
    assert_eq!(driver.pool.notifier().sink(), CompletionSink::Closed);
}

#[test]
fn a_dropped_handle_leaves_the_task_running() {
    let mut driver = Driver::new(1, 5, "detached");
    let handle = driver.submit(&["x"], done_with("a"));
    let id = handle.id();
    drop(handle);
    driver.pool.drop_handle(id);
    driver.dispatch();
    assert_eq!(driver.started, vec![id]);
    assert_eq!(driver.pool.cancel_tasks_by_label(&"x".to_string()), vec![id]);
    assert!(driver.pool.is_cancelled(id));
    driver.finish(id);
    assert!(!driver.pool.is_cancelled(id));
}

#[test]
fn the_lost_result_names_the_task() {
    let mut driver = Driver::new(1, 5, "lost");
    for i in 0..13 {
        let handle = driver.submit(&[], FuturePoll::Returned(format!("{}", i)));
        driver.dispatch();
        driver.finish(handle.id());
    }
    driver.pool.shutdown(ShutdownMode::Graceful);
    let mut other = Driver::new(1, 20, "lost");
    let mut handles: Vec<Handle> = (0..13).map(|_| other.submit(&[], done_with("x"))).collect();
    other.shutdown(ShutdownMode::Graceful);
    let last = handles.pop().expect("thirteen handles");
    assert_eq!(
        await_result(last),
        Err(PoolError::ResultChannelError(
            "Task (id: 12) result channel unexpectedly closed: channel disconnected (empty and all senders dropped)"
                .to_string()
        ))
    );
}

#[test]
fn a_result_can_be_taken_once() {
    let mut driver = Driver::new(1, 5, "twice");
    let mut handle = driver.submit(&["a", "b"], done_with("x"));
    assert_eq!(handle.labels().len(), 2);
    driver.dispatch();
    driver.finish(handle.id());
    assert!(handle.take_receiver().is_some());
    assert!(handle.take_receiver().is_none());
    assert_eq!(
        handle.await_result::<String>(None),
        Err(PoolError::ResultUnavailable)
    );
}

#[test]
fn a_cancellation_outranks_what_the_future_did() {
    assert_eq!(
        execution_outcome(true, FuturePoll::Returned(1)),
        Some(Err(PoolError::TaskCancelled))
    );
    assert_eq!(
        execution_outcome(true, FuturePoll::<u32>::Panicked),
        Some(Err(PoolError::TaskCancelled))
    );
    assert_eq!(
        execution_outcome(true, FuturePoll::<u32>::Pending),
        Some(Err(PoolError::TaskCancelled))
    );
    assert_eq!(execution_outcome(false, FuturePoll::Returned(1)), Some(Ok(1)));
    assert_eq!(
        execution_outcome(false, FuturePoll::<u32>::Panicked),
        Some(Err(PoolError::TaskPanicked))
    );
    assert_eq!(execution_outcome(false, FuturePoll::<u32>::Pending), None);
}

#[test]
fn the_status_stands_for_the_outcome() {
    let ok: Result<u32, PoolError> = Ok(1);
    let cancelled: Result<u32, PoolError> = Err(PoolError::TaskCancelled);
    let panicked: Result<u32, PoolError> = Err(PoolError::TaskPanicked);
    let other: Result<u32, PoolError> = Err(PoolError::SemaphoreClosed);
    assert_eq!(TaskCompletionStatus::from(&ok), TaskCompletionStatus::Success);
    assert_eq!(
        TaskCompletionStatus::from(&cancelled),
        TaskCompletionStatus::Cancelled
    );
    assert_eq!(
        TaskCompletionStatus::from(&panicked),
        TaskCompletionStatus::Panicked
    );
    assert_eq!(
        TaskCompletionStatus::from(&other),
        TaskCompletionStatus::PoolErrorOccurred
    );
}
