use std::sync::Arc;

use futures_orchestra::task::{LabelSet, TaskCore};
use futures_orchestra::token::{
    CancelState, CancelWait, CancellationToken, TokenTable, WaitAction, WaitStage,
};

/// A party that waits for `token`, with the registration for its wake-up.
struct Waiter {
    wait: CancelWait,
    registered: bool,
    woken: bool,
}

impl Waiter {
    fn new() -> Waiter {
        Waiter {
            wait: CancelWait::new(),
            registered: false,
            woken: false,
        }
    }

    /// Takes one step; tells whether the wait is over.
    fn step(&mut self, token: &CancellationToken) -> bool {
        match self.wait.stage() {
            WaitStage::Registering => {
                self.registered = true;
                self.woken = false;
                self.wait.registered();
                false
            }
            WaitStage::Parked if !self.woken => false,
            _ => self.wait.look(token.is_cancelled()) == WaitAction::Resolve,
        }
    }

    fn wake(&mut self) {
        if self.registered {
            self.woken = true;
        }
    }

    fn resolves(&mut self, token: &CancellationToken) -> bool {
        (0..8).any(|_| self.step(token))
    }
}

#[test]
fn cancelled_resolves_when_already_cancelled() {
    let mut token = CancellationToken::new();
    token.cancel();
    let mut waiter = Waiter::new();
    assert!(waiter.step(&token));
    assert_eq!(waiter.wait.stage(), WaitStage::Resolved);
}

#[test]
fn cancelled_resolves_on_later_cancel() {
    let mut token = CancellationToken::new();
    let mut waiter = Waiter::new();
    assert!(!waiter.resolves(&token));
    assert_eq!(waiter.wait.stage(), WaitStage::Parked);

    token.cancel();
    waiter.wake();
    assert!(waiter.resolves(&token));
}

#[test]
fn clones_share_state() {
    // The flags of a task are kept in one table, which every holder of its control
    // block asks by number.
    let mut tokens = TokenTable::new();
    let token = Arc::new(TaskCore::new(5, LabelSet::new()));
    let clone = token.clone();
    tokens.register(token.task_id());
    assert!(!tokens.is_cancelled(clone.task_id()));
    tokens.cancel(token.task_id());
    assert!(tokens.is_cancelled(clone.task_id()));
    assert!(tokens.is_cancelled(token.task_id()));
}

#[test]
fn cancelled_is_safe_to_drop_and_retry() {
    let mut token = CancellationToken::new();
    for _ in 0..100 {
        let mut waiter = Waiter::new();
        assert!(!waiter.step(&token), "resolved before cancel");
    }
    token.cancel();
    assert!(Waiter::new().resolves(&token));
}

#[test]
fn cancel_races_with_waiter_registration() {
    // The cancellation lands before each step of the waiter in turn.
    for before in 0..6 {
        let mut token = CancellationToken::new();
        let mut waiter = Waiter::new();
        let mut resolved = false;
        for _ in 0..before {
            resolved = resolved || waiter.step(&token);
        }
        assert!(!resolved, "resolved before cancel");
        token.cancel();
        waiter.wake();
        assert!(waiter.resolves(&token), "missed a concurrent cancel");
    }
}

#[test]
fn the_flag_is_looked_at_again_after_registering() {
    let mut wait = CancelWait::new();
    assert_eq!(wait.stage(), WaitStage::Start);
    assert_eq!(wait.look(false), WaitAction::Register);
    wait.registered();
    assert_eq!(wait.stage(), WaitStage::Registered);
    assert_eq!(wait.look(true), WaitAction::Resolve);
    assert_eq!(wait.look(false), WaitAction::Resolve);
}

#[test]
fn a_wake_up_without_a_cancellation_starts_over() {
    let mut wait = CancelWait::new();
    assert_eq!(wait.look(false), WaitAction::Register);
    wait.registered();
    assert_eq!(wait.look(false), WaitAction::Park);
    assert_eq!(wait.look(false), WaitAction::Register);
    wait.registered();
    assert_eq!(wait.look(true), WaitAction::Resolve);
}

#[test]
fn flags_are_set_and_stay_set() {
    let mut state = CancelState::new();
    assert!(!state.is_cancelled());
    assert!(!state.is_finished());
    state.cancel();
    state.mark_finished();
    state.cancel();
    assert!(state.is_cancelled());
    assert!(state.is_finished());
}

#[test]
fn a_token_lives_as_long_as_task_or_handle() {
    let mut tokens = TokenTable::new();
    assert!(tokens.is_finished(1), "an unknown task counts as done");
    tokens.register(1);
    tokens.register(2);
    assert!(!tokens.is_finished(1));
    tokens.cancel(1);
    tokens.mark_finished(1);
    assert!(tokens.is_finished(1));
    assert!(tokens.is_cancelled(1), "the handle can still ask");
    tokens.drop_handle(1);
    assert!(!tokens.is_cancelled(1));
    tokens.drop_handle(2);
    tokens.cancel(2);
    assert!(tokens.is_cancelled(2), "the task can still be cancelled");
    tokens.mark_finished(2);
    assert!(!tokens.is_cancelled(2));
}

#[test]
fn several_tokens_are_triggered_or_finished_at_once() {
    let mut tokens = TokenTable::new();
    for id in 0..4 {
        tokens.register(id);
    }
    tokens.cancel_all(&vec![0, 2, 77]);
    assert!(tokens.is_cancelled(0));
    assert!(!tokens.is_cancelled(1));
    assert!(tokens.is_cancelled(2));
    assert!(!tokens.is_cancelled(77));
    tokens.finish_all(&vec![1, 2]);
    assert!(!tokens.is_finished(0));
    assert!(tokens.is_finished(1));
    assert!(tokens.is_finished(2));
    assert!(!tokens.is_finished(3));
}
