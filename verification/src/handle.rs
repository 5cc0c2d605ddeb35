//! The handle of a submitted task.

use fibre::oneshot::RecvError;
use std::sync::Arc;
use vstd::prelude::*;
use vstd::string::StringExecFns;

use crate::error::PoolError;
use crate::execution;
use crate::execution::FuturePoll;
use crate::task::{LabelSet, TaskCore};
use crate::text;
use crate::token;
use crate::token::TokenTable;

verus! {

/// `fibre::oneshot::RecvError`, what a receiver gets whose sender is gone.
#[verifier::external_type_specification]
#[verifier::external_body]
pub struct ExRecvError(RecvError);

/// Calls the `Display` implementation of `fibre::oneshot::RecvError`. The type
/// has one value, so the text is always the same.
#[verifier::external_body]
fn recv_error_text(error: &RecvError) -> (text: String)
    ensures
        text@ == "channel disconnected (empty and all senders dropped)"@,
{
    format!("{}", error)
}

/// What the user is told when the result of task `id` cannot arrive any more.
pub open spec fn lost_result_text(id: u64) -> Seq<char> {
    "Task (id: "@ + text::decimal_text(id as nat) + ") result channel unexpectedly closed: "@
        + "channel disconnected (empty and all senders dropped)"@
}

/// What a user gets for what came out of the result channel of task `id`.
/// `None` stands for a channel that was taken before.
pub open spec fn awaited_outcome<R>(
    id: u64,
    received: Option<Result<Result<R, PoolError>, RecvError>>,
    outcome: Result<R, PoolError>,
) -> bool {
    match received {
        Some(Ok(sent)) => outcome == sent,
        Some(Err(_)) => outcome matches Err(PoolError::ResultChannelError(detail)) && detail@
            == lost_result_text(id),
        None => outcome == Err::<R, PoolError>(PoolError::ResultUnavailable),
    }
}

/// A handle to a task submitted to a pool.
///
/// `X` is the receiving end of the task's result channel.
#[derive(Debug)]
pub struct TaskHandle<X> {
    core: Arc<TaskCore>,
    result_receiver: Option<X>,
}

impl<X> TaskHandle<X> {
    /// Number and labels of the task.
    pub closed spec fn spec_core(self) -> Arc<TaskCore> {
        self.core
    }

    /// The receiving end of the result channel, while it was not taken.
    pub closed spec fn receiver(self) -> Option<X> {
        self.result_receiver
    }

    /// The handle of the task with control block `core`.
    pub fn new(core: Arc<TaskCore>, receiver: X) -> (handle: TaskHandle<X>)
        ensures
            handle.spec_core() == core,
            handle.receiver() == Some(receiver),
    {
        TaskHandle { core, result_receiver: Some(receiver) }
    }

    /// Returns the unique ID of the task.
    pub fn id(&self) -> (id: u64)
        ensures
            id == self.spec_core().id(),
    {
        self.core.task_id()
    }

    /// Returns a clone of the labels associated with the task.
    pub fn labels(&self) -> (labels: LabelSet)
        ensures
            labels@ == self.spec_core().texts(),
    {
        self.core.labels().clone()
    }

    /// Checks if cancellation has been requested for the task via its token.
    pub fn is_cancellation_requested(&self, tokens: &TokenTable) -> (requested: bool)
        ensures
            requested == token::token_cancelled(tokens@, self.spec_core().id()),
    {
        tokens.is_cancelled(self.core.task_id())
    }

    /// Requests cancellation of this specific task by triggering its token.
    pub fn cancel(&self, tokens: &mut TokenTable)
        ensures
            final(tokens)@ == token::tokens_after_cancel(
                old(tokens)@,
                Set::<u64>::empty().insert(self.spec_core().id()),
            ),
    {
        tokens.cancel(self.core.task_id());
    }

    /// Takes the receiving end of the result channel out of the handle.
    pub fn take_receiver(&mut self) -> (receiver: Option<X>)
        ensures
            receiver == old(self).receiver(),
            final(self).receiver() is None,
            final(self).spec_core() == old(self).spec_core(),
    {
        self.result_receiver.take()
    }

    /// Turns what came out of the result channel into the result of the task.
    ///
    /// `received` is `None` if the channel was taken before, and holds an error
    /// if the sender was dropped without sending, as happens to tasks that are
    /// still queued when the pool shuts down.
    pub fn await_result<R>(&self, received: Option<Result<Result<R, PoolError>, RecvError>>) -> (outcome:
        Result<R, PoolError>)
        ensures
            awaited_outcome(self.spec_core().id(), received, outcome),
    {
        match received {
            Some(Ok(sent)) => sent,
            Some(Err(error)) => {
                let mut detail = "Task (id: ".to_owned();
                detail.append(text::decimal(self.core.task_id()).as_str());
                detail.append(") result channel unexpectedly closed: ");
                detail.append(recv_error_text(&error).as_str());
                Err(PoolError::ResultChannelError(detail))
            },
            None => Err(PoolError::ResultUnavailable),
        }
    }
}

/// The user gets the outcome of the task: whatever was decided and handed over
/// by the result channel is what awaiting the result gives.
pub proof fn law_await_gives_the_outcome<R>(
    id: u64,
    cancelled: bool,
    polled: FuturePoll<R>,
    sent: Result<R, PoolError>,
    got: Result<R, PoolError>,
)
    requires
        execution::outcome_of(cancelled, polled) == Some(sent),
        awaited_outcome(id, Some(Ok(sent)), got),
    ensures
        got == sent,
        cancelled ==> got == Err::<R, PoolError>(PoolError::TaskCancelled),
        !cancelled && polled is Panicked ==> got == Err::<R, PoolError>(PoolError::TaskPanicked),
        polled matches FuturePoll::Returned(value) ==> !cancelled ==> got == Ok::<R, PoolError>(
            value,
        ),
{
}

/// What was sent through the result channel is what the user gets. A channel that
/// lost its sender gives an error that names the task, and one that was taken
/// before gives `ResultUnavailable`.
pub proof fn law_await_tells_what_came<R>(
    id: u64,
    sent: Result<R, PoolError>,
    error: RecvError,
    got: Result<R, PoolError>,
)
    ensures
        awaited_outcome(id, Some(Ok(sent)), got) <==> got == sent,
        awaited_outcome(id, None, got) <==> got == Err::<R, PoolError>(
            PoolError::ResultUnavailable,
        ),
        awaited_outcome(id, Some(Err(error)), got) ==> got is Err && got->Err_0
            is ResultChannelError && got->Err_0->ResultChannelError_0@ == "Task (id: "@
            + text::decimal_text(id as nat) + ") result channel unexpectedly closed: "@
            + "channel disconnected (empty and all senders dropped)"@,
{
}

} // verus!
