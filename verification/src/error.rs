//! The errors that the pool reports.

use vstd::prelude::*;
use vstd::string::StringExecFns;

verus! {

/// Errors that can occur within the pool.
#[derive(Debug, PartialEq)]
pub enum PoolError {
    /// A task could not be handed to the pool queue.
    QueueSendError(String),
    /// The result channel of a task broke before a result arrived.
    ResultChannelError(String),
    /// The result of a task was already taken.
    ResultUnavailable,
    /// The limiter of concurrently running tasks was closed unexpectedly.
    SemaphoreClosed,
    /// The sending side of the task queue was closed unexpectedly.
    QueueSendChannelClosed,
    /// The receiving side of the task queue was closed unexpectedly.
    QueueReceiveChannelClosed,
    /// The submitted future panicked.
    TaskPanicked,
    /// The task was cancelled.
    TaskCancelled,
    /// The pool is shutting down and accepts no new tasks.
    PoolShuttingDown,
}

/// The text that describes `error` to a user.
pub open spec fn error_text(error: PoolError) -> Seq<char> {
    match error {
        PoolError::QueueSendError(detail) => "Failed to submit task to the pool queue: "@ + detail@,
        PoolError::ResultChannelError(detail) =>
            "Task result channel error (task might have panicked, was cancelled, or receiver dropped): "@
            + detail@,
        PoolError::ResultUnavailable => "Task result already taken or channel was not available"@,
        PoolError::SemaphoreClosed => "Pool's internal semaphore was closed unexpectedly"@,
        PoolError::QueueSendChannelClosed =>
            "Pool's internal task queue (sender side) was closed unexpectedly"@,
        PoolError::QueueReceiveChannelClosed =>
            "Pool's internal task queue (receiver side) was closed unexpectedly"@,
        PoolError::TaskPanicked => "Submitted task future panicked"@,
        PoolError::TaskCancelled => "Task was cancelled"@,
        PoolError::PoolShuttingDown =>
            "Pool is shutting down or already shut down, cannot accept new tasks"@,
    }
}

impl PoolError {
    /// Describes the error in words.
    pub fn message(&self) -> (text: String)
        ensures
            text@ == error_text(*self),
    {
        match self {
            PoolError::QueueSendError(detail) => {
                let head = "Failed to submit task to the pool queue: ".to_owned();
                head.concat(detail.as_str())
            },
            PoolError::ResultChannelError(detail) => {
                let head =
                    "Task result channel error (task might have panicked, was cancelled, or receiver dropped): ".to_owned();
                head.concat(detail.as_str())
            },
            PoolError::ResultUnavailable =>
                "Task result already taken or channel was not available".to_owned(),
            PoolError::SemaphoreClosed =>
                "Pool's internal semaphore was closed unexpectedly".to_owned(),
            PoolError::QueueSendChannelClosed =>
                "Pool's internal task queue (sender side) was closed unexpectedly".to_owned(),
            PoolError::QueueReceiveChannelClosed =>
                "Pool's internal task queue (receiver side) was closed unexpectedly".to_owned(),
            PoolError::TaskPanicked => "Submitted task future panicked".to_owned(),
            PoolError::TaskCancelled => "Task was cancelled".to_owned(),
            PoolError::PoolShuttingDown =>
                "Pool is shutting down or already shut down, cannot accept new tasks".to_owned(),
        }
    }
}

/// Each error has the text that users know it by; the errors with a detail end
/// with it.
pub proof fn law_errors_are_described(detail: String)
    ensures
        error_text(PoolError::QueueSendError(detail)) == "Failed to submit task to the pool queue: "@
            + detail@,
        error_text(PoolError::ResultChannelError(detail))
            == "Task result channel error (task might have panicked, was cancelled, or receiver dropped): "@
            + detail@,
        error_text(PoolError::ResultUnavailable)
            == "Task result already taken or channel was not available"@,
        error_text(PoolError::SemaphoreClosed)
            == "Pool's internal semaphore was closed unexpectedly"@,
        error_text(PoolError::QueueSendChannelClosed)
            == "Pool's internal task queue (sender side) was closed unexpectedly"@,
        error_text(PoolError::QueueReceiveChannelClosed)
            == "Pool's internal task queue (receiver side) was closed unexpectedly"@,
        error_text(PoolError::TaskPanicked) == "Submitted task future panicked"@,
        error_text(PoolError::TaskCancelled) == "Task was cancelled"@,
        error_text(PoolError::PoolShuttingDown)
            == "Pool is shutting down or already shut down, cannot accept new tasks"@,
{
}

} // verus!
