use futures_orchestra::text::decimal;
use futures_orchestra::PoolError;

#[test]
fn every_error_has_its_text() {
    let cases = vec![
        (
            PoolError::QueueSendError("x".to_string()),
            "Failed to submit task to the pool queue: x",
        ),
        (
            PoolError::ResultChannelError("y".to_string()),
            "Task result channel error (task might have panicked, was cancelled, or receiver dropped): y",
        ),
        (
            PoolError::ResultUnavailable,
            "Task result already taken or channel was not available",
        ),
        (
            PoolError::SemaphoreClosed,
            "Pool's internal semaphore was closed unexpectedly",
        ),
        (
            PoolError::QueueSendChannelClosed,
            "Pool's internal task queue (sender side) was closed unexpectedly",
        ),
        (
            PoolError::QueueReceiveChannelClosed,
            "Pool's internal task queue (receiver side) was closed unexpectedly",
        ),
        (PoolError::TaskPanicked, "Submitted task future panicked"),
        (PoolError::TaskCancelled, "Task was cancelled"),
        (
            PoolError::PoolShuttingDown,
            "Pool is shutting down or already shut down, cannot accept new tasks",
        ),
    ];
    for (error, text) in cases {
        assert_eq!(error.message(), text);
    }
}

#[test]
fn numbers_are_written_in_decimal() {
    for n in [0u64, 7, 10, 99, 100, 1234567890, u64::MAX] {
        assert_eq!(decimal(n), format!("{}", n));
    }
}
