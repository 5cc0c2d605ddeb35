use std::sync::Arc;

use futures_orchestra::channel::{FifoChannel, Received};
use futures_orchestra::lanes::LaneQueue;
use futures_orchestra::task::{LabelSet, TaskCore};
use futures_orchestra::task_queue::{ManagedTaskInternal, SendOutcome, TaskQueue};
use futures_orchestra::token::CancellationToken;
use futures_orchestra::PoolError;

fn dummy_task(id: u64) -> ManagedTaskInternal<&'static str> {
    ManagedTaskInternal {
        core: Arc::new(TaskCore::new(id, LabelSet::new())),
        work: "done",
    }
}

fn received_id(received: Received<ManagedTaskInternal<&'static str>>) -> u64 {
    match received {
        Received::Item(task) => task.core.task_id(),
        Received::Empty => panic!("the queue is empty"),
        Received::Disconnected => panic!("the queue is disconnected"),
    }
}

#[test]
fn test_queue_send_recv() {
    let mut queue = TaskQueue::new(5);
    let shutdown_token = CancellationToken::new();

    assert_eq!(queue.get_permits(), 5);
    assert!(matches!(
        queue.send(dummy_task(1), shutdown_token.is_cancelled()),
        SendOutcome::Sent
    ));
    assert_eq!(queue.get_permits(), 4);

    assert_eq!(received_id(queue.recv()), 1);
    assert_eq!(queue.get_permits(), 5);
}

#[test]
fn test_queue_capacity_blocks_send() {
    let mut queue = TaskQueue::new(1);
    let shutdown_token = CancellationToken::new();

    assert!(matches!(
        queue.send(dummy_task(1), shutdown_token.is_cancelled()),
        SendOutcome::Sent
    ));
    assert_eq!(queue.get_permits(), 0);

    let waiting = match queue.send(dummy_task(2), shutdown_token.is_cancelled()) {
        SendOutcome::Full(task) => task,
        _ => panic!("Send should have blocked because the queue is full."),
    };
    assert_eq!(queue.get_permits(), 0);

    assert_eq!(received_id(queue.recv()), 1);
    assert_eq!(queue.get_permits(), 1);

    assert!(matches!(
        queue.resume_send(waiting, shutdown_token.is_cancelled()),
        SendOutcome::Sent
    ));
    assert_eq!(queue.get_permits(), 0);
}

#[test]
fn test_queue_concurrent_sends() {
    let mut queue = TaskQueue::new(4);
    let num_tasks: u64 = 20;
    let mut waiting: Vec<ManagedTaskInternal<&'static str>> = Vec::new();
    let mut received_count = 0;

    for i in 0..num_tasks {
        match queue.send(dummy_task(i), false) {
            SendOutcome::Sent => {}
            SendOutcome::Full(task) => waiting.push(task),
            SendOutcome::Refused(error, _) => panic!("{}", error.message()),
        }
    }
    assert_eq!(waiting.len(), 16);

    for _ in 0..num_tasks {
        if matches!(queue.recv(), Received::Item(_)) {
            received_count += 1;
        }
        if let Some(task) = waiting.pop() {
            assert!(matches!(queue.resume_send(task, false), SendOutcome::Sent));
        }
    }

    assert_eq!(received_count, num_tasks as usize);
    assert_eq!(queue.get_permits(), 4);
}

#[test]
fn test_send_respects_shutdown_token() {
    let mut queue = TaskQueue::new(1);
    let mut shutdown_token = CancellationToken::new();

    assert!(matches!(
        queue.send(dummy_task(1), shutdown_token.is_cancelled()),
        SendOutcome::Sent
    ));
    shutdown_token.cancel();

    let result = queue.send(dummy_task(2), shutdown_token.is_cancelled());
    assert!(matches!(
        result,
        SendOutcome::Refused(PoolError::PoolShuttingDown, _)
    ));
    assert_eq!(
        queue.get_permits(),
        0,
        "Permit should still be held by first task"
    );
}

#[test]
fn test_close_sender_stops_consumer() {
    let mut queue = TaskQueue::new(2);

    assert!(matches!(queue.send(dummy_task(1), false), SendOutcome::Sent));
    queue.close();

    assert_eq!(received_id(queue.recv()), 1);
    assert_eq!(queue.get_permits(), 2);

    assert!(matches!(queue.recv(), Received::Disconnected));
}

#[test]
fn a_waiting_send_is_refused_by_shutdown_and_by_a_closed_queue() {
    let mut queue = TaskQueue::new(1);
    assert!(matches!(queue.send(dummy_task(1), false), SendOutcome::Sent));
    assert!(matches!(
        queue.resume_send(dummy_task(2), true),
        SendOutcome::Refused(PoolError::PoolShuttingDown, _)
    ));
    queue.close();
    assert!(queue.is_closed());
    assert!(matches!(
        queue.resume_send(dummy_task(2), false),
        SendOutcome::Full(_)
    ));
    assert_eq!(received_id(queue.recv()), 1);
    match queue.resume_send(dummy_task(2), false) {
        SendOutcome::Refused(PoolError::QueueSendChannelClosed, task) => {
            assert_eq!(task.core.task_id(), 2)
        }
        _ => panic!("expected a refusal"),
    }
    assert_eq!(queue.get_permits(), 1, "a failed send keeps no permit");
    assert!(matches!(
        queue.send(dummy_task(3), false),
        SendOutcome::Refused(PoolError::PoolShuttingDown, _)
    ));
}

#[test]
fn an_abandoned_queue_gives_its_tasks_back_in_order() {
    let mut queue = TaskQueue::new(3);
    for id in 0..3 {
        assert!(matches!(queue.send(dummy_task(id), false), SendOutcome::Sent));
    }
    assert_eq!(queue.len(), 3);
    let dropped: Vec<u64> = queue.abandon().iter().map(|t| t.core.task_id()).collect();
    assert_eq!(dropped, vec![0, 1, 2]);
    assert_eq!(queue.len(), 0);
    assert_eq!(queue.get_permits(), 3);
    assert!(queue.is_closed());
    assert!(matches!(queue.recv(), Received::Disconnected));
    assert!(queue.abandon().is_empty());
}

#[test]
fn a_queue_without_places_lets_everyone_wait() {
    let mut queue = TaskQueue::new(0);
    assert!(matches!(queue.send(dummy_task(1), false), SendOutcome::Full(_)));
    assert!(matches!(queue.recv(), Received::Empty));
}

#[test]
fn a_channel_is_first_in_first_out() {
    let mut channel: FifoChannel<String> = FifoChannel::new();
    assert!(matches!(channel.recv(), Received::Empty));
    assert_eq!(channel.send("a".to_string()), Ok(()));
    assert_eq!(channel.send("b".to_string()), Ok(()));
    assert!(matches!(channel.recv(), Received::Item(s) if s == "a"));
    assert_eq!(channel.send("c".to_string()), Ok(()));
    assert_eq!(channel.len(), 2);
    assert!(matches!(channel.recv(), Received::Item(s) if s == "b"));
    assert!(matches!(channel.recv(), Received::Item(s) if s == "c"));
    assert!(matches!(channel.recv(), Received::Empty));
}

#[test]
fn a_closed_channel_refuses_values_and_hands_out_the_rest() {
    let mut channel: FifoChannel<u32> = FifoChannel::new();
    assert!(!channel.is_closed());
    assert_eq!(channel.send(1), Ok(()));
    channel.close();
    channel.close();
    assert!(channel.is_closed());
    assert_eq!(channel.send(2), Err(2));
    assert_eq!(channel.len(), 1);
    assert!(matches!(channel.recv(), Received::Item(1)));
    assert!(matches!(channel.recv(), Received::Disconnected));
}

#[test]
fn an_abandoned_channel_gives_back_what_nobody_received() {
    let mut channel: FifoChannel<u32> = FifoChannel::new();
    for i in 0..5 {
        assert_eq!(channel.send(i), Ok(()));
    }
    assert!(matches!(channel.recv(), Received::Item(0)));
    assert_eq!(channel.abandon(), vec![1, 2, 3, 4]);
    assert!(channel.is_closed());
    assert_eq!(channel.len(), 0);
    assert_eq!(channel.send(9), Err(9));
    assert!(matches!(channel.recv(), Received::Disconnected));
    assert_eq!(channel.abandon(), Vec::<u32>::new());
}

#[test]
fn a_channel_keeps_order_over_many_values() {
    let mut channel: FifoChannel<u64> = FifoChannel::new();
    let mut next = 0u64;
    let mut sent = 0u64;
    for round in 0..200u64 {
        for _ in 0..(round % 7) {
            assert_eq!(channel.send(sent), Ok(()));
            sent += 1;
        }
        for _ in 0..(round % 5) {
            if let Received::Item(value) = channel.recv() {
                assert_eq!(value, next);
                next += 1;
            }
        }
        assert_eq!(channel.len() as u64, sent - next);
    }
}

#[test]
fn lanes_are_served_in_turn() {
    let mut queue = LaneQueue::new(3, 10);
    assert_eq!(queue.lane_count(), 3);
    for id in 0..7 {
        assert!(matches!(queue.send(dummy_task(id), false), SendOutcome::Sent));
    }
    assert_eq!(queue.len(), 7);
    assert_eq!(received_id(queue.recv(1)), 1);
    assert_eq!(received_id(queue.recv(0)), 0);
    assert_eq!(received_id(queue.recv(0)), 3);
    assert_eq!(received_id(queue.recv(2)), 2);
    assert_eq!(queue.len(), 3);
    assert_eq!(queue.route(), 1);
    assert!(matches!(queue.send(dummy_task(8), false), SendOutcome::Sent));
    assert_eq!(received_id(queue.recv(2)), 5);
    assert_eq!(received_id(queue.recv(2)), 8);
    assert!(matches!(queue.recv(2), Received::Empty));
}

#[test]
fn lanes_share_one_capacity() {
    let mut queue = LaneQueue::new(2, 2);
    assert!(matches!(queue.send(dummy_task(0), false), SendOutcome::Sent));
    assert!(matches!(queue.send(dummy_task(1), false), SendOutcome::Sent));
    let waiting = match queue.send(dummy_task(2), false) {
        SendOutcome::Full(task) => task,
        _ => panic!("the queue is full"),
    };
    let waiting = match queue.resume_send(waiting, true) {
        SendOutcome::Refused(PoolError::PoolShuttingDown, task) => task,
        _ => panic!("a shutdown ends the wait"),
    };
    assert_eq!(received_id(queue.recv(1)), 1);
    assert!(matches!(queue.resume_send(waiting, false), SendOutcome::Sent));
    assert_eq!(queue.len(), 2);
}

#[test]
fn closed_lanes_refuse_and_drain() {
    let mut queue = LaneQueue::new(2, 4);
    for id in 0..3 {
        assert!(matches!(queue.send(dummy_task(id), false), SendOutcome::Sent));
    }
    assert!(!queue.is_closed());
    queue.close();
    assert!(queue.is_closed());
    assert!(matches!(
        queue.send(dummy_task(3), false),
        SendOutcome::Refused(PoolError::PoolShuttingDown, _)
    ));
    assert!(matches!(
        queue.resume_send(dummy_task(3), true),
        SendOutcome::Refused(PoolError::PoolShuttingDown, _)
    ));
    assert!(matches!(
        queue.resume_send(dummy_task(3), false),
        SendOutcome::Refused(PoolError::QueueSendChannelClosed, _)
    ));
    assert_eq!(received_id(queue.recv(1)), 1);
    assert!(matches!(queue.recv(1), Received::Disconnected));
    let dropped: Vec<u64> = queue.abandon(0).iter().map(|t| t.core.task_id()).collect();
    assert_eq!(dropped, vec![0, 2]);
    assert_eq!(queue.len(), 0);
}

#[test]
fn a_shutdown_refuses_although_a_place_is_free() {
    let mut queue = LaneQueue::new(2, 4);
    assert!(matches!(
        queue.resume_send(dummy_task(0), true),
        SendOutcome::Refused(PoolError::PoolShuttingDown, _)
    ));
    assert!(queue.abandon(1).is_empty());
    assert!(matches!(
        queue.resume_send(dummy_task(1), true),
        SendOutcome::Refused(PoolError::QueueSendChannelClosed, _)
    ));
    assert_eq!(queue.len(), 0);
    for id in 2..6 {
        let outcome = queue.resume_send(dummy_task(id), false);
        if id % 2 == 0 {
            assert!(matches!(outcome, SendOutcome::Sent));
        } else {
            assert!(matches!(
                outcome,
                SendOutcome::Refused(PoolError::QueueSendChannelClosed, _)
            ));
        }
    }
    assert_eq!(queue.len(), 2, "a refused task gives its place back");
}

#[test]
fn a_channel_knows_whether_it_was_abandoned() {
    let mut channel: FifoChannel<u64> = FifoChannel::new();
    assert!(!channel.is_abandoned());
    channel.close();
    assert!(channel.is_closed());
    assert!(!channel.is_abandoned());
    assert!(channel.abandon().is_empty());
    assert!(channel.is_abandoned());
}
