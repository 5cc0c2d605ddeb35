# futures_orchestra

A pool that runs futures with bounded concurrency: a bounded queue with
backpressure, labels for group cancellation, cooperative cancellation, completion
notifications, and graceful or forceful shutdown.

Every decision of the pool is made by a verified core without I/O. The core is a
state machine: the code around it performs what the core asks for and reports what
happened.

## Layout

- `src/` is the verified core.
  - `manager.rs` is the pool with one dispatch loop, `pool_view.rs` says what each
    of its operations does, and `pool_laws.rs` what holds whatever happens to it.
  - `rlxd.rs`, `rlxd_view.rs` and `rlxd_laws.rs` are the same for the relaxed pool,
    which has one dispatch loop for each lane of its queue.
  - `task_queue.rs` and `lanes.rs` are the two bounded queues; both stand on
    `channel.rs`, which keeps its order with a channel of the `fibre` crate.
  - `notifier.rs`, `shutdown.rs`, `token.rs`, `active.rs`, `handle.rs` and
    `execution.rs` are the parts that both pools share.
- `app/` runs the core on Tokio: it spawns, waits, catches panics and carries
  results to the handles.
- `tests/` drives the core step by step.

## What is trusted

`channel.rs` states what an unbounded channel of `fibre::mpsc` does, and
`handle.rs` the text of `fibre::oneshot::RecvError`. Everything else in `src/` is
proved.
