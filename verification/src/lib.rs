//! Decision core of a pool that runs futures with bounded concurrency.

pub mod active;
pub mod behaviour;
pub mod capacity_gate;
pub mod channel;
pub mod error;
pub mod execution;
pub mod handle;
pub mod keys;
pub mod lanes;
pub mod manager;
pub mod notifier;
pub mod pool_behaviour;
pub mod pool_laws;
pub mod pool_view;
pub mod rlxd;
pub mod rlxd_behaviour;
pub mod rlxd_laws;
pub mod rlxd_view;
pub mod shutdown;
pub mod slots;
pub mod sums;
pub mod task;
pub mod task_queue;
pub mod text;
pub mod token;

pub use error::PoolError;
pub use handle::TaskHandle;
pub use manager::FuturePoolManager;
pub use notifier::{TaskCompletionInfo, TaskCompletionStatus};
pub use rlxd::FuturePoolManagerRlxd;
pub use shutdown::ShutdownMode;
pub use task::TaskLabel;
