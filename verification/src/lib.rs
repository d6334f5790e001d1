//! Local replica storage for a distributed task-list synchronization system:
//! an in-memory task table, an append-only log of not-yet-synchronized
//! operations, and the version-tracking contract exposed to a synchronization
//! driver.

pub mod operation;
pub mod storage;
pub mod task;
