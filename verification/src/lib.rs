//! A multi-version, optimistically concurrent block execution engine.
//!
//! A block is an ordered sequence of transactions; the engine produces, for
//! every block and base ledger, the same outputs and final state as executing
//! the transactions one by one in index order, while scheduling speculative
//! executions and validations the way an optimistic parallel executor does.

pub mod executor;
mod kvmap;
pub mod laws;
pub mod ledger;
pub mod mvmemory;
pub mod scheduler;
pub mod sync;
pub mod traits;
pub mod transfer;
mod types;

pub use types::{Incarnation, TxnIndex, Version};
