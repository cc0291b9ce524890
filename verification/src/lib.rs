//! Transactional core of a task-economy ledger.
//!
//! The library tracks work items from creation through assignment, execution,
//! community-adjudicated verification, and reward settlement.  It is organised
//! around a single engine value ([`pallet::Pallet`]) that owns the task
//! records, the verification rounds with their votes, and the escrow ledger,
//! so that independent instances never interfere.
//!
//! Every operation validates before it mutates: a failed call returns a typed
//! [`errors::Error`] and leaves the engine exactly as it was.

pub mod achievements;
pub mod errors;
pub mod ledger;
pub mod lifecycle;
pub mod pallet;
pub mod search;
pub mod table;
pub mod task;

pub use errors::Error;
pub use ledger::Ledger;
pub use lifecycle::{Priority, TaskStatus};
pub use pallet::{Config, Pallet};
pub use table::Table;
pub use task::{Task, TaskSearchParams, TaskSortBy, TaskStatistics};
