//! Processes: pids, kernel stacks, task control blocks, the ready queue and
//! the process tree.
pub mod context;
pub mod kernel;
pub mod manager;
pub mod pid;
pub mod processor;
pub mod tasks;
pub mod lifecycle;

pub use lifecycle::{suspend_current_and_run_next, exit_current_and_run_next, add_initproc, ExitOutcome};
