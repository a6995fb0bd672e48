//! A verified model of the wCore teaching kernel: memory layout, Sv39 page
//! tables, process identifiers, the process tree and the system-call layer.
pub mod chars;
pub mod config;
pub mod mm;

pub use config::kernel_stack_position;
pub mod task;
pub mod trap;
pub mod loader;
pub mod syscall;
pub mod timer;
pub mod user;
