//! The user library: what a program does to ask the kernel for a service,
//! and the line editor of the shell.
pub mod shell;
pub mod syscall;
pub mod ulib;
