use vstd::prelude::*;
use crate::user::syscall::{SyscallRequest, sys_write, sys_exit, sys_get_task_info, sys_yield, sys_get_time};
use crate::syscall::dispatch::{SYSCALL_WRITE, SYSCALL_EXIT, SYSCALL_TASKINFO, SYSCALL_YIELD, SYSCALL_GET_TIME};

verus! {

/// A time as a program sees it: whole seconds and microseconds.
#[derive(Clone, Copy, PartialEq, Eq, Structural, Debug)]
pub struct TimeVal {
    pub sec: usize,
    pub usec: usize,
}

impl TimeVal {
    /// Zero.
    pub fn new() -> (r: TimeVal)
        ensures
            r.sec == 0,
            r.usec == 0,
    {
        TimeVal { sec: 0, usec: 0 }
    }
}

impl Default for TimeVal {
    fn default() -> (r: TimeVal)
        ensures
            r.sec == 0,
            r.usec == 0,
    {
        TimeVal::new()
    }
}

/// Writes the `len` bytes at `buf` to the file `fd`.
pub fn write(fd: usize, buf: usize, len: usize) -> (r: SyscallRequest)
    ensures
        r == (SyscallRequest { id: SYSCALL_WRITE, a0: fd, a1: buf, a2: len }),
{
    sys_write(fd, buf, len)
}

/// Ends the program with `exit_code`.
pub fn exit(exit_code: i32) -> (r: SyscallRequest)
    ensures
        r == (SyscallRequest { id: SYSCALL_EXIT, a0: exit_code as usize, a1: 0, a2: 0 }),
{
    sys_exit(exit_code)
}

/// Asks for the program's pid.
pub fn get_taskinfo() -> (r: SyscallRequest)
    ensures
        r == (SyscallRequest { id: SYSCALL_TASKINFO, a0: 0, a1: 0, a2: 0 }),
{
    sys_get_task_info()
}

/// Gives up the processor.
pub fn yield_() -> (r: SyscallRequest)
    ensures
        r == (SyscallRequest { id: SYSCALL_YIELD, a0: 0, a1: 0, a2: 0 }),
{
    sys_yield()
}

/// Has the time written to the `TimeVal` at `ts`.
pub fn get_time(ts: usize) -> (r: SyscallRequest)
    ensures
        r == (SyscallRequest { id: SYSCALL_GET_TIME, a0: ts, a1: 0, a2: 0 }),
{
    sys_get_time(ts, 0)
}

} // verus!
