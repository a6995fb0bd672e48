use vstd::prelude::*;
use crate::syscall::dispatch::{
    SYSCALL_READ, SYSCALL_WRITE, SYSCALL_EXIT, SYSCALL_YIELD, SYSCALL_GET_TIME, SYSCALL_FORK,
    SYSCALL_EXEC, SYSCALL_TASKINFO, SYSCALL_WAITPID, SYSCALL_REBOOT, Syscall, decode,
};

verus! {

/// What a program puts in registers `a7` and `a0`..`a2` before `ecall`.
#[derive(Clone, Copy, PartialEq, Eq, Structural, Debug)]
pub struct SyscallRequest {
    pub id: usize,
    pub a0: usize,
    pub a1: usize,
    pub a2: usize,
}

impl SyscallRequest {
    /// The arguments in register order.
    pub fn args(&self) -> (r: [usize; 3])
        ensures
            r[0] == self.a0,
            r[1] == self.a1,
            r[2] == self.a2,
    {
        [self.a0, self.a1, self.a2]
    }
}

/// Writes the `len` bytes at `buffer` to the file `fd`.
pub fn sys_write(fd: usize, buffer: usize, len: usize) -> (r: SyscallRequest)
    ensures
        r == (SyscallRequest { id: SYSCALL_WRITE, a0: fd, a1: buffer, a2: len }),
{
    SyscallRequest { id: SYSCALL_WRITE, a0: fd, a1: buffer, a2: len }
}

/// Ends the program with exit code `state`.
pub fn sys_exit(state: i32) -> (r: SyscallRequest)
    ensures
        r == (SyscallRequest { id: SYSCALL_EXIT, a0: state as usize, a1: 0, a2: 0 }),
{
    SyscallRequest { id: SYSCALL_EXIT, a0: state as usize, a1: 0, a2: 0 }
}

/// Asks for the program's pid.
pub fn sys_get_task_info() -> (r: SyscallRequest)
    ensures
        r == (SyscallRequest { id: SYSCALL_TASKINFO, a0: 0, a1: 0, a2: 0 }),
{
    SyscallRequest { id: SYSCALL_TASKINFO, a0: 0, a1: 0, a2: 0 }
}

/// Gives up the processor.
pub fn sys_yield() -> (r: SyscallRequest)
    ensures
        r == (SyscallRequest { id: SYSCALL_YIELD, a0: 0, a1: 0, a2: 0 }),
{
    SyscallRequest { id: SYSCALL_YIELD, a0: 0, a1: 0, a2: 0 }
}

/// Asks for the time, to be written to the `TimeVal` at `ts`.
pub fn sys_get_time(ts: usize, tz: usize) -> (r: SyscallRequest)
    ensures
        r == (SyscallRequest { id: SYSCALL_GET_TIME, a0: ts, a1: tz, a2: 0 }),
{
    SyscallRequest { id: SYSCALL_GET_TIME, a0: ts, a1: tz, a2: 0 }
}

/// Forks the program.
pub fn sys_fork() -> (r: SyscallRequest)
    ensures
        r == (SyscallRequest { id: SYSCALL_FORK, a0: 0, a1: 0, a2: 0 }),
{
    SyscallRequest { id: SYSCALL_FORK, a0: 0, a1: 0, a2: 0 }
}

/// Waits for the child `pid` (-1: any child) and has its exit code written to
/// `exit_code`.
pub fn sys_waitpid(pid: isize, exit_code: usize) -> (r: SyscallRequest)
    ensures
        r == (SyscallRequest { id: SYSCALL_WAITPID, a0: pid as usize, a1: exit_code, a2: 0 }),
{
    SyscallRequest { id: SYSCALL_WAITPID, a0: pid as usize, a1: exit_code, a2: 0 }
}

/// Runs the program whose zero-terminated name is at `path` instead.
pub fn sys_exec(path: usize) -> (r: SyscallRequest)
    ensures
        r == (SyscallRequest { id: SYSCALL_EXEC, a0: path, a1: 0, a2: 0 }),
{
    SyscallRequest { id: SYSCALL_EXEC, a0: path, a1: 0, a2: 0 }
}

/// Reads up to `len` bytes from the file `fd` into `buffer`.
pub fn sys_read(fd: usize, buffer: usize, len: usize) -> (r: SyscallRequest)
    ensures
        r == (SyscallRequest { id: SYSCALL_READ, a0: fd, a1: buffer, a2: len }),
{
    SyscallRequest { id: SYSCALL_READ, a0: fd, a1: buffer, a2: len }
}

/// Asks for the machine to be switched off (`cmd` 1).
pub fn sys_reboot(cmd: isize) -> (r: SyscallRequest)
    ensures
        r == (SyscallRequest { id: SYSCALL_REBOOT, a0: cmd as usize, a1: 0, a2: 0 }),
{
    SyscallRequest { id: SYSCALL_REBOOT, a0: cmd as usize, a1: 0, a2: 0 }
}

/// What the user library asks for is what the kernel serves: every request
/// the library builds decodes in the kernel to the call with the same
/// arguments, signed arguments included.
pub proof fn lemma_requests_decode(
    fd: usize,
    buffer: usize,
    len: usize,
    state: i32,
    ts: usize,
    tz: usize,
    pid: isize,
    exit_code: usize,
    path: usize,
    cmd: isize,
)
    ensures
        decode(SYSCALL_WRITE, fd, buffer, len) == Ok::<Syscall, isize>(Syscall::Write { fd, buf: buffer, len }),
        decode(SYSCALL_EXIT, state as usize, 0, 0) == Ok::<Syscall, isize>(Syscall::Exit { xstate: state }),
        decode(SYSCALL_TASKINFO, 0, 0, 0) == Ok::<Syscall, isize>(Syscall::TaskInfo),
        decode(SYSCALL_YIELD, 0, 0, 0) == Ok::<Syscall, isize>(Syscall::Yield),
        decode(SYSCALL_GET_TIME, ts, tz, 0) == Ok::<Syscall, isize>(Syscall::GetTime { ts, tz }),
        decode(SYSCALL_FORK, 0, 0, 0) == Ok::<Syscall, isize>(Syscall::Fork),
        decode(SYSCALL_WAITPID, pid as usize, exit_code, 0) == Ok::<Syscall, isize>(Syscall::Waitpid { pid, exit_code_ptr: exit_code }),
        decode(SYSCALL_EXEC, path, 0, 0) == Ok::<Syscall, isize>(Syscall::Exec { path }),
        decode(SYSCALL_READ, fd, buffer, len) == Ok::<Syscall, isize>(Syscall::Read { fd, buf: buffer, len }),
        decode(SYSCALL_REBOOT, cmd as usize, 0, 0) == Ok::<Syscall, isize>(Syscall::Reboot { cmd }),
{
    assert((state as usize) as i32 == state) by (bit_vector);
    assert((pid as usize) as isize == pid) by (bit_vector);
    assert((cmd as usize) as isize == cmd) by (bit_vector);
}

} // verus!
