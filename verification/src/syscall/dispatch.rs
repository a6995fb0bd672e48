use vstd::prelude::*;

verus! {

pub const SYSCALL_READ: usize = 63;
pub const SYSCALL_WRITE: usize = 64;
pub const SYSCALL_EXIT: usize = 93;
pub const SYSCALL_YIELD: usize = 124;
pub const SYSCALL_GET_TIME: usize = 169;
pub const SYSCALL_FORK: usize = 220;
pub const SYSCALL_EXEC: usize = 221;
pub const SYSCALL_TASKINFO: usize = 255;
pub const SYSCALL_WAITPID: usize = 260;
pub const SYSCALL_REBOOT: usize = 520;

/// What an unsupported system call returns.
pub const SYSCALL_UNSUPPORTED: isize = -2;

/// A system call and its arguments, as the kernel understands them.
#[derive(Clone, Copy, PartialEq, Eq, Structural, Debug)]
pub enum Syscall {
    Write { fd: usize, buf: usize, len: usize },
    Exit { xstate: i32 },
    TaskInfo,
    Yield,
    GetTime { ts: usize, tz: usize },
    Fork,
    Exec { path: usize },
    Read { fd: usize, buf: usize, len: usize },
    Waitpid { pid: isize, exit_code_ptr: usize },
    Reboot { cmd: isize },
}

/// The system call that number `id` with arguments `a0`, `a1`, `a2` asks
/// for; `Err` with the call's result when the number is unknown.
pub open spec fn decode(id: usize, a0: usize, a1: usize, a2: usize) -> Result<Syscall, isize> {
    if id == SYSCALL_WRITE {
        Ok(Syscall::Write { fd: a0, buf: a1, len: a2 })
    } else if id == SYSCALL_EXIT {
        Ok(Syscall::Exit { xstate: a0 as i32 })
    } else if id == SYSCALL_TASKINFO {
        Ok(Syscall::TaskInfo)
    } else if id == SYSCALL_YIELD {
        Ok(Syscall::Yield)
    } else if id == SYSCALL_GET_TIME {
        Ok(Syscall::GetTime { ts: a0, tz: a1 })
    } else if id == SYSCALL_FORK {
        Ok(Syscall::Fork)
    } else if id == SYSCALL_EXEC {
        Ok(Syscall::Exec { path: a0 })
    } else if id == SYSCALL_READ {
        Ok(Syscall::Read { fd: a0, buf: a1, len: a2 })
    } else if id == SYSCALL_WAITPID {
        Ok(Syscall::Waitpid { pid: a0 as isize, exit_code_ptr: a1 })
    } else if id == SYSCALL_REBOOT {
        Ok(Syscall::Reboot { cmd: a0 as isize })
    } else {
        Err(SYSCALL_UNSUPPORTED)
    }
}

/// Decodes the system call `syscall_id` with the arguments `args` from the
/// user registers; an unknown number is answered with -2.
pub fn syscall(syscall_id: usize, args: [usize; 3]) -> (r: Result<Syscall, isize>)
    ensures
        r == decode(syscall_id, args[0], args[1], args[2]),
{
    match syscall_id {
        SYSCALL_WRITE => Ok(Syscall::Write { fd: args[0], buf: args[1], len: args[2] }),
        SYSCALL_EXIT => Ok(Syscall::Exit { xstate: args[0] as i32 }),
        SYSCALL_TASKINFO => Ok(Syscall::TaskInfo),
        SYSCALL_YIELD => Ok(Syscall::Yield),
        SYSCALL_GET_TIME => Ok(Syscall::GetTime { ts: args[0], tz: args[1] }),
        SYSCALL_FORK => Ok(Syscall::Fork),
        SYSCALL_EXEC => Ok(Syscall::Exec { path: args[0] }),
        SYSCALL_READ => Ok(Syscall::Read { fd: args[0], buf: args[1], len: args[2] }),
        SYSCALL_WAITPID => Ok(Syscall::Waitpid { pid: args[0] as isize, exit_code_ptr: args[1] }),
        SYSCALL_REBOOT => Ok(Syscall::Reboot { cmd: args[0] as isize }),
        _ => Err(SYSCALL_UNSUPPORTED),
    }
}

} // verus!
