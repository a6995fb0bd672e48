use vstd::prelude::*;
use crate::task::kernel::Kernel;
use crate::task::processor::current_task;

verus! {

/// The pid of the current process, or -1 when no process runs.
pub fn syscall_get_task_info(kernel: &Kernel) -> (r: isize)
    ensures
        r == match kernel.current() {
            Some(p) => p as isize,
            None => -1isize,
        },
{
    if let Some(task) = current_task(kernel) {
        task as isize
    } else {
        -1
    }
}

/// Command 1 asks for the machine to be switched off: the answer is `None`,
/// and the caller resets the machine, never to return. Any other command is
/// refused with -1.
pub fn syscall_reboot(cmd: isize) -> (r: Option<isize>)
    ensures
        r == if cmd == 1 { None } else { Some(-1isize) },
{
    if cmd == 1 {
        return None;
    }
    Some(-1)
}

} // verus!
