use vstd::prelude::*;

verus! {

/// The callee-saved registers a task switch keeps: return address, stack
/// pointer and `s0`..`s11`.
#[derive(Clone, Copy, Debug)]
pub struct TaskContext {
    pub ra: usize,
    pub sp: usize,
    pub s: [usize; 12],
}

impl TaskContext {
    /// All registers zero.
    pub fn zero_init() -> (r: TaskContext)
        ensures
            r.ra == 0,
            r.sp == 0,
            forall|i: int| 0 <= i < 12 ==> r.s[i] == 0,
    {
        TaskContext { ra: 0, sp: 0, s: [0usize; 12] }
    }

    /// A context that, once switched to, returns to user mode through
    /// `trap_return_entry` on the kernel stack whose top is `kstack_ptr`.
    pub fn goto_trap_return(trap_return_entry: usize, kstack_ptr: usize) -> (r: TaskContext)
        ensures
            r.ra == trap_return_entry,
            r.sp == kstack_ptr,
            forall|i: int| 0 <= i < 12 ==> r.s[i] == 0,
    {
        TaskContext { ra: trap_return_entry, sp: kstack_ptr, s: [0usize; 12] }
    }
}

} // verus!
