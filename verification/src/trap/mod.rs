//! Traps from user mode: the saved context and what the kernel does about
//! each kind of trap.
pub mod context;

use vstd::prelude::*;
use crate::syscall::dispatch::{Syscall, decode, syscall};
use crate::task::kernel::{Kernel, lemma_trap_cx_update};
use crate::task::lifecycle::{exit_current_and_run_next, suspend_current_and_run_next, ExitOutcome};
use crate::config::{PAGE_SIZE, TRAMPOLINE, TRAP_CONTEXT};
use crate::task::processor::{current_trap_cx, current_user_token, with_trap_cx};
use crate::task::kernel::with_status;
use crate::trap::context::TrapContext;
use crate::task::tasks::TaskStatus;

verus! {

/// Why the processor trapped from user mode.
#[derive(Clone, Copy, PartialEq, Eq, Structural, Debug)]
pub enum TrapCause {
    /// The program asked for a system call.
    UserEnvCall,
    /// A store failed.
    StoreFault,
    /// A store hit a page it may not write.
    StorePageFault,
    /// The program ran an illegal instruction.
    IllegalInstruction,
    /// The timer went off.
    SupervisorTimer,
    /// Anything else.
    Unsupported,
}

/// What the kernel does about a trap.
#[derive(Clone, Copy, Debug)]
pub enum TrapAction {
    /// Serve this system call (or answer an unknown one with the error) with
    /// `serve_syscall`, which leaves its result in `a0`.
    Syscall(Result<Syscall, isize>),
    /// The program was killed.
    Killed(ExitOutcome),
    /// The program was preempted: the next timer interrupt is to be set.
    Preempted,
    /// The kernel cannot go on.
    Fatal,
}

/// Handles a trap of the current process with cause `cause`. A system call
/// moves the saved program counter past the `ecall` and is decoded from the
/// saved registers `a7` and `a0`..`a2`; a faulting store kills the process
/// with code -2, an illegal instruction with -3; a timer interrupt
/// preempts it.
pub fn trap_handler(kernel: &mut Kernel, cause: TrapCause) -> (r: TrapAction)
    requires
        old(kernel).wf(),
        old(kernel).current() is Some,
        cause == TrapCause::UserEnvCall ==>
            old(kernel).task(old(kernel).current()->Some_0 as int).inner.trap_cx.sepc + 4 <= usize::MAX,
    ensures
        final(kernel).wf(),
        ({
            let cur = old(kernel).current()->Some_0 as int;
            let cx = old(kernel).task(cur).inner.trap_cx;
            match cause {
                TrapCause::UserEnvCall => {
                    &&& r matches TrapAction::Syscall(call) && call == decode(cx.x[17], cx.x[10], cx.x[11], cx.x[12])
                    &&& final(kernel).current() == old(kernel).current()
                    &&& final(kernel).task(cur).inner.trap_cx.sepc == cx.sepc + 4
                    &&& final(kernel).task(cur).inner.trap_cx.x == cx.x
                    &&& final(kernel).tasks@ == old(kernel).tasks@.update(
                        cur,
                        Some(with_trap_cx(old(kernel).task(cur), (TrapContext { sepc: (cx.sepc + 4) as usize, ..cx }))),
                    )
                    &&& final(kernel).processor == old(kernel).processor
                    &&& final(kernel).manager == old(kernel).manager
                    &&& final(kernel).pid_allocator == old(kernel).pid_allocator
                    &&& final(kernel).mem == old(kernel).mem
                    &&& final(kernel).entries == old(kernel).entries
                },
                TrapCause::StoreFault | TrapCause::StorePageFault => {
                    &&& r matches TrapAction::Killed(o)
                    &&& cur == crate::task::kernel::INIT_PID ==> o == (ExitOutcome::Shutdown { failure: true })
                    &&& cur != crate::task::kernel::INIT_PID ==> o == ExitOutcome::Exited
                        && final(kernel).status_of(cur) == TaskStatus::Zombie
                        && final(kernel).task(cur).inner.exit_code == -2
                    &&& final(kernel).live(cur)
                    &&& final(kernel).task(cur).inner.trap_cx == cx
                    &&& final(kernel).task(cur).inner.memory_set == old(kernel).task(cur).inner.memory_set
                    &&& final(kernel).queue() == old(kernel).queue()
                    &&& final(kernel).current() is None
                },
                TrapCause::IllegalInstruction => {
                    &&& r matches TrapAction::Killed(o)
                    &&& cur == crate::task::kernel::INIT_PID ==> o == (ExitOutcome::Shutdown { failure: true })
                    &&& cur != crate::task::kernel::INIT_PID ==> o == ExitOutcome::Exited
                        && final(kernel).status_of(cur) == TaskStatus::Zombie
                        && final(kernel).task(cur).inner.exit_code == -3
                    &&& final(kernel).live(cur)
                    &&& final(kernel).task(cur).inner.trap_cx == cx
                    &&& final(kernel).task(cur).inner.memory_set == old(kernel).task(cur).inner.memory_set
                    &&& final(kernel).queue() == old(kernel).queue()
                    &&& final(kernel).current() is None
                },
                TrapCause::SupervisorTimer => {
                    &&& r matches TrapAction::Preempted
                    &&& final(kernel).current() is None
                    &&& final(kernel).queue() == old(kernel).queue().push(cur as usize)
                    &&& final(kernel).status_of(cur) == TaskStatus::Ready
                    &&& final(kernel).tasks@ == old(kernel).tasks@.update(
                        cur,
                        Some(with_status(old(kernel).task(cur), TaskStatus::Ready)),
                    )
                    &&& final(kernel).task(cur).inner.trap_cx == cx
                    &&& final(kernel).mem == old(kernel).mem
                },
                TrapCause::Unsupported => r matches TrapAction::Fatal && *final(kernel) == *old(kernel),
            }
        }),
{
    match cause {
        TrapCause::UserEnvCall => {
            let ghost k0 = *kernel;
            let cx = current_trap_cx(kernel);
            cx.sepc = cx.sepc + 4;
            let id = cx.x[17];
            let args = [cx.x[10], cx.x[11], cx.x[12]];
            proof {
                lemma_trap_cx_update(&k0, kernel, k0.current()->Some_0 as int, kernel.task(k0.current()->Some_0 as int).inner.trap_cx);
            }
            TrapAction::Syscall(syscall(id, args))
        },
        TrapCause::StoreFault | TrapCause::StorePageFault => {
            TrapAction::Killed(exit_current_and_run_next(kernel, -2))
        },
        TrapCause::IllegalInstruction => {
            TrapAction::Killed(exit_current_and_run_next(kernel, -3))
        },
        TrapCause::SupervisorTimer => {
            suspend_current_and_run_next(kernel);
            TrapAction::Preempted
        },
        TrapCause::Unsupported => TrapAction::Fatal,
    }
}

/// Hands the result of a system call to the current process: it will see
/// it in register `a0`. This is how the result of `exec_current_task` reaches
/// the process after `serve_syscall` asked for an image to be loaded.
pub fn set_syscall_result(kernel: &mut Kernel, result: isize)
    requires
        old(kernel).wf(),
        old(kernel).current() is Some,
    ensures
        final(kernel).wf(),
        final(kernel).current() == old(kernel).current(),
        final(kernel).queue() == old(kernel).queue(),
        ({
            let cur = old(kernel).current()->Some_0 as int;
            &&& final(kernel).task(cur).inner.trap_cx.x@ == old(kernel).task(cur).inner.trap_cx.x@.update(10, result as usize)
            &&& final(kernel).task(cur).inner.trap_cx.sepc == old(kernel).task(cur).inner.trap_cx.sepc
            &&& forall|p: int| #[trigger] old(kernel).live(p) && p != cur ==> final(kernel).task(p) == old(kernel).task(p)
        }),
{
    let ghost k0 = *kernel;
    let cx = current_trap_cx(kernel);
    cx.x[10] = result as usize;
    proof {
        let cur = k0.current()->Some_0 as int;
        lemma_trap_cx_update(&k0, kernel, cur, kernel.task(cur).inner.trap_cx);
        assert forall|p: int| #[trigger] k0.live(p) && p != cur implies kernel.task(p) == k0.task(p) by {
            assert(kernel.tasks@[p] == k0.tasks@[p]);
        }
    }
}

/// The jump back to user mode: the address `__restore` runs at, and what it
/// receives in `a0` (the trap context) and `a1` (the address space).
#[derive(Clone, Copy, PartialEq, Eq, Structural, Debug)]
pub struct UserReturn {
    pub restore_va: usize,
    pub trap_cx_ptr: usize,
    pub user_satp: u64,
}

/// Resumes the current process in user mode. The trap code is mapped at
/// `TRAMPOLINE` in every address space, so `__restore`, linked at `restore`
/// in the same page as `__all_traps` at `all_traps`, runs at
/// `restore - all_traps + TRAMPOLINE`; it is handed the trap context page and
/// the `satp` of the current process's address space.
pub fn trap_return(kernel: &Kernel, all_traps: usize, restore: usize) -> (r: UserReturn)
    requires
        kernel.wf(),
        kernel.current() is Some,
        all_traps <= restore,
        restore - all_traps < PAGE_SIZE,
    ensures
        r.restore_va == restore - all_traps + TRAMPOLINE,
        r.trap_cx_ptr == TRAP_CONTEXT,
        r.user_satp == kernel.task(kernel.current()->Some_0 as int).inner.memory_set.satp(),
{
    let trap_cx_ptr = TRAP_CONTEXT;
    let user_satp = current_user_token(kernel);
    let restore_va = restore - all_traps + TRAMPOLINE;
    UserReturn { restore_va, trap_cx_ptr, user_satp }
}

} // verus!
