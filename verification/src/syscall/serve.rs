//! Serving a decoded system call: the handler of the call runs and its
//! result goes to register `a0` of the calling process. What needs the
//! console, a clock reading, a new address space or a switch of processes is
//! handed back to the caller as the next thing to do.
use vstd::prelude::*;
use crate::loader::AppTable;
use crate::mm::memory_set::MemorySet;
use crate::syscall::dispatch::Syscall;
use crate::syscall::wcore::{syscall_get_task_info, syscall_reboot};
use crate::syscall::process::{
    sys_exit, sys_yield, sys_fork, sys_waitpid, sys_exec, pid_matches, reapable, user_string_is,
    lemma_pid_matches_only_that_child,
};
use crate::syscall::fs::{sys_write, sys_read, joined, ReadStep, FD_STDOUT, FD_STDIN};
use crate::syscall::time::{syscall_get_time, timeval_bytes, i32_bytes, TimeVal};
use crate::mm::user_buffer::{user_buffer_ok, user_walk, user_byte, string_ends_at};
use crate::chars::line_utf8;
use crate::config::kernel_stack_fits;
use crate::timer::MICRO_PER_SEC;
use crate::task::kernel::{Kernel, INIT_PID, a0_set, same_but_regs};
use crate::task::lifecycle::ExitOutcome;
use crate::task::tasks::{TaskStatus, maps_trap_context, copies_address_space};

verus! {

/// The index of the first child of `p` that `pid` asks for and that has exited.
pub open spec fn first_reapable(k: &Kernel, p: int, pid: isize) -> int {
    choose|i: int| {
        &&& 0 <= i < k.children_of(p).len()
        &&& reapable(k, pid, k.children_of(p)[i])
        &&& forall|j: int| 0 <= j < i ==> !reapable(k, pid, #[trigger] k.children_of(p)[j])
    }
}

/// Some child of `p` that `pid` asks for has exited.
pub open spec fn has_reapable(k: &Kernel, p: int, pid: isize) -> bool {
    exists|i: int| 0 <= i < k.children_of(p).len() && #[trigger] reapable(k, pid, k.children_of(p)[i])
}

/// What `sys_waitpid(pid, ptr)` of the current process of `k` returns: -1
/// when no child is asked for, -2 when none of them has exited, and
/// otherwise the pid of the first that has, or -1 when its exit code may not
/// be written to `ptr`.
pub open spec fn waitpid_result(k: &Kernel, pid: isize, ptr: usize) -> isize {
    let cur = k.current()->Some_0 as int;
    let cs = k.children_of(cur);
    let root = k.task(cur).inner.memory_set.root();
    if forall|i: int| 0 <= i < cs.len() ==> !pid_matches(pid, #[trigger] cs[i]) {
        -1isize
    } else if !has_reapable(k, cur, pid) {
        -2isize
    } else if user_walk(&k.mem, root, ptr as u64, 4, true).1 is Some {
        cs[first_reapable(k, cur, pid)] as isize
    } else {
        -1isize
    }
}

proof fn lemma_first_reapable_exists(k: &Kernel, p: int, pid: isize, i: int)
    requires
        0 <= i < k.children_of(p).len(),
        reapable(k, pid, k.children_of(p)[i]),
    ensures
        exists|m: int| {
            &&& 0 <= m < k.children_of(p).len()
            &&& reapable(k, pid, k.children_of(p)[m])
            &&& forall|j: int| 0 <= j < m ==> !reapable(k, pid, #[trigger] k.children_of(p)[j])
        },
    decreases i,
{
    if exists|j: int| 0 <= j < i && #[trigger] reapable(k, pid, k.children_of(p)[j]) {
        let j = choose|j: int| 0 <= j < i && #[trigger] reapable(k, pid, k.children_of(p)[j]);
        lemma_first_reapable_exists(k, p, pid, j);
    } else {
        assert(forall|j: int| 0 <= j < i ==> !reapable(k, pid, #[trigger] k.children_of(p)[j]));
    }
}

/// A wait for a given pid (anything but -1) is answered by that child or by
/// an error, never by another child.
pub proof fn lemma_waitpid_answers_that_pid(k: &Kernel, pid: isize, ptr: usize)
    requires
        pid != -1,
    ensures
        waitpid_result(k, pid, ptr) >= 0 ==> waitpid_result(k, pid, ptr) == pid,
{
    let cur = k.current()->Some_0 as int;
    let cs = k.children_of(cur);
    if waitpid_result(k, pid, ptr) >= 0 {
        assert(has_reapable(k, cur, pid));
        let i0 = choose|i: int| 0 <= i < cs.len() && #[trigger] reapable(k, pid, cs[i]);
        lemma_first_reapable_exists(k, cur, pid, i0);
        let i = first_reapable(k, cur, pid);
        assert(reapable(k, pid, cs[i]));
        lemma_pid_matches_only_that_child(pid, cs[i]);
    }
}

/// What the caller does once a system call has been served.
#[derive(Debug)]
pub enum Served {
    /// The call is over and its result is in `a0` of the calling process:
    /// return to it.
    Resume,
    /// Print these bytes, one piece after the other, then return to the
    /// calling process; the result is in its `a0`.
    Print(Vec<Vec<u8>>),
    /// Read a character from the console and serve the call again with it.
    NeedInput,
    /// The calling process gave up the processor: switch to the idle loop.
    /// After a yield its `a0` holds 0; a read that found no character is
    /// served again when the process runs.
    Switch,
    /// Build an address space from the application image that starts here
    /// and has this length, hand it to `exec_current_task`, and put its result
    /// in `a0`.
    Load(usize, usize),
    /// The calling process exited: switch to the idle loop, or shut the
    /// machine down.
    Exited(ExitOutcome),
    /// Switch the machine off.
    PowerOff,
}

/// Serves the system call `call` of the current process (decoded by
/// `syscall`; `Err` with the result of an unknown call). `now_us` is the time
/// since boot in microseconds, `input` the console character (when one was
/// read), `child_space` the copy of the caller's address space for a fork,
/// and `apps` the applications an exec looks up.
pub fn serve_syscall(
    kernel: &mut Kernel,
    apps: &AppTable,
    call: Result<Syscall, isize>,
    now_us: usize,
    input: Option<usize>,
    child_space: Option<MemorySet>,
) -> (r: Served)
    requires
        old(kernel).wf(),
        old(kernel).current() is Some,
        apps.wf(),
        ({
            let cur = old(kernel).current()->Some_0 as int;
            let root = old(kernel).task(cur).inner.memory_set.root();
            match call {
                Ok(Syscall::Write { fd, buf, len }) => fd == FD_STDOUT
                    && user_buffer_ok(&old(kernel).mem, root, buf as u64, len as u64, false),
                Ok(Syscall::GetTime { ts, .. }) => user_buffer_ok(&old(kernel).mem, root, ts as u64, 16, true),
                Ok(Syscall::Read { fd, buf, len }) => fd == FD_STDIN && len == 1 && (input matches Some(c) && c != 0)
                    ==> user_buffer_ok(&old(kernel).mem, root, buf as u64, 1, true),
                Ok(Syscall::Waitpid { pid, exit_code_ptr }) => (exists|i: int| 0 <= i < old(kernel).children_of(cur).len()
                    && #[trigger] reapable(old(kernel), pid, old(kernel).children_of(cur)[i]))
                    ==> user_buffer_ok(&old(kernel).mem, root, exit_code_ptr as u64, 4, true),
                Ok(Syscall::Fork) => {
                    &&& child_space matches Some(ms)
                    &&& maps_trap_context(&old(kernel).mem, &ms)
                    &&& copies_address_space(&old(kernel).mem, &old(kernel).task(cur).inner.memory_set, &ms)
                    &&& old(kernel).pid_allocator@.recycled.len() == 0 ==> old(kernel).pid_allocator@.current < usize::MAX
                    &&& kernel_stack_fits(old(kernel).pid_allocator@.next_pid() as int)
                },
                Ok(Syscall::Exec { path }) => exists|n: int| #[trigger] string_ends_at(&old(kernel).mem, root, path as u64, n),
                _ => true,
            }
        }),
    ensures
        final(kernel).wf(),
        ({
            let cur = old(kernel).current()->Some_0 as int;
            match call {
                Err(e) => r is Resume && a0_set(old(kernel), final(kernel), cur, e as usize),
                Ok(Syscall::TaskInfo) => r is Resume && a0_set(old(kernel), final(kernel), cur, cur as usize),
                Ok(Syscall::Reboot { cmd }) => if cmd == 1 {
                    r is PowerOff && *final(kernel) == *old(kernel)
                } else {
                    r is Resume && a0_set(old(kernel), final(kernel), cur, (-1isize) as usize)
                },
                Ok(Syscall::Yield) => {
                    &&& r is Switch
                    &&& final(kernel).current() is None
                    &&& final(kernel).queue() == old(kernel).queue().push(cur as usize)
                    &&& final(kernel).status_of(cur) == TaskStatus::Ready
                    &&& final(kernel).task(cur).inner.trap_cx.x@ == old(kernel).task(cur).inner.trap_cx.x@.update(10, 0)
                    &&& final(kernel).mem == old(kernel).mem
                },
                Ok(Syscall::Exit { xstate }) => {
                    &&& r matches Served::Exited(o)
                    &&& final(kernel).current() is None
                    &&& cur == INIT_PID ==> o == (ExitOutcome::Shutdown { failure: xstate != 0 })
                    &&& cur != INIT_PID ==> {
                        &&& o == ExitOutcome::Exited
                        &&& final(kernel).status_of(cur) == TaskStatus::Zombie
                        &&& final(kernel).task(cur).inner.exit_code == xstate
                    }
                },
                Ok(Syscall::Write { fd, buf, len }) => {
                    let root = old(kernel).task(cur).inner.memory_set.root();
                    let ok = user_walk(&old(kernel).mem, root, buf as u64, len as u64, false).1 is Some;
                    &&& r matches Served::Print(v)
                    &&& a0_set(old(kernel), final(kernel), cur, (if ok { len as isize } else { -1isize }) as usize)
                    &&& ok ==> {
                        &&& joined(v@.map_values(|b: Vec<u8>| b@)).len() == len
                        &&& forall|k: int| 0 <= k < len ==> #[trigger] user_byte(&old(kernel).mem, root, buf + k)
                            == Some(joined(v@.map_values(|b: Vec<u8>| b@))[k])
                    }
                    &&& !ok ==> v@.len() == 0
                },
                Ok(Syscall::GetTime { ts, .. }) => {
                    let root = old(kernel).task(cur).inner.memory_set.root();
                    let ok = user_walk(&old(kernel).mem, root, ts as u64, 16, true).1 is Some;
                    let tv = TimeVal { sec: now_us / MICRO_PER_SEC, usec: now_us };
                    &&& r is Resume
                    &&& final(kernel).tasks@.len() == old(kernel).tasks@.len()
                    &&& forall|q: int| 0 <= q < old(kernel).tasks@.len() && q != cur ==>
                        #[trigger] final(kernel).tasks@[q] == old(kernel).tasks@[q]
                    &&& final(kernel).live(cur)
                    &&& same_but_regs(old(kernel).task(cur), final(kernel).task(cur))
                    &&& final(kernel).task(cur).inner.trap_cx.x@
                        == old(kernel).task(cur).inner.trap_cx.x@.update(10, (if ok { 0isize } else { -1isize }) as usize)
                    &&& final(kernel).processor == old(kernel).processor
                    &&& final(kernel).manager == old(kernel).manager
                    &&& final(kernel).pid_allocator == old(kernel).pid_allocator
                    &&& final(kernel).mem.frames() == old(kernel).mem.frames()
                    &&& old(kernel).mem.same_ptes(&final(kernel).mem)
                    &&& ok ==> forall|k: int| 0 <= k < 16 ==>
                        #[trigger] user_byte(&final(kernel).mem, root, ts + k) == Some(timeval_bytes(tv)[k])
                    &&& !ok ==> final(kernel).mem == old(kernel).mem
                },
                Ok(Syscall::Read { fd, buf, len }) => if fd != FD_STDIN || len != 1 {
                    r is Resume && a0_set(old(kernel), final(kernel), cur, (-1isize) as usize)
                } else if input is None {
                    r is NeedInput && *final(kernel) == *old(kernel)
                } else if input == Some(0usize) {
                    &&& r is Switch
                    &&& final(kernel).current() is None
                    &&& final(kernel).queue() == old(kernel).queue().push(cur as usize)
                    &&& final(kernel).status_of(cur) == TaskStatus::Ready
                    &&& final(kernel).task(cur).inner.trap_cx == old(kernel).task(cur).inner.trap_cx
                    &&& final(kernel).mem == old(kernel).mem
                } else {
                    let root = old(kernel).task(cur).inner.memory_set.root();
                    let ok = user_walk(&old(kernel).mem, root, buf as u64, 1, true).1 is Some;
                    &&& r is Resume
                    &&& final(kernel).tasks@.len() == old(kernel).tasks@.len()
                    &&& forall|q: int| 0 <= q < old(kernel).tasks@.len() && q != cur ==>
                        #[trigger] final(kernel).tasks@[q] == old(kernel).tasks@[q]
                    &&& same_but_regs(old(kernel).task(cur), final(kernel).task(cur))
                    &&& final(kernel).task(cur).inner.trap_cx.x@
                        == old(kernel).task(cur).inner.trap_cx.x@.update(10, (if ok { 0isize } else { -1isize }) as usize)
                    &&& final(kernel).processor == old(kernel).processor
                    &&& final(kernel).manager == old(kernel).manager
                    &&& ok ==> user_byte(&final(kernel).mem, root, buf as int) == Some(input->Some_0 as u8)
                    &&& !ok ==> final(kernel).mem == old(kernel).mem
                },
                Ok(Syscall::Fork) => {
                    let child = old(kernel).pid_allocator@.next_pid();
                    &&& r is Resume
                    &&& !old(kernel).live(child as int)
                    &&& final(kernel).live(child as int)
                    &&& final(kernel).current() == old(kernel).current()
                    &&& final(kernel).queue() == old(kernel).queue().push(child as usize)
                    &&& final(kernel).parent_of(child as int) == Some(cur as usize)
                    &&& final(kernel).children_of(cur) == old(kernel).children_of(cur).push(child as usize)
                    &&& final(kernel).status_of(child as int) == TaskStatus::Ready
                    &&& final(kernel).task(child as int).inner.memory_set == child_space->Some_0
                    &&& final(kernel).task(child as int).inner.trap_cx.x@
                        == old(kernel).task(cur).inner.trap_cx.x@.update(10, 0)
                    &&& final(kernel).task(child as int).inner.trap_cx.sepc == old(kernel).task(cur).inner.trap_cx.sepc
                    &&& final(kernel).task(cur).inner.trap_cx.x@
                        == old(kernel).task(cur).inner.trap_cx.x@.update(10, ((child as usize) as isize) as usize)
                },
                Ok(Syscall::Waitpid { pid, exit_code_ptr }) => {
                    let v = waitpid_result(old(kernel), pid, exit_code_ptr);
                    let cs = old(kernel).children_of(cur);
                    let root = old(kernel).task(cur).inner.memory_set.root();
                    &&& r is Resume
                    &&& final(kernel).current() == old(kernel).current()
                    &&& final(kernel).queue() == old(kernel).queue()
                    &&& final(kernel).task(cur).inner.trap_cx.x@ == old(kernel).task(cur).inner.trap_cx.x@.update(10, v as usize)
                    &&& !has_reapable(old(kernel), cur, pid) ==> a0_set(old(kernel), final(kernel), cur, v as usize)
                    &&& has_reapable(old(kernel), cur, pid) ==> {
                        let i = first_reapable(old(kernel), cur, pid);
                        &&& !final(kernel).live(cs[i] as int)
                        &&& final(kernel).children_of(cur) == cs.remove(i)
                        &&& final(kernel).pid_allocator@ == old(kernel).pid_allocator@.after_dealloc(cs[i])
                        &&& v >= 0 ==> forall|k: int| 0 <= k < 4 ==>
                            #[trigger] user_byte(&final(kernel).mem, root, exit_code_ptr + k)
                                == Some(i32_bytes(old(kernel).task(cs[i] as int).inner.exit_code)[k])
                    }
                },
                Ok(Syscall::Exec { path }) => {
                    let root = old(kernel).task(cur).inner.memory_set.root();
                    &&& r is Load || r is Resume
                    &&& r matches Served::Load(start, len) ==> {
                        &&& *final(kernel) == *old(kernel)
                        &&& exists|s: Seq<u8>, i: int| {
                            &&& #[trigger] user_string_is(old(kernel), root, path as u64, s)
                            &&& 0 <= i < apps.num_app()
                            &&& #[trigger] apps.names()[i] == line_utf8(s)
                            &&& forall|j: int| 0 <= j < i ==> apps.names()[j] != line_utf8(s)
                            &&& start == apps.starts()[i]
                            &&& len == apps.starts()[i + 1] - apps.starts()[i]
                        }
                    }
                    &&& r is Resume ==> exists|e: isize| {
                        &&& #[trigger] a0_set(old(kernel), final(kernel), cur, e as usize)
                        &&& {
                            ||| e == -2 && exists|n: int| #[trigger] string_ends_at(&old(kernel).mem, root, path as u64, n)
                                && user_byte(&old(kernel).mem, root, path + n) is None
                            ||| e == -1 && exists|s: Seq<u8>| #[trigger] user_string_is(old(kernel), root, path as u64, s)
                                && forall|i: int| 0 <= i < apps.num_app() ==> apps.names()[i] != line_utf8(s)
                        }
                    }
                },
            }
        }),
{
    let cur = kernel.processor.current().unwrap();
    match call {
        Err(e) => {
            kernel.set_a0(cur, e as usize);
            Served::Resume
        },
        Ok(Syscall::TaskInfo) => {
            let v = syscall_get_task_info(kernel);
            kernel.set_a0(cur, v as usize);
            Served::Resume
        },
        Ok(Syscall::Reboot { cmd }) => {
            match syscall_reboot(cmd) {
                None => Served::PowerOff,
                Some(v) => {
                    kernel.set_a0(cur, v as usize);
                    Served::Resume
                },
            }
        },
        Ok(Syscall::Yield) => {
            kernel.set_a0(cur, 0);
            sys_yield(kernel);
            Served::Switch
        },
        Ok(Syscall::Exit { xstate }) => Served::Exited(sys_exit(kernel, xstate)),
        Ok(Syscall::Write { fd, buf, len }) => {
            let (v, out) = sys_write(kernel, fd, buf, len);
            kernel.set_a0(cur, v as usize);
            Served::Print(out)
        },
        Ok(Syscall::GetTime { ts, tz }) => {
            let v = syscall_get_time(kernel, ts, tz, now_us);
            kernel.set_a0(cur, v as usize);
            Served::Resume
        },
        Ok(Syscall::Read { fd, buf, len }) => {
            match sys_read(kernel, fd, buf, len, input) {
                ReadStep::Done(v) => {
                    kernel.set_a0(cur, v as usize);
                    Served::Resume
                },
                ReadStep::NeedInput => Served::NeedInput,
                ReadStep::Suspended => Served::Switch,
            }
        },
        Ok(Syscall::Fork) => {
            let ms = match child_space {
                Some(ms) => ms,
                None => {
                    assert(false);
                    return Served::Resume;
                },
            };
            let v = sys_fork(kernel, ms);
            kernel.set_a0(cur, v as usize);
            Served::Resume
        },
        Ok(Syscall::Waitpid { pid, exit_code_ptr }) => {
            let v = sys_waitpid(kernel, pid, exit_code_ptr);
            kernel.set_a0(cur, v as usize);
            Served::Resume
        },
        Ok(Syscall::Exec { path }) => {
            match sys_exec(kernel, apps, path) {
                Ok((start, len)) => Served::Load(start, len),
                Err(e) => {
                    kernel.set_a0(cur, e as usize);
                    Served::Resume
                },
            }
        },
    }
}

} // verus!
