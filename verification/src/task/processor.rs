use vstd::prelude::*;
use crate::task::context::TaskContext;
use crate::task::kernel::{
    Kernel, is_live, status_at, task_at, same_structure, lemma_same_structure, with_status,
};
use crate::task::manager::fetch_task;
use crate::task::tasks::{TaskControlBlock, TaskControlBlockInner, TaskStatus};
use crate::trap::context::TrapContext;

verus! {

/// What the processor runs: the current process, if any, and the context of
/// its idle loop.
pub struct Processor {
    pub current: Option<usize>,
    pub idle_task_cx: TaskContext,
}

impl Processor {
    /// A processor that runs no process.
    pub fn new() -> (r: Processor)
        ensures
            r.current is None,
            r.idle_task_cx.ra == 0,
            r.idle_task_cx.sp == 0,
            forall|i: int| 0 <= i < 12 ==> r.idle_task_cx.s[i] == 0,
    {
        Processor { current: None, idle_task_cx: TaskContext::zero_init() }
    }

    /// Takes the current process away from the processor.
    pub fn take_current(&mut self) -> (r: Option<usize>)
        ensures
            r == old(self).current,
            final(self).current is None,
            final(self).idle_task_cx == old(self).idle_task_cx,
    {
        self.current.take()
    }

    /// The current process, if any.
    pub fn current(&self) -> (r: Option<usize>)
        ensures
            r == self.current,
    {
        self.current
    }

    /// The context of the idle loop, where a switch away from a process saves
    /// nothing and a switch to it resumes.
    pub fn get_idle_task_cx_ptr(&mut self) -> (r: &mut TaskContext)
        ensures
            *r == old(self).idle_task_cx,
            final(self).idle_task_cx == *final(r),
            final(self).current == old(self).current,
    {
        &mut self.idle_task_cx
    }
}

/// `t` with the saved user registers `cx`.
pub open spec fn with_trap_cx(t: TaskControlBlock, cx: TrapContext) -> TaskControlBlock {
    TaskControlBlock { inner: TaskControlBlockInner { trap_cx: cx, ..t.inner }, ..t }
}

/// Takes the current process away from the processor.
pub fn take_current_task(kernel: &mut Kernel) -> (r: Option<usize>)
    requires
        old(kernel).wf(),
    ensures
        final(kernel).wf(),
        r == old(kernel).current(),
        final(kernel).current() is None,
        final(kernel).processor.idle_task_cx == old(kernel).processor.idle_task_cx,
        final(kernel).tasks == old(kernel).tasks,
        final(kernel).manager == old(kernel).manager,
        final(kernel).pid_allocator == old(kernel).pid_allocator,
        final(kernel).mem == old(kernel).mem,
        final(kernel).entries == old(kernel).entries,
{
    kernel.processor.take_current()
}

/// The current process, if any.
pub fn current_task(kernel: &Kernel) -> (r: Option<usize>)
    ensures
        r == kernel.current(),
{
    kernel.processor.current()
}

/// The `satp` value of the current process's address space.
pub fn current_user_token(kernel: &Kernel) -> (r: u64)
    requires
        kernel.wf(),
        kernel.current() is Some,
    ensures
        r == kernel.task(kernel.current()->Some_0 as int).inner.memory_set.satp(),
{
    let c = current_task(kernel).unwrap();
    let task = kernel.tasks[c].as_ref().unwrap();
    let token = task.inner_ref().get_user_token();
    token
}

/// The saved user registers of the current process.
pub fn current_trap_cx(kernel: &mut Kernel) -> (r: &mut TrapContext)
    requires
        old(kernel).wf(),
        old(kernel).current() is Some,
    ensures
        *r == old(kernel).task(old(kernel).current()->Some_0 as int).inner.trap_cx,
        final(kernel).tasks@ == old(kernel).tasks@.update(
            old(kernel).current()->Some_0 as int,
            Some(with_trap_cx(old(kernel).task(old(kernel).current()->Some_0 as int), *final(r))),
        ),
        final(kernel).processor == old(kernel).processor,
        final(kernel).manager == old(kernel).manager,
        final(kernel).pid_allocator == old(kernel).pid_allocator,
        final(kernel).mem == old(kernel).mem,
        final(kernel).entries == old(kernel).entries,
{
    let c = current_task(kernel).unwrap();
    let task = kernel.tasks[c].as_mut().unwrap();
    task.inner_exclusive_access().get_trap_cx()
}

/// One round of the scheduler's idle loop: takes the first ready process,
/// marks it running and makes it current; the caller then switches to it.
/// `None` when no process is ready.
pub fn run_tasks(kernel: &mut Kernel) -> (r: Option<usize>)
    requires
        old(kernel).wf(),
    ensures
        final(kernel).wf(),
        final(kernel).pid_allocator == old(kernel).pid_allocator,
        final(kernel).mem == old(kernel).mem,
        final(kernel).entries == old(kernel).entries,
        old(kernel).queue().len() == 0 ==> {
            &&& r is None
            &&& final(kernel).tasks == old(kernel).tasks
            &&& final(kernel).processor == old(kernel).processor
            &&& final(kernel).queue() == old(kernel).queue()
        },
        old(kernel).queue().len() > 0 ==> {
            let p = old(kernel).queue()[0];
            &&& r == Some(p)
            &&& final(kernel).queue() == old(kernel).queue().drop_first()
            &&& final(kernel).current() == Some(p)
            &&& final(kernel).tasks@ == old(kernel).tasks@.update(
                p as int,
                Some(with_status(old(kernel).task(p as int), TaskStatus::Running)),
            )
        },
{
    let ghost k0 = *kernel;
    if let Some(task) = fetch_task(kernel) {
        let ghost k1 = *kernel;
        proof {
            assert(is_live(k0.tasks@, k0.queue()[0] as int));
        }
        kernel.set_status(task, TaskStatus::Running);
        let _idle_task_cx = kernel.processor.get_idle_task_cx_ptr();
        kernel.processor.current = Some(task);
        proof {
            let k = *kernel;
            assert(same_structure(k1.tasks@, k.tasks@));
            lemma_same_structure(k.pid_allocator@, k1.tasks@, k.tasks@, k.mem);
            assert forall|i: int| 0 <= i < k.queue().len() implies {
                &&& is_live(k.tasks@, #[trigger] k.queue()[i] as int)
                &&& status_at(k.tasks@, k.queue()[i] as int) == TaskStatus::Ready
            } by {
                assert(k.queue()[i] == k0.queue()[i + 1]);
                assert(k0.queue()[i + 1] != k0.queue()[0]);
            }
            assert(!k.queue().contains(task)) by {
                if k.queue().contains(task) {
                    let i = choose|i: int| 0 <= i < k.queue().len() && k.queue()[i] == task;
                    assert(k0.queue()[i + 1] == k0.queue()[0]);
                }
            }
        }
        Some(task)
    } else {
        None
    }
}

} // verus!
