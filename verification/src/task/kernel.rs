use vstd::prelude::*;
use crate::config::kernel_stack_fits;
use crate::mm::memory_set::MemorySet;
use crate::mm::page_table::{PhysMem, lemma_same_tables};
use crate::task::manager::TaskManager;
use crate::task::pid::{PidAllocator, PidAllocatorView, StackPidAllocator};
use crate::task::processor::Processor;
use crate::task::tasks::{KernelEntries, TaskControlBlock, TaskControlBlockInner, TaskStatus, maps_trap_context};
use crate::trap::context::TrapContext;

verus! {

/// The pid of the first process, which adopts every orphan.
pub const INIT_PID: usize = 0;

/// The whole state of the kernel: pids, processes (the slot of a pid holds
/// its process while the pid is in use), the processor, the ready queue and
/// physical memory.
pub struct Kernel {
    pub pid_allocator: PidAllocator,
    pub tasks: Vec<Option<TaskControlBlock>>,
    pub processor: Processor,
    pub manager: TaskManager,
    pub mem: PhysMem,
    pub entries: KernelEntries,
}

/// `t` with status `s`.
pub open spec fn with_status(t: TaskControlBlock, s: TaskStatus) -> TaskControlBlock {
    TaskControlBlock { inner: TaskControlBlockInner { task_status: s, ..t.inner }, ..t }
}

/// The slot of pid `p` holds a process.
pub open spec fn is_live(tasks: Seq<Option<TaskControlBlock>>, p: int) -> bool {
    0 <= p < tasks.len() && tasks[p] is Some
}

/// The process in the slot of pid `p`.
pub open spec fn task_at(tasks: Seq<Option<TaskControlBlock>>, p: int) -> TaskControlBlock {
    tasks[p]->Some_0
}

pub open spec fn parent_at(tasks: Seq<Option<TaskControlBlock>>, p: int) -> Option<usize> {
    task_at(tasks, p).inner.parent
}

pub open spec fn children_at(tasks: Seq<Option<TaskControlBlock>>, p: int) -> Seq<usize> {
    task_at(tasks, p).inner.children@
}

pub open spec fn status_at(tasks: Seq<Option<TaskControlBlock>>, p: int) -> TaskStatus {
    task_at(tasks, p).inner.task_status
}

/// Pids and processes agree, and every process has its kernel stack and an
/// address space that maps its trap context.
pub open spec fn slots_ok(alloc: PidAllocatorView, tasks: Seq<Option<TaskControlBlock>>, mem: PhysMem) -> bool {
    &&& alloc.wf()
    &&& tasks.len() == alloc.current
    &&& forall|p: int| 0 <= p < tasks.len() ==> (#[trigger] tasks[p] is Some <==> alloc.in_use(p))
    &&& forall|p: int| #[trigger] is_live(tasks, p) ==> {
        &&& task_at(tasks, p).pid.0 == p
        &&& task_at(tasks, p).kernel_stack.owner() == p
        &&& kernel_stack_fits(p)
        &&& maps_trap_context(&mem, &task_at(tasks, p).inner.memory_set)
    }
}

/// The parent and children links form a tree rooted at the initial process:
/// a process is the child of its parent exactly when it names that parent.
pub open spec fn tree_ok(tasks: Seq<Option<TaskControlBlock>>) -> bool {
    &&& is_live(tasks, INIT_PID as int)
    &&& parent_at(tasks, INIT_PID as int) is None
    &&& forall|p: int| #[trigger] is_live(tasks, p) && p != INIT_PID ==> parent_at(tasks, p) is Some
    &&& forall|p: int, i: int| is_live(tasks, p) && 0 <= i < children_at(tasks, p).len() ==> {
        &&& is_live(tasks, #[trigger] children_at(tasks, p)[i] as int)
        &&& parent_at(tasks, children_at(tasks, p)[i] as int) == Some(p as usize)
    }
    &&& forall|p: int| #[trigger] is_live(tasks, p) ==> children_at(tasks, p).no_duplicates()
    &&& forall|c: int| #[trigger] is_live(tasks, c) && parent_at(tasks, c) is Some ==> {
        &&& is_live(tasks, parent_at(tasks, c)->Some_0 as int)
        &&& children_at(tasks, parent_at(tasks, c)->Some_0 as int).contains(c as usize)
    }
}

/// The initial process never becomes a zombie, and a zombie has no
/// children: they went to the initial process when it exited.
pub open spec fn zombies_ok(tasks: Seq<Option<TaskControlBlock>>) -> bool {
    &&& status_at(tasks, INIT_PID as int) != TaskStatus::Zombie
    &&& forall|p: int| #[trigger] is_live(tasks, p) && status_at(tasks, p) == TaskStatus::Zombie
        ==> children_at(tasks, p).len() == 0
}

/// The queue holds distinct ready processes; the current process runs and is
/// not queued.
pub open spec fn sched_ok(tasks: Seq<Option<TaskControlBlock>>, queue: Seq<usize>, current: Option<usize>) -> bool {
    &&& forall|i: int| 0 <= i < queue.len() ==> {
        &&& is_live(tasks, #[trigger] queue[i] as int)
        &&& status_at(tasks, queue[i] as int) == TaskStatus::Ready
    }
    &&& queue.no_duplicates()
    &&& current matches Some(c) ==> {
        &&& is_live(tasks, c as int)
        &&& status_at(tasks, c as int) == TaskStatus::Running
        &&& !queue.contains(c)
    }
}

/// Both process tables hold the same processes with the same pids, kernel
/// stacks, address spaces, parents and children.
pub open spec fn same_structure(t1: Seq<Option<TaskControlBlock>>, t2: Seq<Option<TaskControlBlock>>) -> bool {
    &&& t1.len() == t2.len()
    &&& forall|p: int| 0 <= p < t1.len() ==> (#[trigger] t1[p] is Some <==> t2[p] is Some)
    &&& forall|p: int| #[trigger] is_live(t1, p) ==> {
        &&& task_at(t2, p).pid == task_at(t1, p).pid
        &&& task_at(t2, p).kernel_stack == task_at(t1, p).kernel_stack
        &&& task_at(t2, p).inner.memory_set == task_at(t1, p).inner.memory_set
        &&& task_at(t2, p).inner.parent == task_at(t1, p).inner.parent
        &&& task_at(t2, p).inner.children@ == task_at(t1, p).inner.children@
    }
}

/// Whether the pids, parents and children agree, and which processes run,
/// depend only on the structure of the table.
pub proof fn lemma_same_structure(
    alloc: PidAllocatorView,
    t1: Seq<Option<TaskControlBlock>>,
    t2: Seq<Option<TaskControlBlock>>,
    mem: PhysMem,
)
    requires
        same_structure(t1, t2),
    ensures
        forall|p: int| #[trigger] is_live(t2, p) == is_live(t1, p),
        slots_ok(alloc, t2, mem) == slots_ok(alloc, t1, mem),
        tree_ok(t2) == tree_ok(t1),
{
    assert forall|p: int| #[trigger] is_live(t2, p) == is_live(t1, p) by {
        if 0 <= p < t1.len() {
            assert(t1[p] is Some <==> t2[p] is Some);
        }
    }
    if slots_ok(alloc, t1, mem) {
        assert forall|p: int| 0 <= p < t2.len() implies (#[trigger] t2[p] is Some <==> alloc.in_use(p)) by {
            assert(t1[p] is Some <==> t2[p] is Some);
        }
    }
    if slots_ok(alloc, t2, mem) {
        assert forall|p: int| 0 <= p < t1.len() implies (#[trigger] t1[p] is Some <==> alloc.in_use(p)) by {
            assert(t1[p] is Some <==> t2[p] is Some);
            assert(t2[p] is Some <==> alloc.in_use(p));
        }
        assert forall|p: int| #[trigger] is_live(t1, p) implies {
            &&& task_at(t1, p).pid.0 == p
            &&& task_at(t1, p).kernel_stack.owner() == p
            &&& kernel_stack_fits(p)
            &&& maps_trap_context(&mem, &task_at(t1, p).inner.memory_set)
        } by {
            assert(is_live(t2, p));
        }
    }
    if tree_ok(t2) {
        assert forall|p: int| #[trigger] is_live(t1, p) && p != INIT_PID implies parent_at(t1, p) is Some by {
            assert(is_live(t2, p));
        }
        assert forall|p: int, i: int| is_live(t1, p) && 0 <= i < children_at(t1, p).len() implies {
            &&& is_live(t1, #[trigger] children_at(t1, p)[i] as int)
            &&& parent_at(t1, children_at(t1, p)[i] as int) == Some(p as usize)
        } by {
            assert(is_live(t2, p));
            assert(children_at(t2, p)[i] == children_at(t1, p)[i]);
            assert(is_live(t2, children_at(t2, p)[i] as int));
        }
        assert forall|p: int| #[trigger] is_live(t1, p) implies children_at(t1, p).no_duplicates() by {
            assert(is_live(t2, p));
        }
        assert forall|c: int| #[trigger] is_live(t1, c) && parent_at(t1, c) is Some implies {
            &&& is_live(t1, parent_at(t1, c)->Some_0 as int)
            &&& children_at(t1, parent_at(t1, c)->Some_0 as int).contains(c as usize)
        } by {
            assert(is_live(t2, c));
            assert(is_live(t2, parent_at(t2, c)->Some_0 as int));
        }
    }
    if tree_ok(t1) {
        assert forall|p: int, i: int| is_live(t2, p) && 0 <= i < children_at(t2, p).len() implies {
            &&& is_live(t2, #[trigger] children_at(t2, p)[i] as int)
            &&& parent_at(t2, children_at(t2, p)[i] as int) == Some(p as usize)
        } by {
            assert(is_live(t1, p));
            assert(children_at(t2, p)[i] == children_at(t1, p)[i]);
            assert(is_live(t1, children_at(t1, p)[i] as int));
        }
        assert forall|c: int| #[trigger] is_live(t2, c) && parent_at(t2, c) is Some implies {
            &&& is_live(t2, parent_at(t2, c)->Some_0 as int)
            &&& children_at(t2, parent_at(t2, c)->Some_0 as int).contains(c as usize)
        } by {
            assert(is_live(t1, c));
            assert(is_live(t1, parent_at(t1, c)->Some_0 as int));
        }
    }
}

impl Kernel {
    /// The process `p` exists.
    pub open spec fn live(&self, p: int) -> bool {
        is_live(self.tasks@, p)
    }

    /// The process `p`.
    pub open spec fn task(&self, p: int) -> TaskControlBlock {
        task_at(self.tasks@, p)
    }

    pub open spec fn parent_of(&self, p: int) -> Option<usize> {
        parent_at(self.tasks@, p)
    }

    pub open spec fn children_of(&self, p: int) -> Seq<usize> {
        children_at(self.tasks@, p)
    }

    pub open spec fn status_of(&self, p: int) -> TaskStatus {
        status_at(self.tasks@, p)
    }

    /// The ready queue, front first.
    pub open spec fn queue(&self) -> Seq<usize> {
        self.manager.ready_queue@
    }

    /// The process running on the processor.
    pub open spec fn current(&self) -> Option<usize> {
        self.processor.current
    }

    pub open spec fn wf(&self) -> bool {
        &&& slots_ok(self.pid_allocator@, self.tasks@, self.mem)
        &&& tree_ok(self.tasks@)
        &&& zombies_ok(self.tasks@)
        &&& sched_ok(self.tasks@, self.queue(), self.current())
    }

    /// A kernel whose only process is the initial one, built from the
    /// address space `memory_set` with user stack top `user_sp` and entry
    /// point `entry_point`; it is ready but not yet queued.
    pub fn new(
        mem: PhysMem,
        entries: KernelEntries,
        memory_set: MemorySet,
        user_sp: usize,
        entry_point: usize,
    ) -> (r: Kernel)
        requires
            maps_trap_context(&mem, &memory_set),
        ensures
            r.wf(),
            r.tasks@.len() == 1,
            r.live(INIT_PID as int),
            r.status_of(INIT_PID as int) == TaskStatus::Ready,
            r.children_of(INIT_PID as int) == Seq::<usize>::empty(),
            r.task(INIT_PID as int).inner.memory_set == memory_set,
            r.task(INIT_PID as int).inner.trap_cx.sepc == entry_point,
            r.task(INIT_PID as int).inner.trap_cx.x[2] == user_sp,
            r.queue() == Seq::<usize>::empty(),
            r.current() is None,
            r.mem == mem,
            r.entries == entries,
    {
        let mut pid_allocator = StackPidAllocator::new();
        proof {
            assert(crate::config::kernel_stack_fits(0));
        }
        let init = TaskControlBlock::new(&mut pid_allocator, &mem, memory_set, user_sp, entry_point, &entries);
        let mut tasks: Vec<Option<TaskControlBlock>> = Vec::new();
        tasks.push(Some(init));
        let k = Kernel {
            pid_allocator,
            tasks,
            processor: Processor::new(),
            manager: TaskManager::new(),
            mem,
            entries,
        };
        proof {
            assert(k.pid_allocator@.recycled =~= Seq::<usize>::empty());
            assert forall|p: int| #[trigger] k.live(p) implies p == 0 by {}
        }
        k
    }

    /// Changes the status of the process `p`.
    pub(crate) fn set_status(&mut self, p: usize, s: TaskStatus)
        requires
            old(self).live(p as int),
        ensures
            final(self).tasks@ == old(self).tasks@.update(p as int, Some(with_status(old(self).task(p as int), s))),
            final(self).pid_allocator == old(self).pid_allocator,
            final(self).processor == old(self).processor,
            final(self).manager == old(self).manager,
            final(self).mem == old(self).mem,
            final(self).entries == old(self).entries,
    {
        match &mut self.tasks[p] {
            Some(t) => {
                t.inner.task_status = s;
            },
            None => {},
        }
    }
}

/// `t` with parent `parent`.
pub open spec fn with_parent(t: TaskControlBlock, parent: Option<usize>) -> TaskControlBlock {
    TaskControlBlock { inner: TaskControlBlockInner { parent, ..t.inner }, ..t }
}

/// `t` with exit code `code`.
pub open spec fn with_exit_code(t: TaskControlBlock, code: i32) -> TaskControlBlock {
    TaskControlBlock { inner: TaskControlBlockInner { exit_code: code, ..t.inner }, ..t }
}

/// `t2` is `t1` but for its list of children.
pub open spec fn same_but_children(t1: TaskControlBlock, t2: TaskControlBlock) -> bool {
    &&& t2.pid == t1.pid
    &&& t2.kernel_stack == t1.kernel_stack
    &&& t2.inner.trap_cx_ppn == t1.inner.trap_cx_ppn
    &&& t2.inner.base_size == t1.inner.base_size
    &&& t2.inner.task_cx == t1.inner.task_cx
    &&& t2.inner.task_status == t1.inner.task_status
    &&& t2.inner.memory_set == t1.inner.memory_set
    &&& t2.inner.parent == t1.inner.parent
    &&& t2.inner.exit_code == t1.inner.exit_code
    &&& t2.inner.trap_cx == t1.inner.trap_cx
}

/// `t2` is `t1` but for its parent and its list of children.
pub open spec fn same_but_links(t1: TaskControlBlock, t2: TaskControlBlock) -> bool {
    &&& t2.pid == t1.pid
    &&& t2.kernel_stack == t1.kernel_stack
    &&& t2.inner.trap_cx_ppn == t1.inner.trap_cx_ppn
    &&& t2.inner.base_size == t1.inner.base_size
    &&& t2.inner.task_cx == t1.inner.task_cx
    &&& t2.inner.task_status == t1.inner.task_status
    &&& t2.inner.memory_set == t1.inner.memory_set
    &&& t2.inner.exit_code == t1.inner.exit_code
    &&& t2.inner.trap_cx == t1.inner.trap_cx
}

/// The pids, kernel stacks and address spaces of both tables agree.
pub open spec fn same_slots(t1: Seq<Option<TaskControlBlock>>, t2: Seq<Option<TaskControlBlock>>) -> bool {
    &&& t1.len() == t2.len()
    &&& forall|p: int| 0 <= p < t1.len() ==> (#[trigger] t1[p] is Some <==> t2[p] is Some)
    &&& forall|p: int| #[trigger] is_live(t1, p) ==> {
        &&& task_at(t2, p).pid == task_at(t1, p).pid
        &&& task_at(t2, p).kernel_stack == task_at(t1, p).kernel_stack
        &&& task_at(t2, p).inner.memory_set == task_at(t1, p).inner.memory_set
    }
}

/// Whether pids and processes agree depends only on the pids, kernel stacks
/// and address spaces.
pub proof fn lemma_same_slots(
    alloc: PidAllocatorView,
    t1: Seq<Option<TaskControlBlock>>,
    t2: Seq<Option<TaskControlBlock>>,
    mem: PhysMem,
)
    requires
        same_slots(t1, t2),
        slots_ok(alloc, t1, mem),
    ensures
        forall|p: int| #[trigger] is_live(t2, p) == is_live(t1, p),
        slots_ok(alloc, t2, mem),
{
    assert forall|p: int| #[trigger] is_live(t2, p) == is_live(t1, p) by {
        if 0 <= p < t1.len() {
            assert(t1[p] is Some <==> t2[p] is Some);
        }
    }
    assert forall|p: int| 0 <= p < t2.len() implies (#[trigger] t2[p] is Some <==> alloc.in_use(p)) by {
        assert(t1[p] is Some <==> t2[p] is Some);
    }
}

impl Kernel {
    /// Sets the parent of the process `p`.
    pub(crate) fn set_parent(&mut self, p: usize, parent: Option<usize>)
        requires
            old(self).live(p as int),
        ensures
            final(self).tasks@ == old(self).tasks@.update(p as int, Some(with_parent(old(self).task(p as int), parent))),
            final(self).pid_allocator == old(self).pid_allocator,
            final(self).processor == old(self).processor,
            final(self).manager == old(self).manager,
            final(self).mem == old(self).mem,
            final(self).entries == old(self).entries,
    {
        let t = self.tasks[p].as_mut().unwrap();
        t.inner.parent = parent;
    }

    /// Sets the exit code of the process `p`.
    pub(crate) fn set_exit_code(&mut self, p: usize, code: i32)
        requires
            old(self).live(p as int),
        ensures
            final(self).tasks@ == old(self).tasks@.update(p as int, Some(with_exit_code(old(self).task(p as int), code))),
            final(self).pid_allocator == old(self).pid_allocator,
            final(self).processor == old(self).processor,
            final(self).manager == old(self).manager,
            final(self).mem == old(self).mem,
            final(self).entries == old(self).entries,
    {
        let t = self.tasks[p].as_mut().unwrap();
        t.inner.exit_code = code;
    }

    /// Appends `child` to the children of the process `p`.
    pub(crate) fn push_child(&mut self, p: usize, child: usize)
        requires
            old(self).live(p as int),
        ensures
            final(self).tasks@.len() == old(self).tasks@.len(),
            forall|q: int| 0 <= q < old(self).tasks@.len() && q != p ==> #[trigger] final(self).tasks@[q] == old(self).tasks@[q],
            final(self).live(p as int),
            same_but_children(old(self).task(p as int), final(self).task(p as int)),
            final(self).children_of(p as int) == old(self).children_of(p as int).push(child),
            final(self).pid_allocator == old(self).pid_allocator,
            final(self).processor == old(self).processor,
            final(self).manager == old(self).manager,
            final(self).mem == old(self).mem,
            final(self).entries == old(self).entries,
    {
        let t = self.tasks[p].as_mut().unwrap();
        t.inner.children.push(child);
    }

    /// Empties the list of children of the process `p`.
    pub(crate) fn clear_children(&mut self, p: usize)
        requires
            old(self).live(p as int),
        ensures
            final(self).tasks@.len() == old(self).tasks@.len(),
            forall|q: int| 0 <= q < old(self).tasks@.len() && q != p ==> #[trigger] final(self).tasks@[q] == old(self).tasks@[q],
            final(self).live(p as int),
            same_but_children(old(self).task(p as int), final(self).task(p as int)),
            final(self).children_of(p as int) == Seq::<usize>::empty(),
            final(self).pid_allocator == old(self).pid_allocator,
            final(self).processor == old(self).processor,
            final(self).manager == old(self).manager,
            final(self).mem == old(self).mem,
            final(self).entries == old(self).entries,
    {
        let t = self.tasks[p].as_mut().unwrap();
        t.inner.children.clear();
    }

    /// The `i`-th child of the process `p`.
    pub(crate) fn child_at(&self, p: usize, i: usize) -> (r: usize)
        requires
            self.live(p as int),
            i < self.children_of(p as int).len(),
        ensures
            r == self.children_of(p as int)[i as int],
    {
        self.tasks[p].as_ref().unwrap().inner.children[i]
    }

    /// The number of children of the process `p`.
    pub(crate) fn child_count(&self, p: usize) -> (r: usize)
        requires
            self.live(p as int),
        ensures
            r == self.children_of(p as int).len(),
    {
        self.tasks[p].as_ref().unwrap().inner.children.len()
    }
}

/// `t2` is `t1` but for its saved user registers `x`.
pub open spec fn same_but_regs(t1: TaskControlBlock, t2: TaskControlBlock) -> bool {
    &&& t2.pid == t1.pid
    &&& t2.kernel_stack == t1.kernel_stack
    &&& t2.inner.trap_cx_ppn == t1.inner.trap_cx_ppn
    &&& t2.inner.base_size == t1.inner.base_size
    &&& t2.inner.task_cx == t1.inner.task_cx
    &&& t2.inner.task_status == t1.inner.task_status
    &&& t2.inner.memory_set == t1.inner.memory_set
    &&& t2.inner.parent == t1.inner.parent
    &&& t2.inner.children == t1.inner.children
    &&& t2.inner.exit_code == t1.inner.exit_code
    &&& t2.inner.trap_cx.sstatus == t1.inner.trap_cx.sstatus
    &&& t2.inner.trap_cx.sepc == t1.inner.trap_cx.sepc
    &&& t2.inner.trap_cx.kernel_satp == t1.inner.trap_cx.kernel_satp
    &&& t2.inner.trap_cx.kernel_sp == t1.inner.trap_cx.kernel_sp
    &&& t2.inner.trap_cx.trap_handler == t1.inner.trap_cx.trap_handler
}

/// `k` is `k0` with `v` in register `a0` of the process `p`, and nothing else
/// changed.
pub open spec fn a0_set(k0: &Kernel, k: &Kernel, p: int, v: usize) -> bool {
    &&& k.tasks@.len() == k0.tasks@.len()
    &&& forall|q: int| 0 <= q < k0.tasks@.len() && q != p ==> #[trigger] k.tasks@[q] == k0.tasks@[q]
    &&& k.live(p)
    &&& same_but_regs(k0.task(p), k.task(p))
    &&& k.task(p).inner.trap_cx.x@ == k0.task(p).inner.trap_cx.x@.update(10, v)
    &&& k.pid_allocator == k0.pid_allocator
    &&& k.processor == k0.processor
    &&& k.manager == k0.manager
    &&& k.mem == k0.mem
    &&& k.entries == k0.entries
}

/// Changing the saved user registers of a process keeps the kernel well formed.
pub proof fn lemma_trap_cx_update(k0: &Kernel, k: &Kernel, p: int, cx: TrapContext)
    requires
        k0.wf(),
        k0.live(p),
        k.tasks@ == k0.tasks@.update(p, Some(TaskControlBlock {
            inner: TaskControlBlockInner { trap_cx: cx, ..k0.task(p).inner },
            ..k0.task(p)
        })),
        k.pid_allocator == k0.pid_allocator,
        k.processor == k0.processor,
        k.manager == k0.manager,
        k.mem == k0.mem,
    ensures
        k.wf(),
        forall|q: int| #[trigger] k.live(q) == k0.live(q),
{
    assert(same_structure(k0.tasks@, k.tasks@));
    lemma_same_structure(k.pid_allocator@, k0.tasks@, k.tasks@, k.mem);
    assert forall|q: int| #[trigger] is_live(k.tasks@, q) && status_at(k.tasks@, q) == TaskStatus::Zombie
        implies children_at(k.tasks@, q).len() == 0 by {
        assert(is_live(k0.tasks@, q));
    }
    assert forall|i: int| 0 <= i < k.queue().len() implies {
        &&& is_live(k.tasks@, #[trigger] k.queue()[i] as int)
        &&& status_at(k.tasks@, k.queue()[i] as int) == TaskStatus::Ready
    } by {
        assert(is_live(k0.tasks@, k0.queue()[i] as int));
    }
}

/// Whether the processes' address spaces map their trap contexts depends
/// only on the page-table entries of memory.
pub proof fn lemma_slots_same_tables(alloc: PidAllocatorView, tasks: Seq<Option<TaskControlBlock>>, mem: PhysMem, mem2: PhysMem)
    requires
        slots_ok(alloc, tasks, mem),
        mem2.wf(),
        mem2.frames() == mem.frames(),
        mem.same_ptes(&mem2),
    ensures
        slots_ok(alloc, tasks, mem2),
{
    assert forall|p: int| #[trigger] is_live(tasks, p) implies maps_trap_context(&mem2, &task_at(tasks, p).inner.memory_set) by {
        let root = task_at(tasks, p).inner.memory_set.root();
        assert(maps_trap_context(&mem, &task_at(tasks, p).inner.memory_set));
        crate::mm::page_table::lemma_walkable_mem(&mem, root);
        lemma_same_tables(&mem, &mem2, root);
    }
}

impl Kernel {
    /// Sets user register `x[i]` of the process `p`.
    pub(crate) fn set_trap_reg(&mut self, p: usize, i: usize, v: usize)
        requires
            old(self).live(p as int),
            i < 32,
        ensures
            final(self).tasks@.len() == old(self).tasks@.len(),
            forall|q: int| 0 <= q < old(self).tasks@.len() && q != p ==> #[trigger] final(self).tasks@[q] == old(self).tasks@[q],
            final(self).live(p as int),
            same_but_regs(old(self).task(p as int), final(self).task(p as int)),
            final(self).task(p as int).inner.trap_cx.x@ == old(self).task(p as int).inner.trap_cx.x@.update(i as int, v),
            final(self).pid_allocator == old(self).pid_allocator,
            final(self).processor == old(self).processor,
            final(self).manager == old(self).manager,
            final(self).mem == old(self).mem,
            final(self).entries == old(self).entries,
    {
        let t = self.tasks[p].as_mut().unwrap();
        t.inner.trap_cx.x[i] = v;
    }

    /// Puts `v` in register `a0` of the process `p`: the result of its system call.
    pub(crate) fn set_a0(&mut self, p: usize, v: usize)
        requires
            old(self).wf(),
            old(self).live(p as int),
        ensures
            final(self).wf(),
            a0_set(old(self), final(self), p as int, v),
            forall|q: int| #[trigger] final(self).live(q) == old(self).live(q),
    {
        let ghost k0 = *self;
        self.set_trap_reg(p, 10, v);
        proof {
            let k = *self;
            assert forall|q: int| 0 <= q < k0.tasks@.len() implies (#[trigger] k0.tasks@[q] is Some <==> k.tasks@[q] is Some) by {
                if q != p {
                    assert(k.tasks@[q] == k0.tasks@[q]);
                }
            }
            assert forall|q: int| #[trigger] is_live(k0.tasks@, q) implies task_at(k.tasks@, q) == task_at(k0.tasks@, q) || q == p by {
                if q != p {
                    assert(k.tasks@[q] == k0.tasks@[q]);
                }
            }
            assert(same_structure(k0.tasks@, k.tasks@));
            lemma_same_structure(k.pid_allocator@, k0.tasks@, k.tasks@, k.mem);
            assert forall|q: int| #[trigger] is_live(k.tasks@, q) && status_at(k.tasks@, q) == TaskStatus::Zombie
                implies children_at(k.tasks@, q).len() == 0 by {
                assert(is_live(k0.tasks@, q));
            }
            assert forall|i: int| 0 <= i < k.queue().len() implies {
                &&& is_live(k.tasks@, #[trigger] k.queue()[i] as int)
                &&& status_at(k.tasks@, k.queue()[i] as int) == TaskStatus::Ready
            } by {
                assert(is_live(k0.tasks@, k0.queue()[i] as int));
            }
        }
    }

    /// Removes the `i`-th child of the process `p` from its list of children.
    pub(crate) fn remove_child(&mut self, p: usize, i: usize) -> (r: usize)
        requires
            old(self).live(p as int),
            i < old(self).children_of(p as int).len(),
        ensures
            r == old(self).children_of(p as int)[i as int],
            final(self).tasks@.len() == old(self).tasks@.len(),
            forall|q: int| 0 <= q < old(self).tasks@.len() && q != p ==> #[trigger] final(self).tasks@[q] == old(self).tasks@[q],
            final(self).live(p as int),
            same_but_children(old(self).task(p as int), final(self).task(p as int)),
            final(self).children_of(p as int) == old(self).children_of(p as int).remove(i as int),
            final(self).pid_allocator == old(self).pid_allocator,
            final(self).processor == old(self).processor,
            final(self).manager == old(self).manager,
            final(self).mem == old(self).mem,
            final(self).entries == old(self).entries,
    {
        let t = self.tasks[p].as_mut().unwrap();
        t.inner.children.remove(i)
    }

    /// The status of the process `p`.
    pub(crate) fn status(&self, p: usize) -> (r: TaskStatus)
        requires
            self.live(p as int),
        ensures
            r == self.status_of(p as int),
    {
        self.tasks[p].as_ref().unwrap().inner_ref().get_status()
    }

    /// The exit code of the process `p`.
    pub(crate) fn exit_code(&self, p: usize) -> (r: i32)
        requires
            self.live(p as int),
        ensures
            r == self.task(p as int).inner.exit_code,
    {
        self.tasks[p].as_ref().unwrap().inner.exit_code
    }

    /// Drops the process `p` and takes its pid back.
    pub(crate) fn release(&mut self, p: usize)
        requires
            old(self).live(p as int),
            old(self).pid_allocator@.wf(),
            old(self).pid_allocator@.in_use(p as int),
        ensures
            final(self).tasks@ == old(self).tasks@.update(p as int, None),
            final(self).pid_allocator@ == old(self).pid_allocator@.after_dealloc(p),
            final(self).pid_allocator@.wf(),
            !final(self).pid_allocator@.in_use(p as int),
            forall|q: int| q != p ==> #[trigger] final(self).pid_allocator@.in_use(q) == old(self).pid_allocator@.in_use(q),
            final(self).processor == old(self).processor,
            final(self).manager == old(self).manager,
            final(self).mem == old(self).mem,
            final(self).entries == old(self).entries,
    {
        self.tasks.set(p, None);
        self.pid_allocator.dealloc(p);
    }
}

} // verus!
