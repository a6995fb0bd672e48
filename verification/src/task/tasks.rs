use vstd::prelude::*;
use crate::config::{kernel_stack_fits, kernel_stack_top};
use crate::mm::address::{PhysPageNum, VirtAddr, TRAP_CONTEXT_VA};
use crate::mm::memory_set::MemorySet;
use crate::mm::page_table::{PhysMem, tree_lookup, tree_walkable, tree_mapping};
use crate::task::context::TaskContext;
use crate::task::pid::{PidAllocator, PidHandle, KernelStack, pid_alloc};
use crate::trap::context::{TrapContext, SSTATUS_SPP};

verus! {

/// Where a process is in its life.
#[derive(Clone, Copy, PartialEq, Eq, Structural, Debug)]
pub enum TaskStatus {
    Ready,
    Running,
    Zombie,
}

/// What the machine provides for entering and leaving user mode: the kernel
/// address space, the addresses of the trap handler and of the return path to
/// user mode, and the `sstatus` value the kernel runs with.
#[derive(Clone, Copy, PartialEq, Eq, Structural, Debug)]
pub struct KernelEntries {
    pub kernel_satp: u64,
    pub trap_handler: usize,
    pub trap_return: usize,
    pub sstatus: usize,
}

/// The page of the trap context in every address space.
pub open spec fn trap_context_vpn() -> u64 {
    (TRAP_CONTEXT_VA % 0x80_0000_0000) / 4096
}

/// The address space maps its trap context page.
pub open spec fn maps_trap_context(mem: &PhysMem, ms: &MemorySet) -> bool {
    &&& tree_walkable(mem, ms.root())
    &&& tree_lookup(mem, ms.root(), trap_context_vpn()) is Some
}

/// The page of the trampoline, the highest page of every address space.
pub open spec fn trampoline_vpn() -> u64 {
    (trap_context_vpn() + 1) as u64
}

/// Page `v` is the trampoline page (page numbers are taken modulo the 2^27
/// pages of the address space).
pub open spec fn is_trampoline(v: u64) -> bool {
    v % 0x800_0000 == trampoline_vpn()
}

/// The address space `child` is a copy of `parent`: the same pages are
/// mapped, with the same flags. The trampoline page is shared; every other
/// page of the copy lies in a frame of its own, used by no page of `parent`
/// and no other page of the copy, and holds the same bytes as the parent's.
pub open spec fn copies_address_space(mem: &PhysMem, parent: &MemorySet, child: &MemorySet) -> bool {
    &&& forall|v: u64| #![trigger tree_mapping(mem, child.root(), v)] #![trigger tree_mapping(mem, parent.root(), v)] {
        &&& (tree_mapping(mem, child.root(), v) is Some) == (tree_mapping(mem, parent.root(), v) is Some)
        &&& tree_mapping(mem, parent.root(), v) matches Some(pe) ==> {
            let ce = tree_mapping(mem, child.root(), v)->Some_0;
            &&& ce.flags_of() == pe.flags_of()
            &&& is_trampoline(v) ==> ce.ppn_of() == pe.ppn_of()
            &&& !is_trampoline(v) ==> forall|o: int| 0 <= o < 4096 ==>
                #[trigger] mem.byte(ce.ppn_of() as int, o) == mem.byte(pe.ppn_of() as int, o)
        }
    }
    &&& forall|v: u64, w: u64|
        #![trigger tree_mapping(mem, child.root(), v), tree_mapping(mem, parent.root(), w)]
        tree_mapping(mem, child.root(), v) is Some && tree_mapping(mem, parent.root(), w) is Some
            && !is_trampoline(v)
            ==> tree_mapping(mem, child.root(), v)->Some_0.ppn_of() != tree_mapping(mem, parent.root(), w)->Some_0.ppn_of()
    &&& forall|v: u64, w: u64|
        #![trigger tree_mapping(mem, child.root(), v), tree_mapping(mem, child.root(), w)]
        tree_mapping(mem, child.root(), v) is Some && tree_mapping(mem, child.root(), w) is Some
            && !is_trampoline(v) && v % 0x800_0000 != w % 0x800_0000
            ==> tree_mapping(mem, child.root(), v)->Some_0.ppn_of() != tree_mapping(mem, child.root(), w)->Some_0.ppn_of()
}

/// The mutable part of a process.
pub struct TaskControlBlockInner {
    /// The frame that holds the trap context.
    pub trap_cx_ppn: PhysPageNum,
    /// Size of the user image: everything below the user stack top.
    pub base_size: usize,
    pub task_cx: TaskContext,
    pub task_status: TaskStatus,
    pub memory_set: MemorySet,
    /// The parent's pid; a process holds no claim on its parent.
    pub parent: Option<usize>,
    /// The children's pids; a process keeps its children until it reaps them.
    pub children: Vec<usize>,
    pub exit_code: i32,
    /// The trap context kept in the frame `trap_cx_ppn`.
    pub trap_cx: TrapContext,
}

impl TaskControlBlockInner {
    /// The saved user registers.
    pub fn get_trap_cx(&mut self) -> (r: &mut TrapContext)
        ensures
            *r == old(self).trap_cx,
            final(self).trap_cx == *final(r),
            final(self).trap_cx_ppn == old(self).trap_cx_ppn,
            final(self).base_size == old(self).base_size,
            final(self).task_cx == old(self).task_cx,
            final(self).task_status == old(self).task_status,
            final(self).memory_set == old(self).memory_set,
            final(self).parent == old(self).parent,
            final(self).children == old(self).children,
            final(self).exit_code == old(self).exit_code,
    {
        &mut self.trap_cx
    }

    /// The `satp` value of the process's address space.
    pub fn get_user_token(&self) -> (r: u64)
        ensures
            r == self.memory_set.satp(),
    {
        self.memory_set.token()
    }

    pub fn get_status(&self) -> (r: TaskStatus)
        ensures
            r == self.task_status,
    {
        self.task_status
    }

    /// Whether the process has exited and waits to be reaped.
    pub fn is_zombie(&self) -> (r: bool)
        ensures
            r == (self.task_status == TaskStatus::Zombie),
    {
        self.get_status() == TaskStatus::Zombie
    }
}

/// A process.
pub struct TaskControlBlock {
    pub pid: PidHandle,
    pub kernel_stack: KernelStack,
    pub inner: TaskControlBlockInner,
}

impl TaskControlBlock {
    /// Exclusive access to the mutable part.
    pub fn inner_exclusive_access(&mut self) -> (r: &mut TaskControlBlockInner)
        ensures
            *r == old(self).inner,
            final(self).inner == *final(r),
            final(self).pid == old(self).pid,
            final(self).kernel_stack == old(self).kernel_stack,
    {
        &mut self.inner
    }

    /// Shared access to the mutable part.
    pub fn inner_ref(&self) -> (r: &TaskControlBlockInner)
        ensures
            *r == self.inner,
    {
        &self.inner
    }

    pub fn getpid(&self) -> (r: usize)
        ensures
            r == self.pid.0,
    {
        self.pid.0
    }

    /// A new process running the program whose address space `memory_set`
    /// was built from its image, with user stack top `user_sp` and entry
    /// point `entry_point`. It takes the next pid of `pid_allocator`, has no
    /// parent and no children, and is ready to run.
    pub fn new(
        pid_allocator: &mut PidAllocator,
        mem: &PhysMem,
        memory_set: MemorySet,
        user_sp: usize,
        entry_point: usize,
        entries: &KernelEntries,
    ) -> (r: TaskControlBlock)
        requires
            old(pid_allocator)@.wf(),
            old(pid_allocator)@.recycled.len() == 0 ==> old(pid_allocator)@.current < usize::MAX,
            kernel_stack_fits(old(pid_allocator)@.next_pid() as int),
            maps_trap_context(mem, &memory_set),
        ensures
            final(pid_allocator)@ == old(pid_allocator)@.after_alloc(),
            final(pid_allocator)@.wf(),
            r.pid.0 == old(pid_allocator)@.next_pid(),
            r.kernel_stack.owner() == r.pid.0,
            r.inner.memory_set == memory_set,
            r.inner.trap_cx_ppn.0 == tree_lookup(mem, memory_set.root(), trap_context_vpn())->Some_0.ppn_of(),
            r.inner.base_size == user_sp,
            r.inner.task_status == TaskStatus::Ready,
            r.inner.parent is None,
            r.inner.children@ == Seq::<usize>::empty(),
            r.inner.exit_code == 0,
            r.inner.task_cx.ra == entries.trap_return,
            r.inner.task_cx.sp == kernel_stack_top(r.pid.0 as int),
            forall|i: int| 0 <= i < 12 ==> r.inner.task_cx.s[i] == 0,
            r.inner.trap_cx.sepc == entry_point,
            r.inner.trap_cx.x[2] == user_sp,
            forall|i: int| 0 <= i < 32 && i != 2 ==> r.inner.trap_cx.x[i] == 0,
            r.inner.trap_cx.sstatus == entries.sstatus & !SSTATUS_SPP,
            r.inner.trap_cx.kernel_satp == entries.kernel_satp,
            r.inner.trap_cx.kernel_sp == kernel_stack_top(r.pid.0 as int),
            r.inner.trap_cx.trap_handler == entries.trap_handler,
    {
        let trap_cx_ppn = match memory_set.translate(mem, VirtAddr::from_word(TRAP_CONTEXT_VA).floor()) {
            Some(e) => e.ppn(),
            None => {
                assert(false);
                PhysPageNum(0)
            },
        };
        let pid_handle = pid_alloc(pid_allocator);
        let kernel_stack = KernelStack::new(&pid_handle);
        let kernel_stack_top = kernel_stack.get_top();
        let trap_cx = TrapContext::app_init_context(
            entries.sstatus,
            entry_point,
            user_sp,
            entries.kernel_satp,
            kernel_stack_top,
            entries.trap_handler,
        );
        TaskControlBlock {
            pid: pid_handle,
            kernel_stack,
            inner: TaskControlBlockInner {
                trap_cx_ppn,
                base_size: user_sp,
                task_cx: TaskContext::goto_trap_return(entries.trap_return, kernel_stack_top),
                task_status: TaskStatus::Ready,
                memory_set,
                parent: None,
                children: Vec::new(),
                exit_code: 0,
                trap_cx,
            },
        }
    }

    /// Replaces the program the process runs: the new address space
    /// `memory_set` was built from the new image, with user stack top
    /// `user_sp` and entry point `entry_point`. The user registers start
    /// afresh; everything else about the process stays.
    pub fn exec(
        &mut self,
        mem: &PhysMem,
        memory_set: MemorySet,
        user_sp: usize,
        entry_point: usize,
        entries: &KernelEntries,
    )
        requires
            maps_trap_context(mem, &memory_set),
            kernel_stack_fits(old(self).kernel_stack.owner() as int),
        ensures
            final(self).pid == old(self).pid,
            final(self).kernel_stack == old(self).kernel_stack,
            final(self).inner.memory_set == memory_set,
            final(self).inner.trap_cx_ppn.0 == tree_lookup(mem, memory_set.root(), trap_context_vpn())->Some_0.ppn_of(),
            final(self).inner.base_size == old(self).inner.base_size,
            final(self).inner.task_cx == old(self).inner.task_cx,
            final(self).inner.task_status == old(self).inner.task_status,
            final(self).inner.parent == old(self).inner.parent,
            final(self).inner.children == old(self).inner.children,
            final(self).inner.exit_code == old(self).inner.exit_code,
            final(self).inner.trap_cx.sepc == entry_point,
            final(self).inner.trap_cx.x[2] == user_sp,
            forall|i: int| 0 <= i < 32 && i != 2 ==> final(self).inner.trap_cx.x[i] == 0,
            final(self).inner.trap_cx.sstatus == entries.sstatus & !SSTATUS_SPP,
            final(self).inner.trap_cx.kernel_satp == entries.kernel_satp,
            final(self).inner.trap_cx.kernel_sp == kernel_stack_top(old(self).kernel_stack.owner() as int),
            final(self).inner.trap_cx.trap_handler == entries.trap_handler,
    {
        let trap_cx_ppn = match memory_set.translate(mem, VirtAddr::from_word(TRAP_CONTEXT_VA).floor()) {
            Some(e) => e.ppn(),
            None => {
                assert(false);
                PhysPageNum(0)
            },
        };
        let kernel_sp = self.kernel_stack.get_top();
        let inner = self.inner_exclusive_access();
        inner.memory_set = memory_set;
        inner.trap_cx_ppn = trap_cx_ppn;
        let trap_cx = inner.get_trap_cx();
        *trap_cx = TrapContext::app_init_context(
            entries.sstatus,
            entry_point,
            user_sp,
            entries.kernel_satp,
            kernel_sp,
            entries.trap_handler,
        );
    }
}

} // verus!
