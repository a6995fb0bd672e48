use vstd::prelude::*;
use crate::config::{kernel_stack_fits, kernel_stack_top};
pub use crate::config::kernel_stack_position;

verus! {

/// The identifier of a process; the process owns it while it lives.
#[derive(PartialEq, Eq, Structural, Debug)]
pub struct PidHandle(pub usize);

/// What a pid allocator holds: how many pids were ever handed out, and the
/// returned ones that wait to be handed out again (the last one first).
pub struct PidAllocatorView {
    pub current: nat,
    pub recycled: Seq<usize>,
}

impl PidAllocatorView {
    /// The pid `alloc` hands out next.
    pub open spec fn next_pid(self) -> nat {
        if self.recycled.len() == 0 {
            self.current
        } else {
            self.recycled.last() as nat
        }
    }

    /// The allocator after `alloc`.
    pub open spec fn after_alloc(self) -> PidAllocatorView {
        if self.recycled.len() == 0 {
            PidAllocatorView { current: self.current + 1, recycled: self.recycled }
        } else {
            PidAllocatorView { current: self.current, recycled: self.recycled.drop_last() }
        }
    }

    /// The allocator after `dealloc(pid)`.
    pub open spec fn after_dealloc(self, pid: usize) -> PidAllocatorView {
        PidAllocatorView { current: self.current, recycled: self.recycled.push(pid) }
    }

    /// `pid` was handed out and not returned.
    pub open spec fn in_use(self, pid: int) -> bool {
        0 <= pid < self.current && !self.recycled.contains(pid as usize)
    }

    /// Every returned pid was handed out before, and none was returned twice.
    pub open spec fn wf(self) -> bool {
        &&& forall|i: int| 0 <= i < self.recycled.len() ==> #[trigger] self.recycled[i] < self.current
        &&& self.recycled.no_duplicates()
    }
}

/// Hands out pids: fresh ones counting up from zero, and returned ones
/// again, the most recently returned first.
pub struct StackPidAllocator {
    current: usize,
    recycled: Vec<usize>,
}

/// The allocator the kernel uses.
pub type PidAllocator = StackPidAllocator;

impl View for StackPidAllocator {
    type V = PidAllocatorView;

    closed spec fn view(&self) -> PidAllocatorView {
        PidAllocatorView { current: self.current as nat, recycled: self.recycled@ }
    }
}

impl StackPidAllocator {
    /// An allocator that has handed out nothing.
    pub fn new() -> (r: StackPidAllocator)
        ensures
            r@.current == 0,
            r@.recycled == Seq::<usize>::empty(),
            r@.wf(),
    {
        StackPidAllocator { current: 0, recycled: Vec::new() }
    }

    /// Number of pids ever handed out.
    pub fn current(&self) -> (r: usize)
        ensures
            r == self@.current,
    {
        self.current
    }

    /// Hands out a pid: the most recently returned one, or else a fresh one.
    pub fn allocate(&mut self) -> (r: PidHandle)
        requires
            old(self)@.wf(),
            old(self)@.recycled.len() == 0 ==> old(self)@.current < usize::MAX,
        ensures
            r.0 == old(self)@.next_pid(),
            final(self)@ == old(self)@.after_alloc(),
            final(self)@.wf(),
            !old(self)@.in_use(r.0 as int),
            final(self)@.in_use(r.0 as int),
            forall|p: int| p != r.0 ==> #[trigger] final(self)@.in_use(p) == old(self)@.in_use(p),
    {
        let ghost v = self@;
        if let Some(pid) = self.recycled.pop() {
            proof {
                assert(v.recycled.drop_last() == self.recycled@);
                assert(v.recycled.last() == pid);
                assert(v.recycled.contains(pid));
                assert forall|p: int| p != pid implies #[trigger] self@.in_use(p) == v.in_use(p) by {
                    if 0 <= p < v.current {
                        if v.recycled.contains(p as usize) {
                            let i = choose|i: int| 0 <= i < v.recycled.len() && v.recycled[i] == p as usize;
                            assert(i != v.recycled.len() - 1);
                            assert(self.recycled@[i] == p as usize);
                        }
                    }
                }
                assert(!self.recycled@.contains(pid)) by {
                    if self.recycled@.contains(pid) {
                        let i = choose|i: int| 0 <= i < self.recycled@.len() && self.recycled@[i] == pid;
                        assert(v.recycled[i] == v.recycled[v.recycled.len() - 1]);
                    }
                }
            }
            PidHandle(pid)
        } else {
            self.current = self.current + 1;
            proof {
                assert forall|i: int| 0 <= i < self@.recycled.len() implies #[trigger] self@.recycled[i] < self@.current by {}
            }
            PidHandle(self.current - 1)
        }
    }

    /// Takes back `pid`, which must be in use.
    pub fn dealloc(&mut self, pid: usize)
        requires
            old(self)@.wf(),
            old(self)@.in_use(pid as int),
        ensures
            final(self)@ == old(self)@.after_dealloc(pid),
            final(self)@.wf(),
            !final(self)@.in_use(pid as int),
            forall|p: int| p != pid ==> #[trigger] final(self)@.in_use(p) == old(self)@.in_use(p),
    {
        let ghost v = self@;
        self.recycled.push(pid);
        proof {
            assert(self.recycled@[self.recycled@.len() - 1] == pid);
            assert forall|p: int| p != pid implies #[trigger] self@.in_use(p) == v.in_use(p) by {
                if 0 <= p < v.current {
                    if self.recycled@.contains(p as usize) {
                        let i = choose|i: int| 0 <= i < self.recycled@.len() && self.recycled@[i] == p as usize;
                        assert(i < v.recycled.len());
                        assert(v.recycled[i] == p as usize);
                    }
                    if v.recycled.contains(p as usize) {
                        let i = choose|i: int| 0 <= i < v.recycled.len() && v.recycled[i] == p as usize;
                        assert(self.recycled@[i] == p as usize);
                    }
                }
            }
            assert forall|i: int, j: int| 0 <= i < self@.recycled.len() && 0 <= j < self@.recycled.len() && i != j
                implies self@.recycled[i] != self@.recycled[j] by {
                if i == v.recycled.len() {
                    assert(v.recycled.contains(self@.recycled[j]));
                } else if j == v.recycled.len() {
                    assert(v.recycled.contains(self@.recycled[i]));
                }
            }
        }
    }
}

/// The count of pids handed out fits a machine word.
pub proof fn lemma_current_bounded(a: &StackPidAllocator)
    ensures
        a@.current <= usize::MAX,
{
}

/// A pid that is returned is the next one handed out: the allocator reuses
/// pids last-in, first-out.
pub proof fn lemma_returned_pid_reused(a: PidAllocatorView, pid: usize)
    requires
        a.wf(),
        a.in_use(pid as int),
    ensures
        a.after_dealloc(pid).next_pid() == pid,
        a.after_dealloc(pid).after_alloc() == a,
{
    assert(a.after_dealloc(pid).recycled.drop_last() =~= a.recycled);
}

/// Handing out a pid never hands out one that is in use, and the pid is in
/// use afterwards.
pub proof fn lemma_alloc_fresh(a: PidAllocatorView)
    requires
        a.wf(),
    ensures
        !a.in_use(a.next_pid() as int),
        a.after_alloc().wf(),
        a.after_alloc().in_use(a.next_pid() as int),
{
    if a.recycled.len() > 0 {
        let last = a.recycled.len() - 1;
        assert(a.recycled.contains(a.recycled[last]));
        assert(a.recycled[last] < a.current);
        assert(!a.recycled.drop_last().contains(a.recycled[last])) by {
            if a.recycled.drop_last().contains(a.recycled[last]) {
                let i = choose|i: int| 0 <= i < a.recycled.drop_last().len() && a.recycled.drop_last()[i] == a.recycled[last];
                assert(a.recycled[i] == a.recycled[last]);
            }
        }
    } else {
        assert forall|i: int| 0 <= i < a.after_alloc().recycled.len() implies
            #[trigger] a.after_alloc().recycled[i] < a.after_alloc().current by {}
    }
}

/// Hands out a pid from `allocator`.
pub fn pid_alloc(allocator: &mut PidAllocator) -> (r: PidHandle)
    requires
        old(allocator)@.wf(),
        old(allocator)@.recycled.len() == 0 ==> old(allocator)@.current < usize::MAX,
    ensures
        r.0 == old(allocator)@.next_pid(),
        final(allocator)@ == old(allocator)@.after_alloc(),
        final(allocator)@.wf(),
        !old(allocator)@.in_use(r.0 as int),
        final(allocator)@.in_use(r.0 as int),
        forall|p: int| p != r.0 ==> #[trigger] final(allocator)@.in_use(p) == old(allocator)@.in_use(p),
{
    allocator.allocate()
}

/// The kernel stack of the process `pid`, in kernel space.
#[derive(PartialEq, Eq, Structural, Debug)]
pub struct KernelStack {
    pid: usize,
}

impl KernelStack {
    /// The pid whose kernel stack this is.
    pub closed spec fn owner(&self) -> usize {
        self.pid
    }

    /// The kernel stack of the process that owns `pid_handle`.
    pub fn new(pid_handle: &PidHandle) -> (r: KernelStack)
        requires
            kernel_stack_fits(pid_handle.0 as int),
        ensures
            r.owner() == pid_handle.0,
    {
        let pid = pid_handle.0;
        let (_kernel_stack_bottom, _kernel_stack_top) = kernel_stack_position(pid);
        KernelStack { pid: pid_handle.0 }
    }

    /// The top of the stack, where the stack pointer starts.
    pub fn get_top(&self) -> (r: usize)
        requires
            kernel_stack_fits(self.owner() as int),
        ensures
            r == kernel_stack_top(self.owner() as int),
    {
        kernel_stack_position(self.pid).1
    }
}

} // verus!
