use vstd::prelude::*;
use crate::task::kernel::{
    Kernel, INIT_PID, is_live, task_at, parent_at, children_at, status_at, tree_ok, slots_ok,
    same_structure, lemma_same_structure, same_slots, lemma_same_slots, same_but_links,
    with_status, with_exit_code, with_parent,
};
use crate::task::manager::add_task;
use crate::task::processor::take_current_task;
use crate::config::{kernel_stack_fits, kernel_stack_top};
use crate::mm::address::{PhysPageNum, VirtAddr, TRAP_CONTEXT_VA};
use crate::mm::memory_set::MemorySet;
use crate::mm::page_table::tree_lookup;
use crate::task::context::TaskContext;
use crate::task::pid::{KernelStack, pid_alloc, lemma_alloc_fresh, lemma_current_bounded};
use crate::task::tasks::{TaskControlBlock, TaskControlBlockInner, TaskStatus, maps_trap_context, trap_context_vpn, copies_address_space};

verus! {

/// How an exit ends.
#[derive(Clone, Copy, PartialEq, Eq, Structural, Debug)]
pub enum ExitOutcome {
    /// The initial process exited: the machine is to be shut down, reporting
    /// failure when the exit code is not zero.
    Shutdown { failure: bool },
    /// The process is now a zombie; the caller switches to the idle loop.
    Exited,
}

/// Puts the initial process on the ready queue.
pub fn add_initproc(kernel: &mut Kernel)
    requires
        old(kernel).wf(),
        old(kernel).status_of(INIT_PID as int) == TaskStatus::Ready,
        !old(kernel).queue().contains(INIT_PID),
        old(kernel).current() != Some(INIT_PID),
    ensures
        final(kernel).wf(),
        final(kernel).queue() == old(kernel).queue().push(INIT_PID),
        final(kernel).tasks == old(kernel).tasks,
        final(kernel).processor == old(kernel).processor,
{
    add_task(kernel, INIT_PID);
}

/// The current process gives up the processor: it becomes ready and goes to
/// the back of the ready queue; the caller then switches to the idle loop.
pub fn suspend_current_and_run_next(kernel: &mut Kernel)
    requires
        old(kernel).wf(),
        old(kernel).current() is Some,
    ensures
        final(kernel).wf(),
        final(kernel).current() is None,
        final(kernel).queue() == old(kernel).queue().push(old(kernel).current()->Some_0),
        final(kernel).tasks@ == old(kernel).tasks@.update(
            old(kernel).current()->Some_0 as int,
            Some(with_status(old(kernel).task(old(kernel).current()->Some_0 as int), TaskStatus::Ready)),
        ),
        final(kernel).pid_allocator == old(kernel).pid_allocator,
        final(kernel).mem == old(kernel).mem,
        final(kernel).entries == old(kernel).entries,
{
    let task = take_current_task(kernel).unwrap();
    let ghost k1 = *kernel;
    kernel.set_status(task, TaskStatus::Ready);
    proof {
        let k = *kernel;
        assert(same_structure(k1.tasks@, k.tasks@));
        lemma_same_structure(k.pid_allocator@, k1.tasks@, k.tasks@, k.mem);
        assert forall|i: int| 0 <= i < k.queue().len() implies {
            &&& is_live(k.tasks@, #[trigger] k.queue()[i] as int)
            &&& status_at(k.tasks@, k.queue()[i] as int) == TaskStatus::Ready
        } by {
            assert(k.queue()[i] != task);
        }
    }
    add_task(kernel, task);
}

proof fn lemma_take_contains(s: Seq<usize>, k: int, x: usize)
    requires
        0 <= k <= s.len(),
        !s.contains(x),
    ensures
        !s.take(k).contains(x),
{
    let a = s.take(k);
    if a.contains(x) {
        let j = choose|j: int| 0 <= j < a.len() && a[j] == x;
        assert(s[j] == x);
    }
}

proof fn lemma_take_push_contains(s: Seq<usize>, i: int, x: usize)
    requires
        0 <= i < s.len(),
    ensures
        s.take(i + 1).contains(x) == (s.take(i).contains(x) || x == s[i]),
{
    let a = s.take(i + 1);
    let b = s.take(i);
    assert(a =~= b.push(s[i]));
    if a.contains(x) {
        let j = choose|j: int| 0 <= j < a.len() && a[j] == x;
        if j < i {
            assert(b[j] == x);
        }
    }
    if b.contains(x) {
        let j = choose|j: int| 0 <= j < b.len() && b[j] == x;
        assert(a[j] == x);
    }
    if x == s[i] {
        assert(a[i] == x);
    }
}

proof fn lemma_exit_tree(t1: Seq<Option<crate::task::tasks::TaskControlBlock>>, t2: Seq<Option<crate::task::tasks::TaskControlBlock>>, c: int)
    requires
        tree_ok(t1),
        is_live(t1, c),
        c != INIT_PID,
        t1.len() <= usize::MAX,
        t2.len() == t1.len(),
        forall|p: int| #[trigger] is_live(t2, p) == is_live(t1, p),
        forall|p: int| #[trigger] is_live(t1, p) ==> parent_at(t2, p) == if children_at(t1, c).contains(p as usize) {
            Some(INIT_PID)
        } else {
            parent_at(t1, p)
        },
        children_at(t2, c) == Seq::<usize>::empty(),
        children_at(t2, INIT_PID as int) == children_at(t1, INIT_PID as int) + children_at(t1, c),
        forall|p: int| #[trigger] is_live(t1, p) && p != c && p != INIT_PID ==> children_at(t2, p) == children_at(t1, p),
    ensures
        tree_ok(t2),
{
    let cs = children_at(t1, c);
    let ic = children_at(t1, INIT_PID as int);
    assert(is_live(t1, INIT_PID as int));
    // The initial process is nobody's child, so it is not among `cs`.
    assert(!cs.contains(INIT_PID)) by {
        if cs.contains(INIT_PID) {
            let i = choose|i: int| 0 <= i < cs.len() && cs[i] == INIT_PID;
            assert(parent_at(t1, children_at(t1, c)[i] as int) == Some(c as usize));
        }
    }
    // A child of `c` is not also a child of another process.
    assert forall|p: int, x: usize| is_live(t1, p) && p != c && #[trigger] children_at(t1, p).contains(x) implies !cs.contains(x) by {
        let i = choose|i: int| 0 <= i < children_at(t1, p).len() && children_at(t1, p)[i] == x;
        assert(parent_at(t1, children_at(t1, p)[i] as int) == Some(p as usize));
        if cs.contains(x) {
            let j = choose|j: int| 0 <= j < cs.len() && cs[j] == x;
            assert(parent_at(t1, children_at(t1, c)[j] as int) == Some(c as usize));
        }
    }
    assert(parent_at(t2, INIT_PID as int) is None);
    assert forall|p: int| #[trigger] is_live(t2, p) && p != INIT_PID implies parent_at(t2, p) is Some by {
        assert(is_live(t1, p));
    }
    assert forall|p: int, i: int| is_live(t2, p) && 0 <= i < children_at(t2, p).len() implies {
        &&& is_live(t2, #[trigger] children_at(t2, p)[i] as int)
        &&& parent_at(t2, children_at(t2, p)[i] as int) == Some(p as usize)
    } by {
        let x = children_at(t2, p)[i];
        if p == INIT_PID {
            if i < ic.len() {
                assert(x == children_at(t1, p)[i]);
                assert(is_live(t1, x as int));
                assert(children_at(t1, p).contains(x));
                assert(!cs.contains(x));
            } else {
                assert(x == cs[i - ic.len()]);
                assert(is_live(t1, children_at(t1, c)[i - ic.len()] as int));
                assert(cs.contains(x));
            }
        } else if p != c {
            assert(x == children_at(t1, p)[i]);
            assert(is_live(t1, x as int));
            assert(children_at(t1, p).contains(x));
            assert(!cs.contains(x));
        }
    }
    assert forall|p: int| #[trigger] is_live(t2, p) implies children_at(t2, p).no_duplicates() by {
        assert(is_live(t1, p));
        if p == INIT_PID {
            assert forall|i: int, j: int| 0 <= i < children_at(t2, p).len() && 0 <= j < children_at(t2, p).len() && i != j
                implies children_at(t2, p)[i] != children_at(t2, p)[j] by {
                if i < ic.len() && j >= ic.len() {
                    assert(ic.contains(children_at(t2, p)[i]));
                    assert(cs.contains(children_at(t2, p)[j]));
                } else if i >= ic.len() && j < ic.len() {
                    assert(ic.contains(children_at(t2, p)[j]));
                    assert(cs.contains(children_at(t2, p)[i]));
                }
            }
        }
    }
    assert forall|x: int| #[trigger] is_live(t2, x) && parent_at(t2, x) is Some implies {
        &&& is_live(t2, parent_at(t2, x)->Some_0 as int)
        &&& children_at(t2, parent_at(t2, x)->Some_0 as int).contains(x as usize)
    } by {
        assert(is_live(t1, x));
        if cs.contains(x as usize) {
            let j = choose|j: int| 0 <= j < cs.len() && cs[j] == x as usize;
            assert(children_at(t2, INIT_PID as int)[ic.len() + j] == x as usize);
        } else {
            let q = parent_at(t1, x)->Some_0 as int;
            assert(is_live(t1, q));
            assert(children_at(t1, q).contains(x as usize));
            if q == c {
                assert(cs.contains(x as usize));
            } else if q == INIT_PID {
                let j = choose|j: int| 0 <= j < ic.len() && ic[j] == x as usize;
                assert(children_at(t2, INIT_PID as int)[j] == x as usize);
            }
        }
    }
}

/// The current process exits with `exit_code`. If it is the initial process
/// the machine is to be shut down. Otherwise it becomes a zombie that keeps
/// its exit code for its parent, and its children become children of the
/// initial process; the caller then switches to the idle loop.
pub fn exit_current_and_run_next(kernel: &mut Kernel, exit_code: i32) -> (r: ExitOutcome)
    requires
        old(kernel).wf(),
        old(kernel).current() is Some,
    ensures
        final(kernel).wf(),
        final(kernel).current() is None,
        final(kernel).queue() == old(kernel).queue(),
        final(kernel).pid_allocator == old(kernel).pid_allocator,
        final(kernel).mem == old(kernel).mem,
        final(kernel).entries == old(kernel).entries,
        ({
            let c = old(kernel).current()->Some_0 as int;
            let cs = old(kernel).children_of(c);
            if c == INIT_PID {
                &&& r == (ExitOutcome::Shutdown { failure: exit_code != 0 })
                &&& final(kernel).tasks == old(kernel).tasks
            } else {
                &&& r == ExitOutcome::Exited
                &&& final(kernel).tasks@.len() == old(kernel).tasks@.len()
                &&& forall|p: int| #[trigger] final(kernel).live(p) == old(kernel).live(p)
                &&& final(kernel).status_of(c) == TaskStatus::Zombie
                &&& final(kernel).task(c).inner.exit_code == exit_code
                &&& final(kernel).children_of(c) == Seq::<usize>::empty()
                &&& final(kernel).children_of(INIT_PID as int) == old(kernel).children_of(INIT_PID as int) + cs
                &&& forall|p: int| #[trigger] old(kernel).live(p) && p != c && p != INIT_PID ==>
                    final(kernel).children_of(p) == old(kernel).children_of(p)
                &&& forall|p: int| #[trigger] old(kernel).live(p) ==>
                    final(kernel).parent_of(p) == if cs.contains(p as usize) { Some(INIT_PID) } else { old(kernel).parent_of(p) }
                &&& forall|p: int| #[trigger] old(kernel).live(p) && p != c ==>
                    same_but_links(old(kernel).task(p), final(kernel).task(p))
                &&& same_but_links(
                    with_exit_code(with_status(old(kernel).task(c), TaskStatus::Zombie), exit_code),
                    final(kernel).task(c),
                )
            }
        }),
{
    let ghost k0 = *kernel;
    let task = take_current_task(kernel).unwrap();
    let pid = task;
    if pid == INIT_PID {
        return ExitOutcome::Shutdown { failure: exit_code != 0 };
    }
    kernel.set_status(task, TaskStatus::Zombie);
    kernel.set_exit_code(task, exit_code);
    let ghost k1 = *kernel;
    let ghost cs = k1.children_of(task as int);
    proof {
        assert(same_structure(k0.tasks@, k1.tasks@));
        lemma_same_structure(k1.pid_allocator@, k0.tasks@, k1.tasks@, k1.mem);
        assert(cs == k0.children_of(task as int));
        assert(is_live(k1.tasks@, INIT_PID as int));
        assert(!cs.contains(INIT_PID)) by {
            if cs.contains(INIT_PID) {
                let j = choose|j: int| 0 <= j < cs.len() && cs[j] == INIT_PID;
                assert(parent_at(k1.tasks@, children_at(k1.tasks@, task as int)[j] as int) == Some(task));
            }
        }
    }
    let n = kernel.child_count(task);
    let mut i: usize = 0;
    while i < n
        invariant
            tree_ok(k1.tasks@),
            slots_ok(k1.pid_allocator@, k1.tasks@, k1.mem),
            is_live(k1.tasks@, task as int),
            task != INIT_PID,
            cs == children_at(k1.tasks@, task as int),
            !cs.contains(INIT_PID),
            n == cs.len(),
            0 <= i <= n,
            kernel.pid_allocator == k1.pid_allocator,
            kernel.processor == k1.processor,
            kernel.manager == k1.manager,
            kernel.mem == k1.mem,
            kernel.entries == k1.entries,
            kernel.tasks@.len() == k1.tasks@.len(),
            forall|p: int| #[trigger] is_live(kernel.tasks@, p) == is_live(k1.tasks@, p),
            forall|p: int| #[trigger] is_live(k1.tasks@, p) ==> same_but_links(task_at(k1.tasks@, p), task_at(kernel.tasks@, p)),
            forall|p: int| #[trigger] is_live(k1.tasks@, p) ==> parent_at(kernel.tasks@, p)
                == if cs.take(i as int).contains(p as usize) { Some(INIT_PID) } else { parent_at(k1.tasks@, p) },
            forall|p: int| #[trigger] is_live(k1.tasks@, p) && p != INIT_PID ==> children_at(kernel.tasks@, p) == children_at(k1.tasks@, p),
            children_at(kernel.tasks@, INIT_PID as int) == children_at(k1.tasks@, INIT_PID as int) + cs.take(i as int),
        decreases n - i,
    {
        let ch = kernel.child_at(task, i);
        let ghost ka = *kernel;
        proof {
            assert(is_live(k1.tasks@, children_at(k1.tasks@, task as int)[i as int] as int));
            assert(ch != INIT_PID);
            assert(is_live(k1.tasks@, INIT_PID as int));
        }
        proof {
            assert(is_live(ka.tasks@, INIT_PID as int));
        }
        kernel.set_parent(ch, Some(INIT_PID));
        let ghost kb = *kernel;
        kernel.push_child(INIT_PID, ch);
        proof {
            let k = *kernel;
            assert(cs.take(i as int + 1) =~= cs.take(i as int).push(ch));
            assert forall|p: int| #[trigger] is_live(k.tasks@, p) == is_live(k1.tasks@, p) by {
                if 0 <= p < k.tasks@.len() && p != INIT_PID && p != ch {
                    assert(k.tasks@[p] == ka.tasks@[p]);
                }
                assert(is_live(ka.tasks@, p) == is_live(k1.tasks@, p));
            }
            assert forall|p: int| #[trigger] is_live(k1.tasks@, p) implies
                same_but_links(task_at(k1.tasks@, p), task_at(k.tasks@, p)) by {
                assert(is_live(ka.tasks@, p));
                if p != INIT_PID && p != ch {
                    assert(k.tasks@[p] == ka.tasks@[p]);
                }
            }
            assert forall|p: int| #[trigger] is_live(k1.tasks@, p) implies parent_at(k.tasks@, p)
                == if cs.take(i as int + 1).contains(p as usize) { Some(INIT_PID) } else { parent_at(k1.tasks@, p) } by {
                assert(is_live(ka.tasks@, p));
                if p != INIT_PID && p != ch {
                    assert(k.tasks@[p] == ka.tasks@[p]);
                }
                lemma_take_push_contains(cs, i as int, p as usize);
                if p == INIT_PID {
                    lemma_take_contains(cs, i as int + 1, INIT_PID);
                    lemma_take_contains(cs, i as int, INIT_PID);
                }
            }
            assert forall|p: int| #[trigger] is_live(k1.tasks@, p) && p != INIT_PID implies
                children_at(k.tasks@, p) == children_at(k1.tasks@, p) by {
                assert(is_live(ka.tasks@, p));
                if p != ch {
                    assert(k.tasks@[p] == ka.tasks@[p]);
                }
            }
            assert(children_at(k.tasks@, INIT_PID as int) =~= children_at(k1.tasks@, INIT_PID as int) + cs.take(i as int + 1));
        }
        i = i + 1;
    }
    let ghost k2 = *kernel;
    kernel.clear_children(task);
    proof {
        let k = *kernel;
        assert(cs.take(n as int) =~= cs);
        assert forall|p: int| #[trigger] is_live(k.tasks@, p) == is_live(k1.tasks@, p) by {
            if 0 <= p < k.tasks@.len() && p != task {
                assert(k.tasks@[p] == k2.tasks@[p]);
            }
            assert(is_live(k2.tasks@, p) == is_live(k1.tasks@, p));
        }
        assert forall|p: int| #[trigger] is_live(k1.tasks@, p) implies {
            &&& same_but_links(task_at(k1.tasks@, p), task_at(k.tasks@, p))
            &&& parent_at(k.tasks@, p) == if cs.contains(p as usize) { Some(INIT_PID) } else { parent_at(k1.tasks@, p) }
            &&& (p != task && p != INIT_PID ==> children_at(k.tasks@, p) == children_at(k1.tasks@, p))
        } by {
            if p != task {
                assert(k.tasks@[p] == k2.tasks@[p]);
            }
        }
        assert(children_at(k.tasks@, INIT_PID as int) == children_at(k1.tasks@, INIT_PID as int) + cs) by {
            assert(k.tasks@[INIT_PID as int] == k2.tasks@[INIT_PID as int]);
        }
        crate::task::pid::lemma_current_bounded(&k1.pid_allocator);
        lemma_exit_tree(k1.tasks@, k.tasks@, task as int);
        assert forall|p: int| 0 <= p < k1.tasks@.len() implies (#[trigger] k1.tasks@[p] is Some <==> k.tasks@[p] is Some) by {
            assert(is_live(k.tasks@, p) == is_live(k1.tasks@, p));
        }
        assert(same_slots(k1.tasks@, k.tasks@));
        lemma_same_slots(k.pid_allocator@, k1.tasks@, k.tasks@, k.mem);
        assert forall|p: int| #[trigger] k.live(p) == k0.live(p) by {
            assert(is_live(k1.tasks@, p) == is_live(k0.tasks@, p));
        }
        assert forall|p: int| #[trigger] k0.live(p) && p != task && p != INIT_PID implies
            k.children_of(p) == k0.children_of(p) by {
            assert(is_live(k1.tasks@, p));
        }
        assert forall|p: int| #[trigger] k0.live(p) implies
            k.parent_of(p) == if cs.contains(p as usize) { Some(INIT_PID) } else { k0.parent_of(p) } by {
            assert(is_live(k1.tasks@, p));
        }
        assert forall|p: int| #[trigger] k0.live(p) && p != task implies same_but_links(k0.task(p), k.task(p)) by {
            assert(is_live(k1.tasks@, p));
        }
        assert(k.children_of(INIT_PID as int) == k0.children_of(INIT_PID as int) + cs);
    }
    ExitOutcome::Exited
}

impl TaskControlBlock {
    /// A copy of the process `parent`, with the address space `memory_set`
    /// copied from the parent's. The child takes the next pid, is ready to
    /// run, has the parent's saved registers (but its own kernel stack) and
    /// is appended to the parent's children. Returns the child's pid.
    pub fn fork(kernel: &mut Kernel, parent: usize, memory_set: MemorySet) -> (r: usize)
        requires
            old(kernel).wf(),
            old(kernel).live(parent as int),
            old(kernel).status_of(parent as int) != TaskStatus::Zombie,
            maps_trap_context(&old(kernel).mem, &memory_set),
            copies_address_space(&old(kernel).mem, &old(kernel).task(parent as int).inner.memory_set, &memory_set),
            old(kernel).pid_allocator@.recycled.len() == 0 ==> old(kernel).pid_allocator@.current < usize::MAX,
            kernel_stack_fits(old(kernel).pid_allocator@.next_pid() as int),
        ensures
            final(kernel).wf(),
            r == old(kernel).pid_allocator@.next_pid(),
            !old(kernel).live(r as int),
            final(kernel).pid_allocator@ == old(kernel).pid_allocator@.after_alloc(),
            final(kernel).queue() == old(kernel).queue(),
            final(kernel).processor == old(kernel).processor,
            final(kernel).mem == old(kernel).mem,
            final(kernel).entries == old(kernel).entries,
            forall|p: int| #[trigger] final(kernel).live(p) == (old(kernel).live(p) || p == r),
            forall|p: int| #[trigger] old(kernel).live(p) && p != parent ==> final(kernel).task(p) == old(kernel).task(p),
            same_but_links(old(kernel).task(parent as int), final(kernel).task(parent as int)),
            final(kernel).parent_of(parent as int) == old(kernel).parent_of(parent as int),
            final(kernel).children_of(parent as int) == old(kernel).children_of(parent as int).push(r),
            ({
                let child = final(kernel).task(r as int);
                let ptask = old(kernel).task(parent as int);
                &&& child.pid.0 == r
                &&& child.kernel_stack.owner() == r
                &&& child.inner.memory_set == memory_set
                &&& copies_address_space(&final(kernel).mem, &final(kernel).task(parent as int).inner.memory_set, &child.inner.memory_set)
                &&& child.inner.trap_cx_ppn.0 == tree_lookup(&old(kernel).mem, memory_set.root(), trap_context_vpn())->Some_0.ppn_of()
                &&& child.inner.base_size == ptask.inner.base_size
                &&& child.inner.task_status == TaskStatus::Ready
                &&& child.inner.parent == Some(parent)
                &&& child.inner.children@ == Seq::<usize>::empty()
                &&& child.inner.exit_code == 0
                &&& child.inner.task_cx.ra == old(kernel).entries.trap_return
                &&& child.inner.task_cx.sp == kernel_stack_top(r as int)
                &&& forall|i: int| 0 <= i < 12 ==> child.inner.task_cx.s[i] == 0
                &&& child.inner.trap_cx.x == ptask.inner.trap_cx.x
                &&& child.inner.trap_cx.sstatus == ptask.inner.trap_cx.sstatus
                &&& child.inner.trap_cx.sepc == ptask.inner.trap_cx.sepc
                &&& child.inner.trap_cx.kernel_satp == ptask.inner.trap_cx.kernel_satp
                &&& child.inner.trap_cx.trap_handler == ptask.inner.trap_cx.trap_handler
                &&& child.inner.trap_cx.kernel_sp == kernel_stack_top(r as int)
            }),
    {
        let ghost k0 = *kernel;
        proof {
            lemma_alloc_fresh(k0.pid_allocator@);
            lemma_current_bounded(&k0.pid_allocator);
        }
        let trap_cx_ppn = match memory_set.translate(&kernel.mem, VirtAddr::from_word(TRAP_CONTEXT_VA).floor()) {
            Some(e) => e.ppn(),
            None => {
                assert(false);
                PhysPageNum(0)
            },
        };
        let (base_size, parent_trap_cx) = {
            let parent_inner = kernel.tasks[parent].as_ref().unwrap().inner_ref();
            (parent_inner.base_size, parent_inner.trap_cx)
        };
        let pid_handle = pid_alloc(&mut kernel.pid_allocator);
        let kernel_stack = KernelStack::new(&pid_handle);
        let kernel_stack_top = kernel_stack.get_top();
        let new_pid = pid_handle.0;
        let mut trap_cx = parent_trap_cx;
        trap_cx.kernel_sp = kernel_stack_top;
        let task_control_block = TaskControlBlock {
            pid: pid_handle,
            kernel_stack,
            inner: TaskControlBlockInner {
                trap_cx_ppn,
                base_size,
                task_cx: TaskContext::goto_trap_return(kernel.entries.trap_return, kernel_stack_top),
                task_status: TaskStatus::Ready,
                memory_set,
                parent: Some(parent),
                children: Vec::new(),
                exit_code: 0,
                trap_cx,
            },
        };
        proof {
            if k0.pid_allocator@.recycled.len() > 0 {
                assert(k0.pid_allocator@.recycled.contains(new_pid));
                assert(new_pid < k0.tasks@.len());
                assert(!(k0.tasks@[new_pid as int] is Some));
            }
        }
        if new_pid == kernel.tasks.len() {
            kernel.tasks.push(Some(task_control_block));
        } else {
            kernel.tasks.set(new_pid, Some(task_control_block));
        }
        let ghost k1 = *kernel;
        proof {
            assert forall|p: int| #[trigger] is_live(k1.tasks@, p) == (is_live(k0.tasks@, p) || p == new_pid) by {
                if 0 <= p < k0.tasks@.len() && p != new_pid {
                    assert(k1.tasks@[p] == k0.tasks@[p]);
                }
            }
            assert forall|p: int| #[trigger] is_live(k0.tasks@, p) implies task_at(k1.tasks@, p) == task_at(k0.tasks@, p) by {
                assert(p != new_pid);
                assert(k1.tasks@[p] == k0.tasks@[p]);
            }
            assert(is_live(k1.tasks@, parent as int));
        }
        kernel.push_child(parent, new_pid);
        proof {
            let k = *kernel;
            assert forall|p: int| #[trigger] is_live(k.tasks@, p) == (is_live(k0.tasks@, p) || p == new_pid) by {
                if 0 <= p < k.tasks@.len() && p != parent {
                    assert(k.tasks@[p] == k1.tasks@[p]);
                }
                assert(is_live(k1.tasks@, p) == (is_live(k0.tasks@, p) || p == new_pid));
            }
            assert forall|p: int| #[trigger] is_live(k0.tasks@, p) && p != parent implies task_at(k.tasks@, p) == task_at(k0.tasks@, p) by {
                assert(k.tasks@[p] == k1.tasks@[p]);
                assert(task_at(k1.tasks@, p) == task_at(k0.tasks@, p));
            }
            assert(task_at(k.tasks@, new_pid as int) == task_at(k1.tasks@, new_pid as int)) by {
                assert(k.tasks@[new_pid as int] == k1.tasks@[new_pid as int]);
            }
            // pids and slots
            assert forall|p: int| 0 <= p < k.tasks@.len() implies (#[trigger] k.tasks@[p] is Some <==> k.pid_allocator@.in_use(p)) by {
                assert(is_live(k.tasks@, p) == (is_live(k0.tasks@, p) || p == new_pid));
                if p < k0.tasks@.len() {
                    assert(k0.tasks@[p] is Some <==> k0.pid_allocator@.in_use(p));
                }
            }
            assert forall|p: int| #[trigger] is_live(k.tasks@, p) implies {
                &&& task_at(k.tasks@, p).pid.0 == p
                &&& task_at(k.tasks@, p).kernel_stack.owner() == p
                &&& kernel_stack_fits(p)
                &&& maps_trap_context(&k.mem, &task_at(k.tasks@, p).inner.memory_set)
            } by {
                if p != new_pid {
                    assert(is_live(k0.tasks@, p));
                }
            }
            // the tree
            assert(is_live(k0.tasks@, INIT_PID as int));
            assert forall|p: int| #[trigger] is_live(k.tasks@, p) && p != INIT_PID implies parent_at(k.tasks@, p) is Some by {
                if p != new_pid {
                    assert(is_live(k0.tasks@, p));
                }
            }
            assert forall|p: int, i: int| is_live(k.tasks@, p) && 0 <= i < children_at(k.tasks@, p).len() implies {
                &&& is_live(k.tasks@, #[trigger] children_at(k.tasks@, p)[i] as int)
                &&& parent_at(k.tasks@, children_at(k.tasks@, p)[i] as int) == Some(p as usize)
            } by {
                if p != new_pid {
                    assert(is_live(k0.tasks@, p));
                    if p == parent && i == children_at(k0.tasks@, p).len() {
                    } else {
                        assert(children_at(k.tasks@, p)[i] == children_at(k0.tasks@, p)[i]);
                        assert(is_live(k0.tasks@, children_at(k0.tasks@, p)[i] as int));
                    }
                }
            }
            assert forall|p: int| #[trigger] is_live(k.tasks@, p) implies children_at(k.tasks@, p).no_duplicates() by {
                if p != new_pid {
                    assert(is_live(k0.tasks@, p));
                    if p == parent {
                        assert(!children_at(k0.tasks@, p).contains(new_pid)) by {
                            if children_at(k0.tasks@, p).contains(new_pid) {
                                let i = choose|i: int| 0 <= i < children_at(k0.tasks@, p).len() && children_at(k0.tasks@, p)[i] == new_pid;
                                assert(is_live(k0.tasks@, children_at(k0.tasks@, p)[i] as int));
                            }
                        }
                    }
                }
            }
            assert forall|c: int| #[trigger] is_live(k.tasks@, c) && parent_at(k.tasks@, c) is Some implies {
                &&& is_live(k.tasks@, parent_at(k.tasks@, c)->Some_0 as int)
                &&& children_at(k.tasks@, parent_at(k.tasks@, c)->Some_0 as int).contains(c as usize)
            } by {
                if c == new_pid {
                    assert(children_at(k.tasks@, parent as int)[children_at(k0.tasks@, parent as int).len() as int] == new_pid);
                } else {
                    assert(is_live(k0.tasks@, c));
                    let q = parent_at(k0.tasks@, c)->Some_0 as int;
                    assert(is_live(k0.tasks@, q));
                    if q == parent {
                        let j = choose|j: int| 0 <= j < children_at(k0.tasks@, q).len() && children_at(k0.tasks@, q)[j] == c as usize;
                        assert(children_at(k.tasks@, q)[j] == c as usize);
                    }
                }
            }
            assert forall|p: int| #[trigger] is_live(k.tasks@, p) && status_at(k.tasks@, p) == TaskStatus::Zombie
                implies children_at(k.tasks@, p).len() == 0 by {
                if p != new_pid && p != parent {
                    assert(is_live(k0.tasks@, p));
                }
            }
            // the schedule
            assert forall|i: int| 0 <= i < k.queue().len() implies {
                &&& is_live(k.tasks@, #[trigger] k.queue()[i] as int)
                &&& status_at(k.tasks@, k.queue()[i] as int) == TaskStatus::Ready
            } by {
                assert(is_live(k0.tasks@, k0.queue()[i] as int));
            }
            if let Some(c) = k.current() {
                assert(is_live(k0.tasks@, c as int));
            }
            assert forall|p: int| #[trigger] k.live(p) == (k0.live(p) || p == new_pid) by {
                assert(is_live(k.tasks@, p) == (is_live(k0.tasks@, p) || p == new_pid));
            }
            assert forall|p: int| #[trigger] k0.live(p) && p != parent implies k.task(p) == k0.task(p) by {
                assert(task_at(k.tasks@, p) == task_at(k0.tasks@, p));
            }
        }
        new_pid
    }
}

} // verus!
