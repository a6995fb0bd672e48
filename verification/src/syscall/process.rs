use vstd::prelude::*;
use crate::mm::memory_set::lemma_satp_names_root;
use crate::mm::page_table::{token_root, lemma_walkable_mem};
use crate::mm::user_buffer::{
    translate_memcopy, user_buffer_ok, user_walk, segment_locations, byte_after_writes, lemma_memcopy_reads_back,
};
use crate::syscall::time::{i32_to_bytes, i32_bytes};
use crate::task::kernel::{
    Kernel, INIT_PID, is_live, task_at, parent_at, children_at, status_at, slots_ok, tree_ok,
    same_but_children, lemma_slots_same_tables,
};
use crate::task::pid::lemma_current_bounded;
use crate::task::processor::{current_task, current_user_token};
use crate::task::tasks::{TaskControlBlock, TaskStatus, maps_trap_context, copies_address_space};
use crate::task::kernel::{same_structure, lemma_same_structure, same_but_regs, with_status};
use crate::task::manager::add_task;
use crate::task::lifecycle::{exit_current_and_run_next, suspend_current_and_run_next, ExitOutcome};
use crate::mm::memory_set::MemorySet;
use crate::mm::user_buffer::{translate_str, string_ends_at, user_byte};
use crate::loader::{AppTable, get_app_data_by_name};
use crate::chars::{encode_chars, line_utf8};
use crate::config::{kernel_stack_fits, kernel_stack_top};
use crate::trap::context::SSTATUS_SPP;

verus! {

/// `pid` asks for the child `child`: `-1` asks for any child.
pub open spec fn pid_matches(pid: isize, child: usize) -> bool {
    pid == -1 || pid as usize == child
}

/// A wait for a given pid (anything but -1) asks for that child alone.
pub proof fn lemma_pid_matches_only_that_child(pid: isize, child: usize)
    requires
        pid != -1,
        pid_matches(pid, child),
    ensures
        child == pid as usize,
        child as isize == pid,
{
    assert((pid as usize) as isize == pid) by (bit_vector);
}

/// `child` is a child `pid` asks for that has exited.
pub open spec fn reapable(k: &Kernel, pid: isize, child: usize) -> bool {
    pid_matches(pid, child) && k.status_of(child as int) == TaskStatus::Zombie
}

/// The first index among the children of `p` whose child is asked for by
/// `pid` (and, with `zombie`, has exited).
fn find_child(kernel: &Kernel, p: usize, pid: isize, zombie: bool) -> (r: Option<usize>)
    requires
        kernel.wf(),
        kernel.live(p as int),
    ensures
        match r {
            Some(i) => {
                &&& i < kernel.children_of(p as int).len()
                &&& pid_matches(pid, kernel.children_of(p as int)[i as int])
                &&& (zombie ==> reapable(kernel, pid, kernel.children_of(p as int)[i as int]))
                &&& forall|j: int| 0 <= j < i ==> !(if zombie {
                    reapable(kernel, pid, #[trigger] kernel.children_of(p as int)[j])
                } else {
                    pid_matches(pid, kernel.children_of(p as int)[j])
                })
            },
            None => forall|j: int| 0 <= j < kernel.children_of(p as int).len() ==> !(if zombie {
                reapable(kernel, pid, #[trigger] kernel.children_of(p as int)[j])
            } else {
                pid_matches(pid, kernel.children_of(p as int)[j])
            }),
        },
{
    let n = kernel.child_count(p);
    let mut i: usize = 0;
    while i < n
        invariant
            kernel.wf(),
            kernel.live(p as int),
            n == kernel.children_of(p as int).len(),
            0 <= i <= n,
            forall|j: int| 0 <= j < i ==> !(if zombie {
                reapable(kernel, pid, #[trigger] kernel.children_of(p as int)[j])
            } else {
                pid_matches(pid, kernel.children_of(p as int)[j])
            }),
        decreases n - i,
    {
        let c = kernel.child_at(p, i);
        proof {
            assert(is_live(kernel.tasks@, children_at(kernel.tasks@, p as int)[i as int] as int));
        }
        let m = pid == -1 || pid as usize == c;
        if m && (!zombie || kernel.status(c) == TaskStatus::Zombie) {
            return Some(i);
        }
        i = i + 1;
    }
    None
}

/// The current process waits for the child `pid` (`-1`: any child) to have
/// exited. `-1` when no child is asked for, `-2` when none of them has
/// exited yet. Otherwise the first such child is reaped: it leaves the
/// children, its pid is freed and its exit code is written to
/// `exit_code_ptr` in the current address space; the result is the child's
/// pid, or `-1` when that memory may not be written.
pub fn sys_waitpid(kernel: &mut Kernel, pid: isize, exit_code_ptr: usize) -> (r: isize)
    requires
        old(kernel).wf(),
        old(kernel).current() is Some,
        (exists|i: int| 0 <= i < old(kernel).children_of(old(kernel).current()->Some_0 as int).len()
            && #[trigger] reapable(old(kernel), pid, old(kernel).children_of(old(kernel).current()->Some_0 as int)[i]))
            ==> user_buffer_ok(
                &old(kernel).mem,
                old(kernel).task(old(kernel).current()->Some_0 as int).inner.memory_set.root(),
                exit_code_ptr as u64,
                4,
                true,
            ),
    ensures
        final(kernel).wf(),
        final(kernel).queue() == old(kernel).queue(),
        final(kernel).processor == old(kernel).processor,
        final(kernel).entries == old(kernel).entries,
        r >= 0 ==> pid == -1 || r == pid,
        ({
            let cur = old(kernel).current()->Some_0 as int;
            let cs = old(kernel).children_of(cur);
            if forall|i: int| 0 <= i < cs.len() ==> !pid_matches(pid, #[trigger] cs[i]) {
                r == -1 && *final(kernel) == *old(kernel)
            } else if forall|i: int| 0 <= i < cs.len() ==> !reapable(old(kernel), pid, #[trigger] cs[i]) {
                r == -2 && *final(kernel) == *old(kernel)
            } else {
                exists|i: int| {
                    &&& 0 <= i < cs.len()
                    &&& #[trigger] reapable(old(kernel), pid, cs[i])
                    &&& forall|j: int| 0 <= j < i ==> !reapable(old(kernel), pid, #[trigger] cs[j])
                    &&& ({
                        let child = cs[i];
                        let root = old(kernel).task(cur).inner.memory_set.root();
                        let walk = user_walk(&old(kernel).mem, root, exit_code_ptr as u64, 4, true);
                        &&& !final(kernel).live(child as int)
                        &&& forall|p: int| p != child ==> #[trigger] final(kernel).live(p) == old(kernel).live(p)
                        &&& final(kernel).pid_allocator@ == old(kernel).pid_allocator@.after_dealloc(child)
                        &&& final(kernel).children_of(cur) == cs.remove(i)
                        &&& same_but_children(old(kernel).task(cur), final(kernel).task(cur))
                        &&& forall|p: int| #[trigger] old(kernel).live(p) && p != cur && p != child ==>
                            final(kernel).task(p) == old(kernel).task(p)
                        &&& final(kernel).mem.frames() == old(kernel).mem.frames()
                        &&& old(kernel).mem.same_ptes(&final(kernel).mem)
                        &&& match walk.1 {
                            Some(segs) => {
                                &&& r == child as isize
                                &&& forall|p: int, o: int| 0 <= p < old(kernel).mem.frames() && 0 <= o < 4096 ==>
                                    #[trigger] final(kernel).mem.byte(p, o) == byte_after_writes(
                                        segment_locations(segs),
                                        i32_bytes(old(kernel).task(child as int).inner.exit_code),
                                        p,
                                        o,
                                        old(kernel).mem.byte(p, o),
                                    )
                                &&& forall|k: int| 0 <= k < 4 ==> #[trigger] user_byte(&final(kernel).mem, root, exit_code_ptr + k)
                                    == Some(i32_bytes(old(kernel).task(child as int).inner.exit_code)[k])
                            },
                            None => r == -1 && final(kernel).mem == old(kernel).mem,
                        }
                    })
                }
            }
        }),
{
    let ghost k0 = *kernel;
    let cur = current_task(kernel).unwrap();
    let ghost cs = k0.children_of(cur as int);
    let token = current_user_token(kernel);
    if find_child(kernel, cur, pid, false).is_none() {
        return -1;
    }
    let idx = match find_child(kernel, cur, pid, true) {
        Some(i) => i,
        None => {
            return -2;
        },
    };
    proof {
        assert(reapable(&k0, pid, cs[idx as int]));
        let ms = k0.task(cur as int).inner.memory_set;
        assert(is_live(k0.tasks@, cur as int));
        assert(maps_trap_context(&k0.mem, &ms));
        lemma_satp_names_root(&ms, &k0.mem);
        lemma_current_bounded(&k0.pid_allocator);
    }
    let child = kernel.remove_child(cur, idx);
    let ghost k1 = *kernel;
    proof {
        assert(is_live(k0.tasks@, child as int));
        assert(child != cur);
        assert(is_live(k1.tasks@, child as int)) by {
            assert(k1.tasks@[child as int] == k0.tasks@[child as int]);
        }
        assert(k0.tasks@[child as int] is Some);
    }
    let exit_code = kernel.exit_code(child);
    kernel.release(child);
    let ghost k2 = *kernel;
    let bytes = i32_to_bytes(exit_code);
    let res = translate_memcopy(&mut kernel.mem, token, exit_code_ptr as u64, &bytes);
    proof {
        let k = *kernel;
        let t0 = k0.tasks@;
        let t = k.tasks@;
        assert(exit_code == k0.task(child as int).inner.exit_code) by {
            assert(k1.tasks@[child as int] == k0.tasks@[child as int]);
        }
        assert(children_at(t0, child as int).len() == 0);
        // liveness
        assert forall|p: int| #[trigger] is_live(t, p) == (is_live(t0, p) && p != child) by {
            if 0 <= p < t.len() && p != child && p != cur {
                assert(t[p] == t0[p]);
            }
        }
        assert forall|p: int| #[trigger] is_live(t0, p) && p != cur && p != child implies task_at(t, p) == task_at(t0, p) by {
            assert(t[p] == t0[p]);
        }
        assert(task_at(t, cur as int) == task_at(k1.tasks@, cur as int));
        // pids
        assert forall|p: int| 0 <= p < t.len() implies (#[trigger] t[p] is Some <==> k.pid_allocator@.in_use(p)) by {
            assert(is_live(t, p) == (is_live(t0, p) && p != child));
            assert(t0[p] is Some <==> k0.pid_allocator@.in_use(p));
        }
        assert forall|p: int| #[trigger] is_live(t, p) implies {
            &&& task_at(t, p).pid.0 == p
            &&& task_at(t, p).kernel_stack.owner() == p
            &&& crate::config::kernel_stack_fits(p)
            &&& maps_trap_context(&k2.mem, &task_at(t, p).inner.memory_set)
        } by {
            assert(is_live(t0, p));
        }
        assert(slots_ok(k2.pid_allocator@, t, k2.mem));
        lemma_walkable_mem(&k2.mem, k0.task(cur as int).inner.memory_set.root());
        lemma_slots_same_tables(k2.pid_allocator@, t, k2.mem, k.mem);
        // the tree
        assert(is_live(t0, INIT_PID as int));
        assert(child != INIT_PID);
        assert forall|p: int| #[trigger] is_live(t, p) && p != INIT_PID implies parent_at(t, p) is Some by {
            assert(is_live(t0, p));
        }
        assert forall|p: int, i: int| is_live(t, p) && 0 <= i < children_at(t, p).len() implies {
            &&& is_live(t, #[trigger] children_at(t, p)[i] as int)
            &&& parent_at(t, children_at(t, p)[i] as int) == Some(p as usize)
        } by {
            assert(is_live(t0, p));
            let x = children_at(t, p)[i];
            if p == cur {
                let j = if i < idx { i } else { i + 1 };
                assert(x == cs[j]);
                assert(is_live(t0, children_at(t0, p)[j] as int));
                assert(cs[j] != cs[idx as int]);
            } else {
                assert(x == children_at(t0, p)[i]);
                assert(is_live(t0, children_at(t0, p)[i] as int));
                assert(x != child) by {
                    if x == child {
                        assert(parent_at(t0, children_at(t0, cur as int)[idx as int] as int) == Some(cur));
                    }
                }
            }
        }
        assert forall|p: int| #[trigger] is_live(t, p) implies children_at(t, p).no_duplicates() by {
            assert(is_live(t0, p));
            if p == cur {
                assert forall|a: int, b: int| 0 <= a < children_at(t, p).len() && 0 <= b < children_at(t, p).len() && a != b
                    implies children_at(t, p)[a] != children_at(t, p)[b] by {
                    let ja = if a < idx { a } else { a + 1 };
                    let jb = if b < idx { b } else { b + 1 };
                    assert(children_at(t, p)[a] == cs[ja]);
                    assert(children_at(t, p)[b] == cs[jb]);
                }
            }
        }
        assert forall|x: int| #[trigger] is_live(t, x) && parent_at(t, x) is Some implies {
            &&& is_live(t, parent_at(t, x)->Some_0 as int)
            &&& children_at(t, parent_at(t, x)->Some_0 as int).contains(x as usize)
        } by {
            assert(is_live(t0, x));
            let q = parent_at(t0, x)->Some_0 as int;
            assert(is_live(t0, q));
            assert(children_at(t0, q).contains(x as usize));
            assert(q != child) by {
                if q == child {
                    assert(children_at(t0, q).len() == 0);
                }
            }
            if q == cur {
                let j = choose|j: int| 0 <= j < cs.len() && cs[j] == x as usize;
                assert(j != idx);
                let i2 = if j < idx { j } else { j - 1 };
                assert(children_at(t, q)[i2] == x as usize);
            }
        }
        assert(tree_ok(t));
        assert forall|p: int| #[trigger] is_live(t, p) && status_at(t, p) == TaskStatus::Zombie
            implies children_at(t, p).len() == 0 by {
            assert(is_live(t0, p));
        }
        assert forall|i: int| 0 <= i < k.queue().len() implies {
            &&& is_live(t, #[trigger] k.queue()[i] as int)
            &&& status_at(t, k.queue()[i] as int) == TaskStatus::Ready
        } by {
            assert(is_live(t0, k0.queue()[i] as int));
        }
        assert forall|p: int| p != child implies #[trigger] k.live(p) == k0.live(p) by {
            assert(is_live(t, p) == (is_live(t0, p) && p != child));
        }
        assert forall|p: int| #[trigger] k0.live(p) && p != cur && p != child implies k.task(p) == k0.task(p) by {
            assert(task_at(t, p) == task_at(t0, p));
        }
        assert(!k.live(child as int)) by {
            assert(is_live(t, child as int) == (is_live(t0, child as int) && false));
        }
    }
    proof {
        let root = k0.task(cur as int).inner.memory_set.root();
        if res.is_ok() {
            assert(k2.mem == k0.mem);
            assert forall|k: int| 0 <= k < 4 implies #[trigger] user_byte(&kernel.mem, root, exit_code_ptr + k)
                == Some(i32_bytes(k0.task(child as int).inner.exit_code)[k]) by {
                lemma_memcopy_reads_back(&k0.mem, &kernel.mem, root, exit_code_ptr as u64, bytes@, k);
            }
        }
    }
    if res.is_err() {
        return -1;
    }
    proof {
        assert(child == cs[idx as int]);
        assert(pid_matches(pid, child));
        if pid != -1 {
            lemma_pid_matches_only_that_child(pid, child);
        }
    }
    child as isize
}

/// The current process exits with `xstate` (see `exit_current_and_run_next`).
pub fn sys_exit(kernel: &mut Kernel, xstate: i32) -> (r: ExitOutcome)
    requires
        old(kernel).wf(),
        old(kernel).current() is Some,
    ensures
        final(kernel).wf(),
        final(kernel).current() is None,
        old(kernel).current() == Some(INIT_PID) ==> r == (ExitOutcome::Shutdown { failure: xstate != 0 }),
        old(kernel).current() != Some(INIT_PID) ==> {
            &&& r == ExitOutcome::Exited
            &&& final(kernel).status_of(old(kernel).current()->Some_0 as int) == TaskStatus::Zombie
            &&& final(kernel).task(old(kernel).current()->Some_0 as int).inner.exit_code == xstate
        },
{
    exit_current_and_run_next(kernel, xstate)
}

/// The current process gives up the processor; the call returns 0.
pub fn sys_yield(kernel: &mut Kernel) -> (r: isize)
    requires
        old(kernel).wf(),
        old(kernel).current() is Some,
    ensures
        r == 0,
        final(kernel).wf(),
        final(kernel).current() is None,
        final(kernel).queue() == old(kernel).queue().push(old(kernel).current()->Some_0),
        final(kernel).status_of(old(kernel).current()->Some_0 as int) == TaskStatus::Ready,
        final(kernel).tasks@ == old(kernel).tasks@.update(
            old(kernel).current()->Some_0 as int,
            Some(with_status(old(kernel).task(old(kernel).current()->Some_0 as int), TaskStatus::Ready)),
        ),
        final(kernel).mem == old(kernel).mem,
        final(kernel).pid_allocator == old(kernel).pid_allocator,
        final(kernel).entries == old(kernel).entries,
{
    suspend_current_and_run_next(kernel);
    0
}

/// The current process forks: the child (see `TaskControlBlock::fork`) gets
/// the address space `memory_set` copied from the parent's, sees 0 as the
/// result of the call and joins the ready queue; the parent gets the
/// child's pid.
pub fn sys_fork(kernel: &mut Kernel, memory_set: MemorySet) -> (r: isize)
    requires
        old(kernel).wf(),
        old(kernel).current() is Some,
        maps_trap_context(&old(kernel).mem, &memory_set),
        copies_address_space(
            &old(kernel).mem,
            &old(kernel).task(old(kernel).current()->Some_0 as int).inner.memory_set,
            &memory_set,
        ),
        old(kernel).pid_allocator@.recycled.len() == 0 ==> old(kernel).pid_allocator@.current < usize::MAX,
        kernel_stack_fits(old(kernel).pid_allocator@.next_pid() as int),
    ensures
        final(kernel).wf(),
        ({
            let cur = old(kernel).current()->Some_0;
            let child = old(kernel).pid_allocator@.next_pid();
            &&& r == child as isize
            &&& !old(kernel).live(child as int)
            &&& final(kernel).live(child as int)
            &&& final(kernel).current() == old(kernel).current()
            &&& final(kernel).queue() == old(kernel).queue().push(child as usize)
            &&& final(kernel).parent_of(child as int) == Some(cur)
            &&& final(kernel).children_of(cur as int) == old(kernel).children_of(cur as int).push(child as usize)
            &&& same_but_children(old(kernel).task(cur as int), final(kernel).task(cur as int))
            &&& final(kernel).status_of(child as int) == TaskStatus::Ready
            &&& final(kernel).task(child as int).inner.memory_set == memory_set
            &&& copies_address_space(
                &final(kernel).mem,
                &final(kernel).task(cur as int).inner.memory_set,
                &final(kernel).task(child as int).inner.memory_set,
            )
            &&& final(kernel).task(child as int).inner.trap_cx.x@
                == old(kernel).task(cur as int).inner.trap_cx.x@.update(10, 0)
            &&& final(kernel).task(child as int).inner.trap_cx.sepc == old(kernel).task(cur as int).inner.trap_cx.sepc
            &&& forall|p: int| #[trigger] old(kernel).live(p) && p != cur ==> final(kernel).task(p) == old(kernel).task(p)
        }),
{
    let current_task = current_task(kernel).unwrap();
    let ghost k0 = *kernel;
    let new_pid = TaskControlBlock::fork(kernel, current_task, memory_set);
    let ghost k1 = *kernel;
    kernel.set_trap_reg(new_pid, 10, 0);
    proof {
        let k = *kernel;
        assert forall|p: int| 0 <= p < k1.tasks@.len() implies (#[trigger] k1.tasks@[p] is Some <==> k.tasks@[p] is Some) by {
            if p != new_pid {
                assert(k.tasks@[p] == k1.tasks@[p]);
            }
        }
        assert forall|p: int| #[trigger] is_live(k1.tasks@, p) implies task_at(k.tasks@, p) == task_at(k1.tasks@, p) || p == new_pid by {
            if p != new_pid {
                assert(k.tasks@[p] == k1.tasks@[p]);
            }
        }
        assert(same_structure(k1.tasks@, k.tasks@));
        lemma_same_structure(k.pid_allocator@, k1.tasks@, k.tasks@, k.mem);
        assert forall|p: int| #[trigger] is_live(k.tasks@, p) && status_at(k.tasks@, p) == TaskStatus::Zombie
            implies children_at(k.tasks@, p).len() == 0 by {
            assert(is_live(k1.tasks@, p));
        }
        assert forall|i: int| 0 <= i < k.queue().len() implies {
            &&& is_live(k.tasks@, #[trigger] k.queue()[i] as int)
            &&& status_at(k.tasks@, k.queue()[i] as int) == TaskStatus::Ready
        } by {
            assert(is_live(k1.tasks@, k1.queue()[i] as int));
        }
        assert(!k.queue().contains(new_pid)) by {
            if k.queue().contains(new_pid) {
                let i = choose|i: int| 0 <= i < k.queue().len() && k.queue()[i] == new_pid;
                assert(is_live(k0.tasks@, k0.queue()[i] as int));
            }
        }
        assert(k.current() != Some(new_pid));
    }
    add_task(kernel, new_pid);
    proof {
        let k = *kernel;
        assert forall|p: int| #[trigger] k0.live(p) && p != current_task implies k.task(p) == k0.task(p) by {
            assert(p != new_pid);
            assert(k1.task(p) == k0.task(p));
        }
    }
    new_pid as isize
}

/// The string at `ptr` in the address space whose root is `root` is `s`:
/// its bytes are readable and not zero, and the byte after them is zero.
pub open spec fn user_string_is(k: &Kernel, root: int, ptr: u64, s: Seq<u8>) -> bool {
    &&& string_ends_at(&k.mem, root, ptr, s.len() as int)
    &&& user_byte(&k.mem, root, ptr + s.len()) is Some
    &&& forall|i: int| 0 <= i < s.len() ==> user_byte(&k.mem, root, ptr + i) == Some(#[trigger] s[i])
}

/// Looks up the program named by the string at `path` in the current
/// address space, each byte taken as one character: `Ok` with the image of
/// the first application whose name is that text (which the caller loads and
/// then hands to `exec_current_task`); `Err(-2)`, an illegal argument, when
/// the string may not be read; `Err(-1)` when no application has that name.
pub fn sys_exec(kernel: &Kernel, apps: &AppTable, path: usize) -> (r: Result<(usize, usize), isize>)
    requires
        kernel.wf(),
        kernel.current() is Some,
        apps.wf(),
        exists|n: int| #[trigger] string_ends_at(
            &kernel.mem,
            kernel.task(kernel.current()->Some_0 as int).inner.memory_set.root(),
            path as u64,
            n,
        ),
    ensures
        ({
            let root = kernel.task(kernel.current()->Some_0 as int).inner.memory_set.root();
            match r {
                Ok((start, len)) => exists|s: Seq<u8>, i: int| {
                    &&& #[trigger] user_string_is(kernel, root, path as u64, s)
                    &&& 0 <= i < apps.num_app()
                    &&& #[trigger] apps.names()[i] == line_utf8(s)
                    &&& forall|j: int| 0 <= j < i ==> apps.names()[j] != line_utf8(s)
                    &&& start == apps.starts()[i]
                    &&& len == apps.starts()[i + 1] - apps.starts()[i]
                },
                Err(e) => {
                    ||| e == -2 && exists|n: int| #[trigger] string_ends_at(&kernel.mem, root, path as u64, n)
                        && user_byte(&kernel.mem, root, path + n) is None
                    ||| e == -1 && exists|s: Seq<u8>| #[trigger] user_string_is(kernel, root, path as u64, s)
                        && forall|i: int| 0 <= i < apps.num_app() ==> apps.names()[i] != line_utf8(s)
                },
            }
        }),
{
    let token = current_user_token(kernel);
    proof {
        let cur = kernel.current()->Some_0 as int;
        assert(is_live(kernel.tasks@, cur));
        lemma_satp_names_root(&kernel.task(cur).inner.memory_set, &kernel.mem);
    }
    if let Some(name) = translate_str(&kernel.mem, token, path as u64) {
        proof {
            let root = kernel.task(kernel.current()->Some_0 as int).inner.memory_set.root();
            assert(user_string_is(kernel, root, path as u64, name@));
        }
        let text = encode_chars(&name);
        if let Some(data) = get_app_data_by_name(apps, &text) {
            Ok(data)
        } else {
            Err(-1)
        }
    } else {
        Err(-2)
    }
}

/// The current process starts the program whose address space `memory_set`
/// was built from its image, with user stack top `user_sp` and entry point
/// `entry_point` (see `TaskControlBlock::exec`); the call returns 0.
pub fn exec_current_task(kernel: &mut Kernel, memory_set: MemorySet, user_sp: usize, entry_point: usize) -> (r: isize)
    requires
        old(kernel).wf(),
        old(kernel).current() is Some,
        maps_trap_context(&old(kernel).mem, &memory_set),
    ensures
        r == 0,
        final(kernel).wf(),
        ({
            let cur = old(kernel).current()->Some_0 as int;
            &&& final(kernel).task(cur).inner.memory_set == memory_set
            &&& final(kernel).task(cur).inner.trap_cx.sepc == entry_point
            &&& final(kernel).task(cur).inner.trap_cx.x[2] == user_sp
            &&& forall|i: int| 0 <= i < 32 && i != 2 ==> final(kernel).task(cur).inner.trap_cx.x[i] == 0
            &&& final(kernel).task(cur).inner.trap_cx.sstatus == old(kernel).entries.sstatus & !SSTATUS_SPP
            &&& final(kernel).task(cur).inner.trap_cx.kernel_satp == old(kernel).entries.kernel_satp
            &&& final(kernel).task(cur).inner.trap_cx.kernel_sp == kernel_stack_top(cur)
            &&& final(kernel).task(cur).inner.trap_cx.trap_handler == old(kernel).entries.trap_handler
            &&& final(kernel).status_of(cur) == old(kernel).status_of(cur)
            &&& final(kernel).task(cur).inner.exit_code == old(kernel).task(cur).inner.exit_code
            &&& final(kernel).parent_of(cur) == old(kernel).parent_of(cur)
            &&& final(kernel).children_of(cur) == old(kernel).children_of(cur)
            &&& forall|p: int| #[trigger] old(kernel).live(p) && p != cur ==> final(kernel).task(p) == old(kernel).task(p)
        }),
        final(kernel).current() == old(kernel).current(),
        final(kernel).queue() == old(kernel).queue(),
{
    let cur = current_task(kernel).unwrap();
    let ghost k0 = *kernel;
    proof {
        assert(is_live(k0.tasks@, cur as int));
    }
    let entries = kernel.entries;
    let mem = &kernel.mem;
    let task = kernel.tasks[cur].as_mut().unwrap();
    task.exec(mem, memory_set, user_sp, entry_point, &entries);
    proof {
        let k = *kernel;
        assert forall|p: int| 0 <= p < k.tasks@.len() && p != cur implies #[trigger] k.tasks@[p] == k0.tasks@[p] by {}
        assert forall|p: int| 0 <= p < k0.tasks@.len() implies (#[trigger] k0.tasks@[p] is Some <==> k.tasks@[p] is Some) by {
            if p != cur {
                assert(k.tasks@[p] == k0.tasks@[p]);
            }
        }
        assert forall|p: int| #[trigger] is_live(k0.tasks@, p) && p != cur implies task_at(k.tasks@, p) == task_at(k0.tasks@, p) by {
            assert(k.tasks@[p] == k0.tasks@[p]);
        }
        assert forall|p: int| #[trigger] is_live(k.tasks@, p) implies {
            &&& task_at(k.tasks@, p).pid.0 == p
            &&& task_at(k.tasks@, p).kernel_stack.owner() == p
            &&& kernel_stack_fits(p)
            &&& maps_trap_context(&k.mem, &task_at(k.tasks@, p).inner.memory_set)
        } by {
            assert(is_live(k0.tasks@, p));
        }
        assert forall|p: int| 0 <= p < k.tasks@.len() implies (#[trigger] k.tasks@[p] is Some <==> k.pid_allocator@.in_use(p)) by {
            assert(k0.tasks@[p] is Some <==> k.tasks@[p] is Some);
        }
        assert forall|p: int| #[trigger] is_live(k.tasks@, p) implies {
            &&& parent_at(k.tasks@, p) == parent_at(k0.tasks@, p)
            &&& children_at(k.tasks@, p) == children_at(k0.tasks@, p)
            &&& status_at(k.tasks@, p) == status_at(k0.tasks@, p)
        } by {
            assert(is_live(k0.tasks@, p));
        }
        assert forall|p: int| #[trigger] is_live(k.tasks@, p) == is_live(k0.tasks@, p) by {
            if 0 <= p < k.tasks@.len() {
                assert(k0.tasks@[p] is Some <==> k.tasks@[p] is Some);
            }
        }
        assert forall|p: int, i: int| is_live(k.tasks@, p) && 0 <= i < children_at(k.tasks@, p).len() implies {
            &&& is_live(k.tasks@, #[trigger] children_at(k.tasks@, p)[i] as int)
            &&& parent_at(k.tasks@, children_at(k.tasks@, p)[i] as int) == Some(p as usize)
        } by {
            assert(is_live(k0.tasks@, p));
            assert(is_live(k0.tasks@, children_at(k0.tasks@, p)[i] as int));
        }
        assert forall|i: int| 0 <= i < k.queue().len() implies {
            &&& is_live(k.tasks@, #[trigger] k.queue()[i] as int)
            &&& status_at(k.tasks@, k.queue()[i] as int) == TaskStatus::Ready
        } by {
            assert(is_live(k0.tasks@, k0.queue()[i] as int));
        }
    }
    0
}

} // verus!
