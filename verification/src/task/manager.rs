use vstd::prelude::*;
use std::collections::VecDeque;
use crate::task::kernel::{Kernel, is_live, status_at};
use crate::task::tasks::TaskStatus;

verus! {

/// The queue of processes that are ready to run, first come, first served.
pub struct TaskManager {
    pub ready_queue: VecDeque<usize>,
}

impl TaskManager {
    /// An empty queue.
    pub fn new() -> (r: TaskManager)
        ensures
            r.ready_queue@ == Seq::<usize>::empty(),
    {
        TaskManager { ready_queue: VecDeque::new() }
    }

    /// Puts the process `pid` at the back of the queue.
    pub fn add(&mut self, pid: usize)
        ensures
            final(self).ready_queue@ == old(self).ready_queue@.push(pid),
    {
        self.ready_queue.push_back(pid);
    }

    /// Takes the process at the front of the queue, if any.
    pub fn fetch(&mut self) -> (r: Option<usize>)
        ensures
            old(self).ready_queue@.len() == 0 ==> r is None && final(self).ready_queue@ == old(self).ready_queue@,
            old(self).ready_queue@.len() > 0 ==> r == Some(old(self).ready_queue@[0])
                && final(self).ready_queue@ == old(self).ready_queue@.drop_first(),
    {
        self.ready_queue.pop_front()
    }
}

/// Puts the ready process `pid` at the back of the ready queue.
pub fn add_task(kernel: &mut Kernel, pid: usize)
    requires
        old(kernel).wf(),
        old(kernel).live(pid as int),
        old(kernel).status_of(pid as int) == TaskStatus::Ready,
        !old(kernel).queue().contains(pid),
        old(kernel).current() != Some(pid),
    ensures
        final(kernel).wf(),
        final(kernel).queue() == old(kernel).queue().push(pid),
        final(kernel).tasks == old(kernel).tasks,
        final(kernel).pid_allocator == old(kernel).pid_allocator,
        final(kernel).processor == old(kernel).processor,
        final(kernel).mem == old(kernel).mem,
        final(kernel).entries == old(kernel).entries,
{
    kernel.manager.add(pid);
    proof {
        let k = *kernel;
        assert forall|i: int| 0 <= i < k.queue().len() implies {
            &&& is_live(k.tasks@, #[trigger] k.queue()[i] as int)
            &&& status_at(k.tasks@, k.queue()[i] as int) == TaskStatus::Ready
        } by {
            if i < old(kernel).queue().len() {
                assert(k.queue()[i] == old(kernel).queue()[i]);
            }
        }
        assert(k.queue().no_duplicates()) by {
            assert forall|i: int, j: int| 0 <= i < k.queue().len() && 0 <= j < k.queue().len() && i != j
                implies k.queue()[i] != k.queue()[j] by {
                if i == old(kernel).queue().len() {
                    assert(old(kernel).queue().contains(k.queue()[j]));
                } else if j == old(kernel).queue().len() {
                    assert(old(kernel).queue().contains(k.queue()[i]));
                }
            }
        }
        if let Some(c) = k.current() {
            assert(!k.queue().contains(c)) by {
                if k.queue().contains(c) {
                    let i = choose|i: int| 0 <= i < k.queue().len() && k.queue()[i] == c;
                    if i < old(kernel).queue().len() {
                        assert(old(kernel).queue().contains(c));
                    }
                }
            }
        }
    }
}

/// Takes the process at the front of the ready queue, if any.
pub fn fetch_task(kernel: &mut Kernel) -> (r: Option<usize>)
    requires
        old(kernel).wf(),
    ensures
        final(kernel).wf(),
        old(kernel).queue().len() == 0 ==> r is None && final(kernel).queue() == old(kernel).queue(),
        old(kernel).queue().len() > 0 ==> r == Some(old(kernel).queue()[0])
            && final(kernel).queue() == old(kernel).queue().drop_first(),
        final(kernel).tasks == old(kernel).tasks,
        final(kernel).pid_allocator == old(kernel).pid_allocator,
        final(kernel).processor == old(kernel).processor,
        final(kernel).mem == old(kernel).mem,
        final(kernel).entries == old(kernel).entries,
{
    let r = kernel.manager.fetch();
    proof {
        let k = *kernel;
        if old(kernel).queue().len() > 0 {
            assert forall|i: int| 0 <= i < k.queue().len() implies {
                &&& is_live(k.tasks@, #[trigger] k.queue()[i] as int)
                &&& status_at(k.tasks@, k.queue()[i] as int) == TaskStatus::Ready
            } by {
                assert(k.queue()[i] == old(kernel).queue()[i + 1]);
            }
            assert(k.queue().no_duplicates()) by {
                assert forall|i: int, j: int| 0 <= i < k.queue().len() && 0 <= j < k.queue().len() && i != j
                    implies k.queue()[i] != k.queue()[j] by {
                    assert(k.queue()[i] == old(kernel).queue()[i + 1]);
                    assert(k.queue()[j] == old(kernel).queue()[j + 1]);
                }
            }
            if let Some(c) = k.current() {
                assert(!k.queue().contains(c)) by {
                    if k.queue().contains(c) {
                        let i = choose|i: int| 0 <= i < k.queue().len() && k.queue()[i] == c;
                        assert(old(kernel).queue()[i + 1] == c);
                    }
                }
            }
        }
    }
    r
}

} // verus!
