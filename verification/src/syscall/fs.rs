use vstd::prelude::*;
use crate::mm::memory_set::lemma_satp_names_root;
use crate::mm::page_table::{PhysMem, lemma_same_tables, tree_va_location};
use crate::mm::user_buffer::{
    ByteSegment, translated_byte_buffer, translated_byte_buffer_mut, user_buffer_ok, user_walk, lemma_walk_pieces, lemma_buffer_va, buffer_va,
    user_byte, lemma_walk_translates, lemma_walk_reads, segment_locations, va_byte_location,
};
use crate::task::kernel::{Kernel, is_live, lemma_slots_same_tables, with_status};
use crate::task::lifecycle::suspend_current_and_run_next;
use crate::task::processor::current_user_token;
use crate::task::tasks::TaskStatus;

verus! {

/// The file descriptor of standard output.
pub const FD_STDOUT: usize = 1;
/// The file descriptor of standard input.
pub const FD_STDIN: usize = 0;

/// The bytes a piece of a user buffer holds.
pub open spec fn segment_bytes(mem: &PhysMem, seg: ByteSegment) -> Seq<u8> {
    Seq::new((seg.end - seg.start) as nat, |k: int| mem.byte(seg.ppn.0 as int, seg.start + k))
}

/// The byte strings `parts`, one after the other.
pub open spec fn joined(parts: Seq<Seq<u8>>) -> Seq<u8>
    decreases parts.len(),
{
    if parts.len() == 0 {
        Seq::empty()
    } else {
        parts[0] + joined(parts.drop_first())
    }
}

proof fn lemma_joined_segments(mem: &PhysMem, segs: Seq<ByteSegment>, parts: Seq<Seq<u8>>)
    requires
        parts.len() == segs.len(),
        forall|i: int| 0 <= i < segs.len() ==> #[trigger] parts[i] == segment_bytes(mem, segs[i]),
        forall|i: int| 0 <= i < segs.len() ==> (#[trigger] segs[i]).start <= segs[i].end,
    ensures
        joined(parts) == Seq::new(
            segment_locations(segs).len(),
            |k: int| mem.byte(segment_locations(segs)[k].0, segment_locations(segs)[k].1),
        ),
    decreases segs.len(),
{
    let locs = segment_locations(segs);
    if segs.len() > 0 {
        let rest = segs.drop_first();
        let prest = parts.drop_first();
        assert forall|i: int| 0 <= i < rest.len() implies #[trigger] prest[i] == segment_bytes(mem, rest[i]) by {
            assert(prest[i] == parts[i + 1]);
            assert(rest[i] == segs[i + 1]);
        }
        assert forall|i: int| 0 <= i < rest.len() implies (#[trigger] rest[i]).start <= rest[i].end by {
            assert(rest[i] == segs[i + 1]);
        }
        lemma_joined_segments(mem, rest, prest);
        let s0 = segs[0];
        let n0 = s0.end - s0.start;
        assert(parts[0] == segment_bytes(mem, s0));
        assert(joined(parts) =~= Seq::new(locs.len(), |k: int| mem.byte(locs[k].0, locs[k].1))) by {
            assert forall|k: int| 0 <= k < locs.len() implies
                #[trigger] joined(parts)[k] == mem.byte(locs[k].0, locs[k].1) by {
                if k >= n0 {
                    assert(locs[k] == segment_locations(rest)[k - n0]);
                }
            }
        }
    } else {
        assert(joined(parts) =~= Seq::new(locs.len(), |k: int| mem.byte(locs[k].0, locs[k].1)));
    }
}

/// Copies the bytes of a piece of a user buffer out of memory.
fn read_segment(mem: &PhysMem, seg: ByteSegment) -> (r: Vec<u8>)
    requires
        mem.wf(),
        seg.ppn.0 < mem.frames(),
        seg.start <= seg.end <= 4096,
    ensures
        r@ == segment_bytes(mem, seg),
{
    let mut v: Vec<u8> = Vec::new();
    let mut k = seg.start;
    while k < seg.end
        invariant
            mem.wf(),
            seg.ppn.0 < mem.frames(),
            seg.start <= k <= seg.end <= 4096,
            v@ =~= Seq::new((k - seg.start) as nat, |j: int| mem.byte(seg.ppn.0 as int, seg.start + j)),
        decreases seg.end - k,
    {
        v.push(mem.read_byte(seg.ppn, k));
        k = k + 1;
    }
    v
}

/// Writes the user buffer `buf..buf + len` of the current process to
/// standard output: the result holds the bytes to print, page by page, and
/// `len`; or -1 and nothing to print when a page of it may not be read.
pub fn sys_write(kernel: &Kernel, fd: usize, buf: usize, len: usize) -> (r: (isize, Vec<Vec<u8>>))
    requires
        kernel.wf(),
        kernel.current() is Some,
        fd == FD_STDOUT,
        user_buffer_ok(
            &kernel.mem,
            kernel.task(kernel.current()->Some_0 as int).inner.memory_set.root(),
            buf as u64,
            len as u64,
            false,
        ),
    ensures
        ({
            let root = kernel.task(kernel.current()->Some_0 as int).inner.memory_set.root();
            match user_walk(&kernel.mem, root, buf as u64, len as u64, false).1 {
                Some(segs) => {
                    &&& r.0 == len as isize
                    &&& r.1@.len() == segs.len()
                    &&& forall|i: int| 0 <= i < segs.len() ==> (#[trigger] r.1@[i])@ == segment_bytes(&kernel.mem, segs[i])
                    &&& joined(r.1@.map_values(|b: Vec<u8>| b@)).len() == len
                    &&& forall|k: int| 0 <= k < len ==> #[trigger] user_byte(&kernel.mem, root, buf + k)
                        == Some(joined(r.1@.map_values(|b: Vec<u8>| b@))[k])
                },
                None => r.0 == -1 && r.1@.len() == 0,
            }
        }),
{
    let token = current_user_token(kernel);
    proof {
        let cur = kernel.current()->Some_0 as int;
        assert(is_live(kernel.tasks@, cur));
        lemma_satp_names_root(&kernel.task(cur).inner.memory_set, &kernel.mem);
        crate::mm::page_table::lemma_walkable_mem(&kernel.mem, kernel.task(cur).inner.memory_set.root());
    }
    if let Some(buffers) = translated_byte_buffer(&kernel.mem, token, buf as u64, len as u64) {
        let mut out: Vec<Vec<u8>> = Vec::new();
        let mut i: usize = 0;
        while i < buffers.len()
            invariant
                kernel.mem.wf(),
                crate::mm::user_buffer::segments_in_memory(&kernel.mem, buffers@),
                0 <= i <= buffers@.len(),
                out@.len() == i,
                forall|j: int| 0 <= j < i ==> (#[trigger] out@[j])@ == segment_bytes(&kernel.mem, buffers@[j]),
            decreases buffers@.len() - i,
        {
            let seg = buffers[i];
            proof {
                assert(buffers@[i as int].ppn.0 < kernel.mem.frames());
            }
            out.push(read_segment(&kernel.mem, seg));
            i = i + 1;
        }
        proof {
            let root = kernel.task(kernel.current()->Some_0 as int).inner.memory_set.root();
            let segs = buffers@;
            let parts = out@.map_values(|b: Vec<u8>| b@);
            lemma_walk_reads(&kernel.mem, root, buf as u64, len as u64, false);
            lemma_walk_pieces(&kernel.mem, root, buffer_va(buf as u64), buffer_va(buf as u64) + len, false);
            lemma_joined_segments(&kernel.mem, segs, parts);
        }
        (len as isize, out)
    } else {
        (-1, Vec::new())
    }
}

/// Where a read from standard input stands.
#[derive(Clone, Copy, PartialEq, Eq, Structural, Debug)]
pub enum ReadStep {
    /// The call is over, with this result.
    Done(isize),
    /// A character is needed: read one from the console and call again.
    NeedInput,
    /// No character was there: the process gave up the processor; when it
    /// runs again, read a character and call again.
    Suspended,
}

/// Reads one character from standard input into the user buffer `buf` of
/// the current process. Only standard input and a length of 1 are served
/// (-1 otherwise). `input` is the character the console gave, 0 when it had
/// none. The result is 0, or -1 when the buffer may not be written.
pub fn sys_read(kernel: &mut Kernel, fd: usize, buf: usize, len: usize, input: Option<usize>) -> (r: ReadStep)
    requires
        old(kernel).wf(),
        old(kernel).current() is Some,
        fd == FD_STDIN && len == 1 && (input matches Some(c) && c != 0) ==> user_buffer_ok(
            &old(kernel).mem,
            old(kernel).task(old(kernel).current()->Some_0 as int).inner.memory_set.root(),
            buf as u64,
            1,
            true,
        ),
    ensures
        final(kernel).wf(),
        final(kernel).pid_allocator == old(kernel).pid_allocator,
        final(kernel).entries == old(kernel).entries,
        fd != FD_STDIN ==> r == ReadStep::Done(-1isize) && *final(kernel) == *old(kernel),
        fd == FD_STDIN && len != 1 ==> r == ReadStep::Done(-1isize) && *final(kernel) == *old(kernel),
        fd == FD_STDIN && len == 1 && input is None ==> r == ReadStep::NeedInput && *final(kernel) == *old(kernel),
        fd == FD_STDIN && len == 1 && input == Some(0usize) ==> {
            &&& r == ReadStep::Suspended
            &&& final(kernel).current() is None
            &&& final(kernel).queue() == old(kernel).queue().push(old(kernel).current()->Some_0)
            &&& final(kernel).status_of(old(kernel).current()->Some_0 as int) == TaskStatus::Ready
            &&& final(kernel).tasks@ == old(kernel).tasks@.update(
                old(kernel).current()->Some_0 as int,
                Some(with_status(old(kernel).task(old(kernel).current()->Some_0 as int), TaskStatus::Ready)),
            )
            &&& final(kernel).mem == old(kernel).mem
        },
        fd == FD_STDIN && len == 1 && (input matches Some(c) && c != 0) ==> {
            let root = old(kernel).task(old(kernel).current()->Some_0 as int).inner.memory_set.root();
            &&& final(kernel).tasks == old(kernel).tasks
            &&& final(kernel).processor == old(kernel).processor
            &&& final(kernel).manager == old(kernel).manager
            &&& match user_walk(&old(kernel).mem, root, buf as u64, 1, true).1 {
                Some(segs) => {
                    &&& r == ReadStep::Done(0isize)
                    &&& segs.len() == 1
                    &&& final(kernel).mem.frames() == old(kernel).mem.frames()
                    &&& old(kernel).mem.same_ptes(&final(kernel).mem)
                    &&& forall|p: int, o: int| 0 <= p < old(kernel).mem.frames() && 0 <= o < 4096 ==>
                        #[trigger] final(kernel).mem.byte(p, o) == if p == segs[0].ppn.0 && o == segs[0].start {
                            input->Some_0 as u8
                        } else {
                            old(kernel).mem.byte(p, o)
                        }
                    &&& user_byte(&final(kernel).mem, root, buf as int) == Some(input->Some_0 as u8)
                },
                None => r == ReadStep::Done(-1isize) && final(kernel).mem == old(kernel).mem,
            }
        },
{
    if fd != FD_STDIN {
        return ReadStep::Done(-1);
    }
    if len != 1 {
        return ReadStep::Done(-1);
    }
    let c = match input {
        None => {
            return ReadStep::NeedInput;
        },
        Some(c) => c,
    };
    if c == 0 {
        suspend_current_and_run_next(kernel);
        return ReadStep::Suspended;
    }
    let ch = c as u8;
    let token = current_user_token(kernel);
    let ghost k0 = *kernel;
    let ghost root = k0.task(k0.current()->Some_0 as int).inner.memory_set.root();
    proof {
        let cur = k0.current()->Some_0 as int;
        assert(is_live(k0.tasks@, cur));
        lemma_satp_names_root(&k0.task(cur).inner.memory_set, &k0.mem);
        crate::mm::page_table::lemma_walkable_mem(&k0.mem, root);
        lemma_buffer_va(buf as u64, 1);
        lemma_walk_pieces(&k0.mem, root, buffer_va(buf as u64), buffer_va(buf as u64) + 1, true);
    }
    if let Some(buffer_vec) = translated_byte_buffer_mut(&kernel.mem, token, buf as u64, 1) {
        let seg = buffer_vec[0];
        proof {
            assert(buffer_vec@[0].ppn.0 < k0.mem.frames());
            assert(buffer_vec@.len() == 1);
        }
        kernel.mem.write_byte(seg.ppn, seg.start, ch);
        proof {
            lemma_slots_same_tables(k0.pid_allocator@, k0.tasks@, k0.mem, kernel.mem);
            let va = buffer_va(buf as u64);
            lemma_walk_translates(&k0.mem, root, va, va + 1, true);
            assert(segment_locations(buffer_vec@)[0] == (seg.ppn.0 as int, seg.start as int));
            assert(va_byte_location(&k0.mem, root, va) == Some(segment_locations(buffer_vec@)[va - va]));
            lemma_same_tables(&k0.mem, &kernel.mem, root);
            assert(tree_va_location(&kernel.mem, root, va as u64) == tree_va_location(&k0.mem, root, va as u64));
        }
        ReadStep::Done(0)
    } else {
        ReadStep::Done(-1)
    }
}

} // verus!
