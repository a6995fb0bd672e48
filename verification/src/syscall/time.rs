use vstd::prelude::*;
use crate::mm::memory_set::lemma_satp_names_root;
use crate::mm::user_buffer::{
    translate_memcopy, user_buffer_ok, user_walk, segment_locations, byte_after_writes, user_byte,
    lemma_memcopy_reads_back,
};
use crate::task::kernel::{Kernel, is_live, lemma_slots_same_tables};
use crate::task::processor::current_user_token;
use crate::timer::MICRO_PER_SEC;

verus! {

/// The little-endian bytes of a 32-bit integer, as the kernel stores an
/// `i32` in user memory.
pub open spec fn i32_bytes(x: i32) -> Seq<u8> {
    let u = x as u32;
    seq![u as u8, (u >> 8u32) as u8, (u >> 16u32) as u8, (u >> 24u32) as u8]
}

/// The little-endian bytes of a 64-bit integer.
pub open spec fn u64_bytes(x: u64) -> Seq<u8> {
    seq![
        x as u8, (x >> 8u64) as u8, (x >> 16u64) as u8, (x >> 24u64) as u8,
        (x >> 32u64) as u8, (x >> 40u64) as u8, (x >> 48u64) as u8, (x >> 56u64) as u8,
    ]
}

/// The bytes of `x` as it lies in memory.
pub fn i32_to_bytes(x: i32) -> (r: Vec<u8>)
    ensures
        r@ == i32_bytes(x),
{
    let u = x as u32;
    let mut v: Vec<u8> = Vec::new();
    v.push(u as u8);
    v.push((u >> 8u32) as u8);
    v.push((u >> 16u32) as u8);
    v.push((u >> 24u32) as u8);
    proof {
        assert(v@ =~= i32_bytes(x));
    }
    v
}

/// Appends the bytes of `x` as it lies in memory.
pub fn push_u64_bytes(v: &mut Vec<u8>, x: u64)
    ensures
        final(v)@ == old(v)@ + u64_bytes(x),
{
    v.push(x as u8);
    v.push((x >> 8u64) as u8);
    v.push((x >> 16u64) as u8);
    v.push((x >> 24u64) as u8);
    v.push((x >> 32u64) as u8);
    v.push((x >> 40u64) as u8);
    v.push((x >> 48u64) as u8);
    v.push((x >> 56u64) as u8);
    proof {
        assert(v@ =~= old(v)@ + u64_bytes(x));
    }
}

/// A time: whole seconds and microseconds.
#[derive(Clone, Copy, PartialEq, Eq, Structural, Debug)]
pub struct TimeVal {
    pub sec: usize,
    pub usec: usize,
}

/// The bytes of a `TimeVal` as it lies in memory: `sec`, then `usec`.
pub open spec fn timeval_bytes(t: TimeVal) -> Seq<u8> {
    u64_bytes(t.sec as u64) + u64_bytes(t.usec as u64)
}

/// Writes the time `usec` microseconds since boot to the `TimeVal` at `ts`
/// in the current address space: `sec` holds the whole seconds and `usec`
/// the microseconds since boot. 0, or -1 when that memory may not be written.
pub fn syscall_get_time(kernel: &mut Kernel, ts: usize, _tz: usize, usec: usize) -> (r: isize)
    requires
        old(kernel).wf(),
        old(kernel).current() is Some,
        user_buffer_ok(
            &old(kernel).mem,
            old(kernel).task(old(kernel).current()->Some_0 as int).inner.memory_set.root(),
            ts as u64,
            16,
            true,
        ),
    ensures
        final(kernel).wf(),
        final(kernel).tasks == old(kernel).tasks,
        final(kernel).processor == old(kernel).processor,
        final(kernel).manager == old(kernel).manager,
        final(kernel).pid_allocator == old(kernel).pid_allocator,
        final(kernel).entries == old(kernel).entries,
        final(kernel).mem.frames() == old(kernel).mem.frames(),
        old(kernel).mem.same_ptes(&final(kernel).mem),
        ({
            let root = old(kernel).task(old(kernel).current()->Some_0 as int).inner.memory_set.root();
            let tv = TimeVal { sec: usec / MICRO_PER_SEC, usec };
            match user_walk(&old(kernel).mem, root, ts as u64, 16, true).1 {
                Some(segs) => {
                    &&& r == 0
                    &&& forall|p: int, o: int| 0 <= p < old(kernel).mem.frames() && 0 <= o < 4096 ==>
                        #[trigger] final(kernel).mem.byte(p, o)
                            == byte_after_writes(segment_locations(segs), timeval_bytes(tv), p, o, old(kernel).mem.byte(p, o))
                    &&& forall|k: int| 0 <= k < 16 ==>
                        #[trigger] user_byte(&final(kernel).mem, root, ts + k) == Some(timeval_bytes(tv)[k])
                },
                None => r == -1 && final(kernel).mem == old(kernel).mem,
            }
        }),
{
    let time_val = TimeVal { sec: usec / MICRO_PER_SEC, usec };
    let mut bytes: Vec<u8> = Vec::new();
    push_u64_bytes(&mut bytes, time_val.sec as u64);
    push_u64_bytes(&mut bytes, time_val.usec as u64);
    let token = current_user_token(kernel);
    let ghost k0 = *kernel;
    proof {
        let cur = k0.current()->Some_0 as int;
        assert(is_live(k0.tasks@, cur));
        lemma_satp_names_root(&k0.task(cur).inner.memory_set, &k0.mem);
        assert(bytes@ =~= timeval_bytes(time_val));
    }
    let res = translate_memcopy(&mut kernel.mem, token, ts as u64, &bytes);
    proof {
        lemma_slots_same_tables(k0.pid_allocator@, k0.tasks@, k0.mem, kernel.mem);
        let root = k0.task(k0.current()->Some_0 as int).inner.memory_set.root();
        if res.is_ok() {
            assert forall|k: int| 0 <= k < 16 implies
                #[trigger] user_byte(&kernel.mem, root, ts + k) == Some(timeval_bytes(time_val)[k]) by {
                lemma_memcopy_reads_back(&k0.mem, &kernel.mem, root, ts as u64, bytes@, k);
            }
        }
    }
    if res.is_err() {
        -1
    } else {
        0
    }
}

/// The number that the bytes `b` stand for, least significant byte first.
pub open spec fn le_value(b: Seq<u8>) -> nat
    decreases b.len(),
{
    if b.len() == 0 {
        0
    } else {
        b[0] as nat + 256 * le_value(b.drop_first())
    }
}

proof fn lemma_le_value_4(b: Seq<u8>)
    requires
        b.len() == 4,
    ensures
        le_value(b) == b[0] + 256 * b[1] + 65536 * b[2] + 16777216 * b[3],
{
    let b1 = b.drop_first();
    let b2 = b1.drop_first();
    let b3 = b2.drop_first();
    let b4 = b3.drop_first();
    assert(le_value(b4) == 0);
    assert(le_value(b3) == b[3] + 256 * le_value(b4));
    assert(le_value(b2) == b[2] + 256 * le_value(b3));
    assert(le_value(b1) == b[1] + 256 * le_value(b2));
}

proof fn lemma_le_value_8(b: Seq<u8>)
    requires
        b.len() == 8,
    ensures
        le_value(b) == le_value(b.take(4)) + 4294967296 * le_value(b.skip(4)),
{
    let t = b.take(4);
    let u = b.skip(4);
    lemma_le_value_4(t);
    lemma_le_value_4(u);
    let b1 = b.drop_first();
    let b2 = b1.drop_first();
    let b3 = b2.drop_first();
    let b4 = b3.drop_first();
    assert(b4 =~= u);
    assert(le_value(b3) == b[3] + 256 * le_value(b4));
    assert(le_value(b2) == b[2] + 256 * le_value(b3));
    assert(le_value(b1) == b[1] + 256 * le_value(b2));
    assert(le_value(b) == b[0] + 256 * le_value(b1));
}

/// The bytes of a 64-bit integer as it lies in memory are its little-endian
/// encoding: read back least significant byte first, they give `x` again.
pub proof fn lemma_u64_bytes_value(x: u64)
    ensures
        u64_bytes(x).len() == 8,
        le_value(u64_bytes(x)) == x,
{
    let b = u64_bytes(x);
    lemma_le_value_8(b);
    lemma_le_value_4(b.take(4));
    lemma_le_value_4(b.skip(4));
    let b0 = x as u8;
    let b1 = (x >> 8u64) as u8;
    let b2 = (x >> 16u64) as u8;
    let b3 = (x >> 24u64) as u8;
    let b4 = (x >> 32u64) as u8;
    let b5 = (x >> 40u64) as u8;
    let b6 = (x >> 48u64) as u8;
    let b7 = (x >> 56u64) as u8;
    assert(b.take(4)[0] == b0 && b.take(4)[1] == b1 && b.take(4)[2] == b2 && b.take(4)[3] == b3);
    assert(b.skip(4)[0] == b4 && b.skip(4)[1] == b5 && b.skip(4)[2] == b6 && b.skip(4)[3] == b7);
    assert(x == b0 + 256 * b1 + 65536 * b2 + 16777216 * b3
        + 4294967296 * (b4 + 256 * b5 + 65536 * b6 + 16777216 * b7)) by (bit_vector)
        requires
            b0 == x as u8, b1 == (x >> 8u64) as u8, b2 == (x >> 16u64) as u8, b3 == (x >> 24u64) as u8,
            b4 == (x >> 32u64) as u8, b5 == (x >> 40u64) as u8, b6 == (x >> 48u64) as u8, b7 == (x >> 56u64) as u8,
    ;
}

/// The bytes of a 32-bit integer as it lies in memory are its little-endian
/// encoding: read back least significant byte first, they give `x` again, as
/// a 32-bit pattern.
pub proof fn lemma_i32_bytes_value(x: i32)
    ensures
        i32_bytes(x).len() == 4,
        le_value(i32_bytes(x)) == x as u32,
{
    let b = i32_bytes(x);
    lemma_le_value_4(b);
    let u = x as u32;
    let b0 = u as u8;
    let b1 = (u >> 8u32) as u8;
    let b2 = (u >> 16u32) as u8;
    let b3 = (u >> 24u32) as u8;
    assert(u == b0 + 256 * b1 + 65536 * b2 + 16777216 * b3) by (bit_vector)
        requires
            b0 == u as u8, b1 == (u >> 8u32) as u8, b2 == (u >> 16u32) as u8, b3 == (u >> 24u32) as u8,
    ;
}

/// What `syscall_get_time` writes reads back as the time: the first eight
/// bytes are the whole seconds, the next eight the microseconds.
pub proof fn lemma_timeval_bytes_value(t: TimeVal)
    ensures
        timeval_bytes(t).len() == 16,
        le_value(timeval_bytes(t).take(8)) == t.sec as u64,
        le_value(timeval_bytes(t).skip(8)) == t.usec as u64,
{
    lemma_u64_bytes_value(t.sec as u64);
    lemma_u64_bytes_value(t.usec as u64);
    assert(timeval_bytes(t).take(8) =~= u64_bytes(t.sec as u64));
    assert(timeval_bytes(t).skip(8) =~= u64_bytes(t.usec as u64));
}

} // verus!
