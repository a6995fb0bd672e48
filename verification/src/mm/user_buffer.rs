use vstd::prelude::*;
use crate::mm::address::{PhysPageNum, VirtAddr, VA_HALF, VA_SPACE};
use crate::mm::page_table::{
    PhysMem, PageTable, tree_lookup, tree_walkable, tree_va_location, token_root, lemma_walkable_mem,
    lemma_same_tables,
};
use vstd::arithmetic::div_mod::{lemma_mod_multiples_vanish, lemma_small_mod};

verus! {

/// Bytes `start..end` of the physical page `ppn`: one piece of a user buffer.
#[derive(Clone, Copy, PartialEq, Eq, Structural, Debug)]
pub struct ByteSegment {
    pub ppn: PhysPageNum,
    pub start: usize,
    pub end: usize,
}

/// The first address of the page after the one holding `start`, or `end`
/// if that comes first.
pub open spec fn segment_end(start: int, end: int) -> int {
    let vpn = start / 4096;
    if (vpn + 1) * 4096 <= end { (vpn + 1) * 4096 } else { end }
}

/// Walks the user buffer `start..end` page by page in the table at `root`.
/// The first component says whether some page on the way has no leaf entry
/// at all; the second is `None` when a page may not be read (or, with
/// `write`, not written) and otherwise the pieces of physical memory that
/// make up the buffer, in order.
pub open spec fn buffer_walk(mem: &PhysMem, root: int, start: int, end: int, write: bool) -> (bool, Option<Seq<ByteSegment>>)
    decreases end - start,
{
    if start >= end {
        (false, Some(Seq::empty()))
    } else {
        let vpn = start / 4096;
        let next = segment_end(start, end);
        match tree_lookup(mem, root, vpn as u64) {
            None => (true, None),
            Some(e) => if !e.readable_flag() || (write && !e.writable_flag()) {
                (false, None)
            } else {
                let seg = ByteSegment {
                    ppn: PhysPageNum(e.ppn_of()),
                    start: (start - vpn * 4096) as usize,
                    end: (next - vpn * 4096) as usize,
                };
                let rest = buffer_walk(mem, root, next, end, write);
                (rest.0, match rest.1 {
                    Some(s) => Some(seq![seg] + s),
                    None => None,
                })
            },
        }
    }
}

/// The walk `w` with `prefix` put in front of the pieces it found.
pub open spec fn prefixed(prefix: Seq<ByteSegment>, w: (bool, Option<Seq<ByteSegment>>)) -> (bool, Option<Seq<ByteSegment>>) {
    (w.0, match w.1 {
        Some(s) => Some(prefix + s),
        None => None,
    })
}

/// The physical bytes, page and offset, that a list of pieces covers, in order.
pub open spec fn segment_locations(segs: Seq<ByteSegment>) -> Seq<(int, int)>
    decreases segs.len(),
{
    if segs.len() == 0 {
        Seq::empty()
    } else {
        let s = segs[0];
        Seq::new((s.end - s.start) as nat, |k: int| (s.ppn.0 as int, s.start + k))
            + segment_locations(segs.drop_first())
    }
}

/// Every piece is a well-formed range of a page of `mem`.
pub open spec fn segments_in_memory(mem: &PhysMem, segs: Seq<ByteSegment>) -> bool {
    forall|i: int| 0 <= i < segs.len() ==> {
        &&& (#[trigger] segs[i]).ppn.0 < mem.frames()
        &&& segs[i].start <= segs[i].end <= 4096
    }
}

/// The first machine word of the upper half of the address space: words from
/// here on are the sign-extended Sv39 addresses `VA_HALF..VA_SPACE`.
pub open spec fn upper_half_start() -> int {
    u64::MAX - VA_HALF + 1
}

/// The user buffer `ptr..ptr + len` does not wrap around and lies in one half
/// of the address space: below `VA_HALF`, or among the sign-extended words of
/// the upper half.
pub open spec fn canonical_buffer(ptr: u64, len: u64) -> bool {
    &&& ptr + len <= u64::MAX
    &&& (ptr + len <= VA_HALF || ptr >= upper_half_start())
}

/// The Sv39 address of the machine word `ptr`: its low 39 bits.
pub open spec fn buffer_va(ptr: u64) -> int {
    (ptr % VA_SPACE) as int
}

/// The walk of the user buffer `ptr..ptr + len`, over its Sv39 addresses.
pub open spec fn user_walk(mem: &PhysMem, root: int, ptr: u64, len: u64, write: bool) -> (bool, Option<Seq<ByteSegment>>) {
    buffer_walk(mem, root, buffer_va(ptr), buffer_va(ptr) + len, write)
}

/// The Sv39 address of user address `a`: its low 39 bits.
pub open spec fn user_va(a: int) -> int {
    a % (VA_SPACE as int)
}

/// Said address by address: every user address of `ptr..ptr + len` lies in a
/// page that may be read (with `write`, also written).
pub open spec fn buffer_accessible(mem: &PhysMem, root: int, ptr: u64, len: u64, write: bool) -> bool {
    forall|k: int| 0 <= k < len ==> #[trigger] page_allows(mem, root, user_va(ptr + k), write)
}

/// Said address by address: the pieces `segs` hold, in order, the physical
/// bytes that the user addresses `ptr..ptr + len` translate to.
pub open spec fn pieces_hold(mem: &PhysMem, root: int, ptr: u64, len: u64, segs: Seq<ByteSegment>) -> bool {
    &&& segment_locations(segs).len() == len
    &&& forall|k: int| 0 <= k < len ==>
        va_byte_location(mem, root, user_va(ptr + k)) == Some(#[trigger] segment_locations(segs)[k])
}

/// The walk of a canonical user buffer, said address by address: it succeeds
/// exactly when the buffer is accessible, and then its pieces hold the bytes
/// the buffer's addresses translate to.
pub proof fn lemma_user_walk_direct(mem: &PhysMem, root: int, ptr: u64, len: u64, write: bool)
    requires
        canonical_buffer(ptr, len),
    ensures
        (user_walk(mem, root, ptr, len, write).1 is Some) == buffer_accessible(mem, root, ptr, len, write),
        user_walk(mem, root, ptr, len, write).1 matches Some(segs) ==> pieces_hold(mem, root, ptr, len, segs),
{
    let va = buffer_va(ptr);
    lemma_buffer_va(ptr, len);
    lemma_walk_translates(mem, root, va, va + len, write);
    lemma_walk_shape(mem, root, va, va + len, write);
    assert forall|k: int| 0 <= k < len implies #[trigger] user_va(ptr + k) == va + k by {
        lemma_user_address(ptr, len, k);
    }
    assert(buffer_accessible(mem, root, ptr, len, write)
        == (forall|a: int| va <= a < va + len ==> #[trigger] page_allows(mem, root, a, write))) by {
        if buffer_accessible(mem, root, ptr, len, write) {
            assert forall|a: int| va <= a < va + len implies #[trigger] page_allows(mem, root, a, write) by {
                assert(user_va(ptr + (a - va)) == a);
                assert(page_allows(mem, root, user_va(ptr + (a - va)), write));
            }
        }
        if forall|a: int| va <= a < va + len ==> #[trigger] page_allows(mem, root, a, write) {
            assert forall|k: int| 0 <= k < len implies #[trigger] page_allows(mem, root, user_va(ptr + k), write) by {
                assert(page_allows(mem, root, va + k, write));
            }
        }
    }
    if let Some(segs) = user_walk(mem, root, ptr, len, write).1 {
        assert forall|k: int| 0 <= k < len implies
            va_byte_location(mem, root, user_va(ptr + k)) == Some(#[trigger] segment_locations(segs)[k]) by {
            assert(va_byte_location(mem, root, va + k) == Some(segment_locations(segs)[va + k - va]));
        }
    }
}

/// The user buffer `ptr..ptr + len` of the address space whose root is
/// `root` can be walked: it lies in one half of the address space, every
/// page on the way has a leaf entry, and the pages it reaches (if it may be
/// accessed) lie in `mem`.
pub open spec fn user_buffer_ok(mem: &PhysMem, root: int, ptr: u64, len: u64, write: bool) -> bool {
    &&& tree_walkable(mem, root)
    &&& canonical_buffer(ptr, len)
    &&& !user_walk(mem, root, ptr, len, write).0
    &&& user_walk(mem, root, ptr, len, write).1 matches Some(segs) ==> segments_in_memory(mem, segs)
}

/// The Sv39 addresses of a canonical buffer are `buffer_va(ptr)` onwards,
/// inside the address space; in the lower half they are the words themselves.
pub proof fn lemma_buffer_va(ptr: u64, len: u64)
    requires
        canonical_buffer(ptr, len),
    ensures
        0 <= buffer_va(ptr),
        buffer_va(ptr) + len < VA_SPACE,
        ptr + len <= VA_HALF ==> buffer_va(ptr) == ptr,
        ptr >= upper_half_start() ==> buffer_va(ptr) == ptr - (u64::MAX - VA_SPACE + 1),
{
    if ptr >= upper_half_start() {
        assert(ptr % VA_SPACE == ptr - (u64::MAX - VA_SPACE + 1)) by (bit_vector)
            requires ptr >= 0xffff_ffc0_0000_0000u64;
    }
}

/// The byte at page `p`, offset `o` after the bytes `src` were written, one
/// after the other, to the places `locs`; `old` is what was there before.
pub open spec fn byte_after_writes(locs: Seq<(int, int)>, src: Seq<u8>, p: int, o: int, old: u8) -> u8
    decreases locs.len(),
{
    if locs.len() == 0 || src.len() != locs.len() {
        old
    } else if locs.last() == (p, o) {
        src.last()
    } else {
        byte_after_writes(locs.drop_last(), src.drop_last(), p, o, old)
    }
}

/// What a copy writes can be read back: when the places written are
/// distinct, the `k`-th place holds the `k`-th byte afterwards.
pub proof fn lemma_copy_then_read(locs: Seq<(int, int)>, src: Seq<u8>, k: int, old: u8)
    requires
        locs.len() == src.len(),
        locs.no_duplicates(),
        0 <= k < locs.len(),
    ensures
        byte_after_writes(locs, src, locs[k].0, locs[k].1, old) == src[k],
    decreases locs.len(),
{
    if k < locs.len() - 1 {
        assert(locs.last() != locs[k]);
        assert(locs.drop_last()[k] == locs[k]);
        assert(locs.drop_last().no_duplicates()) by {
            assert forall|i: int, j: int| 0 <= i < locs.drop_last().len() && 0 <= j < locs.drop_last().len() && i != j
                implies locs.drop_last()[i] != locs.drop_last()[j] by {
                assert(locs.drop_last()[i] == locs[i]);
                assert(locs.drop_last()[j] == locs[j]);
            }
        }
        lemma_copy_then_read(locs.drop_last(), src.drop_last(), k, old);
    }
}

/// A copy leaves every place it does not write as it was.
pub proof fn lemma_copy_leaves_the_rest(locs: Seq<(int, int)>, src: Seq<u8>, p: int, o: int, old: u8)
    requires
        !locs.contains((p, o)),
    ensures
        byte_after_writes(locs, src, p, o, old) == old,
    decreases locs.len(),
{
    if locs.len() > 0 && src.len() == locs.len() {
        assert(locs.last() == locs[locs.len() - 1]);
        assert(!locs.drop_last().contains((p, o))) by {
            if locs.drop_last().contains((p, o)) {
                let j = choose|j: int| 0 <= j < locs.drop_last().len() && locs.drop_last()[j] == (p, o);
                assert(locs[j] == (p, o));
            }
        }
        lemma_copy_leaves_the_rest(locs.drop_last(), src.drop_last(), p, o, old);
    }
}

/// The byte of user address `a` (read through its low 39 bits), if its page may be read.
pub open spec fn user_byte(mem: &PhysMem, root: int, a: int) -> Option<u8> {
    match tree_va_location(mem, root, (a % VA_SPACE as int) as u64) {
        Some((p, o)) => Some(mem.byte(p as int, o as int)),
        None => None,
    }
}

/// The address `a` may be read and its page lies in `mem`.
pub open spec fn user_byte_in_memory(mem: &PhysMem, root: int, a: int) -> bool {
    match tree_va_location(mem, root, (a % VA_SPACE as int) as u64) {
        Some((p, o)) => p < mem.frames(),
        None => true,
    }
}

/// A readable byte other than zero.
pub open spec fn is_nonzero_byte(b: Option<u8>) -> bool {
    match b {
        Some(x) => x != 0,
        None => false,
    }
}

/// A string starting at `ptr` ends after `n` bytes: the `n` bytes are
/// readable and not zero, and the byte after them is zero or unreadable.
pub open spec fn string_ends_at(mem: &PhysMem, root: int, ptr: u64, n: int) -> bool {
    &&& 0 <= n
    &&& ptr + n <= u64::MAX
    &&& forall|k: int| 0 <= k <= n ==> #[trigger] user_byte_in_memory(mem, root, ptr + k)
    &&& forall|k: int| 0 <= k < n ==> is_nonzero_byte(#[trigger] user_byte(mem, root, ptr + k))
    &&& !is_nonzero_byte(user_byte(mem, root, ptr + n))
}

proof fn lemma_walk_step(mem: &PhysMem, root: int, start: int, end: int, write: bool, prefix: Seq<ByteSegment>, seg: ByteSegment)
    requires
        start < end,
        tree_lookup(mem, root, (start / 4096) as u64) matches Some(e)
            && e.readable_flag() && !(write && !e.writable_flag())
            && seg == (ByteSegment {
                ppn: PhysPageNum(e.ppn_of()),
                start: (start - (start / 4096) * 4096) as usize,
                end: (segment_end(start, end) - (start / 4096) * 4096) as usize,
            }),
    ensures
        prefixed(prefix, buffer_walk(mem, root, start, end, write))
            == prefixed(prefix.push(seg), buffer_walk(mem, root, segment_end(start, end), end, write)),
{
    let rest = buffer_walk(mem, root, segment_end(start, end), end, write);
    if let Some(s) = rest.1 {
        assert(prefix + (seq![seg] + s) =~= prefix.push(seg) + s);
    }
}

/// Total length of the pieces a successful walk finds.
pub open spec fn segments_len(segs: Seq<ByteSegment>) -> int
    decreases segs.len(),
{
    if segs.len() == 0 {
        0
    } else {
        (segs[0].end - segs[0].start) + segments_len(segs.drop_first())
    }
}

proof fn lemma_walk_shape(mem: &PhysMem, root: int, start: int, end: int, write: bool)
    requires
        0 <= start <= end,
    ensures
        buffer_walk(mem, root, start, end, write).1 matches Some(segs) ==> {
            &&& segments_len(segs) == end - start
            &&& segment_locations(segs).len() == end - start
            &&& forall|i: int| 0 <= i < segs.len() ==> (#[trigger] segs[i]).start <= segs[i].end <= 4096
        },
    decreases end - start,
{
    if start < end {
        let next = segment_end(start, end);
        lemma_walk_shape(mem, root, next, end, write);
        let w = buffer_walk(mem, root, start, end, write);
        if let Some(segs) = w.1 {
            let rest = buffer_walk(mem, root, next, end, write).1->Some_0;
            assert(segs.drop_first() =~= rest);
            assert forall|i: int| 0 <= i < segs.len() implies (#[trigger] segs[i]).start <= segs[i].end <= 4096 by {
                if i > 0 {
                    assert(segs[i] == rest[i - 1]);
                }
            }
        }
    }
}

/// A successful walk of `start..end` finds pieces of total length
/// `end - start`, each a range inside one page; a walk of one byte finds
/// exactly one piece, of one byte.
pub proof fn lemma_walk_pieces(mem: &PhysMem, root: int, start: int, end: int, write: bool)
    requires
        0 <= start <= end,
    ensures
        buffer_walk(mem, root, start, end, write).1 matches Some(segs) ==> {
            &&& segments_len(segs) == end - start
            &&& forall|i: int| 0 <= i < segs.len() ==> (#[trigger] segs[i]).start <= segs[i].end <= 4096
            &&& (end == start + 1 ==> segs.len() == 1 && segs[0].start < segs[0].end)
        },
{
    lemma_walk_shape(mem, root, start, end, write);
    if end == start + 1 {
        let next = segment_end(start, end);
        assert(next == end);
        let w = buffer_walk(mem, root, start, end, write);
        if let Some(segs) = w.1 {
            assert(buffer_walk(mem, root, next, end, write).1 == Some(Seq::<ByteSegment>::empty()));
            assert(segs =~= seq![segs[0]]);
        }
    }
}

/// The page that holds address `a` may be read (with `write`, also written).
pub open spec fn page_allows(mem: &PhysMem, root: int, a: int, write: bool) -> bool {
    &&& tree_lookup(mem, root, (a / 4096) as u64) matches Some(e)
    &&& e.readable_flag()
    &&& (write ==> e.writable_flag())
}

/// The physical byte, page and offset, that address `a` translates to, if
/// its page may be read.
pub open spec fn va_byte_location(mem: &PhysMem, root: int, a: int) -> Option<(int, int)> {
    match tree_va_location(mem, root, a as u64) {
        Some((p, o)) => Some((p as int, o as int)),
        None => None,
    }
}

/// What a walk finds, said address by address: it succeeds exactly when every
/// address of `start..end` lies in a page that may be accessed, and then the
/// `k`-th byte it covers is where address `start + k` translates to.
pub proof fn lemma_walk_translates(mem: &PhysMem, root: int, start: int, end: int, write: bool)
    requires
        0 <= start <= end <= VA_SPACE,
    ensures
        (buffer_walk(mem, root, start, end, write).1 is Some)
            == (forall|a: int| start <= a < end ==> #[trigger] page_allows(mem, root, a, write)),
        buffer_walk(mem, root, start, end, write).1 matches Some(segs) ==> (forall|a: int| start <= a < end ==>
            va_byte_location(mem, root, a) == Some(#[trigger] segment_locations(segs)[a - start])),
    decreases end - start,
{
    if start < end {
        let vpn = start / 4096;
        let next = segment_end(start, end);
        lemma_walk_translates(mem, root, next, end, write);
        assert forall|a: int| start <= a < next implies #[trigger] (a / 4096) == vpn by {}
        let w = buffer_walk(mem, root, start, end, write);
        let rest = buffer_walk(mem, root, next, end, write);
        if !page_allows(mem, root, start, write) {
            assert(w.1 is None);
        } else {
            assert((forall|a: int| start <= a < end ==> #[trigger] page_allows(mem, root, a, write))
                == (forall|a: int| next <= a < end ==> #[trigger] page_allows(mem, root, a, write))) by {
                assert forall|a: int| start <= a < next implies #[trigger] page_allows(mem, root, a, write) by {
                    assert(a / 4096 == vpn);
                }
            }
            if let Some(segs) = w.1 {
                let e = tree_lookup(mem, root, vpn as u64)->Some_0;
                let s = rest.1->Some_0;
                let seg = segs[0];
                assert(segs =~= seq![seg] + s);
                assert(segs.drop_first() =~= s);
                lemma_walk_shape(mem, root, next, end, write);
                assert forall|a: int| start <= a < end implies
                    va_byte_location(mem, root, a) == Some(#[trigger] segment_locations(segs)[a - start]) by {
                    assert((a as u64) / 4096 == (a / 4096) as u64);
                    if a < next {
                        assert(a / 4096 == vpn);
                        assert(segment_locations(segs)[a - start] == (seg.ppn.0 as int, seg.start + (a - start)));
                    } else {
                        assert(segment_locations(segs)[a - start] == segment_locations(s)[a - next]);
                    }
                }
            }
        }
    }
}

/// Splits the user buffer `ptr..ptr + len` of the address space `token` into
/// the pieces of physical memory that hold it, or `None` when a page may
/// not be read (with `write`, also written).
fn walk_user_buffer(mem: &PhysMem, token: u64, ptr: u64, len: u64, write: bool) -> (r: Option<Vec<ByteSegment>>)
    requires
        tree_walkable(mem, token_root(token)),
        canonical_buffer(ptr, len),
        !user_walk(mem, token_root(token), ptr, len, write).0,
    ensures
        match r {
            Some(v) => user_walk(mem, token_root(token), ptr, len, write).1 == Some(v@),
            None => user_walk(mem, token_root(token), ptr, len, write).1 is None,
        },
{
    proof { lemma_buffer_va(ptr, len); }
    let page_table = PageTable::from_token(token);
    let ghost root = token_root(token);
    let first = VirtAddr::from_word(ptr).0;
    let end = first + len;
    let mut start = first;
    let mut v: Vec<ByteSegment> = Vec::new();
    while start < end
        invariant
            page_table.root() == root,
            root == token_root(token),
            first == buffer_va(ptr),
            end == first + len,
            tree_walkable(mem, root),
            first <= start <= end,
            end < VA_SPACE,
            buffer_walk(mem, root, first as int, end as int, write)
                == prefixed(v@, buffer_walk(mem, root, start as int, end as int, write)),
            !buffer_walk(mem, root, start as int, end as int, write).0,
        decreases end - start,
    {
        let start_va = VirtAddr::from_word(start);
        let mut vpn = start_va.floor();
        proof {
            assert(start_va.0 == start);
            assert(vpn.0 == start / 4096);
            assert((start as int / 4096) as u64 == vpn.0);
        }
        let ppe = match page_table.translate(mem, vpn) {
            Some(e) => e,
            None => {
                assert(false);
                return None;
            },
        };
        if !ppe.readable() || (write && !ppe.writable()) {
            proof {
                assert(tree_lookup(mem, root, (start as int / 4096) as u64) == Some(ppe));
                assert(buffer_walk(mem, root, start as int, end as int, write).1 is None);
            }
            return None;
        }
        let ppn = ppe.ppn();
        vpn.step();
        let mut end_va = VirtAddr::from_vpn(vpn);
        end_va = end_va.min(VirtAddr::from_word(end));
        let seg = if end_va.page_offset() == 0 {
            ByteSegment { ppn, start: start_va.page_offset() as usize, end: 4096 }
        } else {
            ByteSegment { ppn, start: start_va.page_offset() as usize, end: end_va.page_offset() as usize }
        };
        proof {
            lemma_walk_step(mem, root, start as int, end as int, write, v@, seg);
        }
        v.push(seg);
        start = end_va.0;
    }
    Some(v)
}

/// The pieces of physical memory that hold the user buffer `ptr..ptr + len`
/// of the address space `token`, or `None` when one of its pages may not be
/// both read and written.
pub fn translated_byte_buffer_mut(mem: &PhysMem, token: u64, ptr: u64, len: u64) -> (r: Option<Vec<ByteSegment>>)
    requires
        tree_walkable(mem, token_root(token)),
        canonical_buffer(ptr, len),
        !user_walk(mem, token_root(token), ptr, len, true).0,
    ensures
        match r {
            Some(v) => user_walk(mem, token_root(token), ptr, len, true).1 == Some(v@),
            None => user_walk(mem, token_root(token), ptr, len, true).1 is None,
        },
        (r is Some) == buffer_accessible(mem, token_root(token), ptr, len, true),
        r matches Some(v) ==> pieces_hold(mem, token_root(token), ptr, len, v@),
{
    proof { lemma_user_walk_direct(mem, token_root(token), ptr, len, true); }
    walk_user_buffer(mem, token, ptr, len, true)
}

/// The pieces of physical memory that hold the user buffer `ptr..ptr + len`
/// of the address space `token`, or `None` when one of its pages may not be read.
pub fn translated_byte_buffer(mem: &PhysMem, token: u64, ptr: u64, len: u64) -> (r: Option<Vec<ByteSegment>>)
    requires
        tree_walkable(mem, token_root(token)),
        canonical_buffer(ptr, len),
        !user_walk(mem, token_root(token), ptr, len, false).0,
    ensures
        match r {
            Some(v) => user_walk(mem, token_root(token), ptr, len, false).1 == Some(v@),
            None => user_walk(mem, token_root(token), ptr, len, false).1 is None,
        },
        (r is Some) == buffer_accessible(mem, token_root(token), ptr, len, false),
        r matches Some(v) ==> pieces_hold(mem, token_root(token), ptr, len, v@),
{
    proof { lemma_user_walk_direct(mem, token_root(token), ptr, len, false); }
    walk_user_buffer(mem, token, ptr, len, false)
}

/// Whether the walk of the user buffer `ptr..ptr + len` meets a page without a
/// leaf entry: the case in which the kernel stops with a fault.
pub fn buffer_walk_faults(mem: &PhysMem, token: u64, ptr: u64, len: u64, write: bool) -> (r: bool)
    requires
        tree_walkable(mem, token_root(token)),
        canonical_buffer(ptr, len),
    ensures
        r == user_walk(mem, token_root(token), ptr, len, write).0,
{
    proof { lemma_buffer_va(ptr, len); }
    let page_table = PageTable::from_token(token);
    let ghost root = token_root(token);
    let first = VirtAddr::from_word(ptr).0;
    let end = first + len;
    let mut start = first;
    while start < end
        invariant
            page_table.root() == root,
            root == token_root(token),
            first == buffer_va(ptr),
            end == first + len,
            tree_walkable(mem, root),
            first <= start <= end,
            end < VA_SPACE,
            buffer_walk(mem, root, first as int, end as int, write).0
                == buffer_walk(mem, root, start as int, end as int, write).0,
        decreases end - start,
    {
        let start_va = VirtAddr::from_word(start);
        let mut vpn = start_va.floor();
        proof {
            assert(start_va.0 == start);
            assert(vpn.0 == start / 4096);
            assert((start as int / 4096) as u64 == vpn.0);
        }
        let ppe = match page_table.translate(mem, vpn) {
            Some(e) => e,
            None => {
                return true;
            },
        };
        if !ppe.readable() || (write && !ppe.writable()) {
            return false;
        }
        vpn.step();
        let mut end_va = VirtAddr::from_vpn(vpn);
        end_va = end_va.min(VirtAddr::from_word(end));
        start = end_va.0;
    }
    false
}

/// Reads the zero-terminated string at `ptr` in the address space `token`,
/// byte by byte; `None` when a byte before the terminator may not be read.
pub fn translate_str(mem: &PhysMem, token: u64, ptr: u64) -> (r: Option<Vec<u8>>)
    requires
        tree_walkable(mem, token_root(token)),
        exists|n: int| string_ends_at(mem, token_root(token), ptr, n),
    ensures
        match r {
            Some(s) => {
                &&& string_ends_at(mem, token_root(token), ptr, s.len() as int)
                &&& user_byte(mem, token_root(token), ptr + s.len()) is Some
                &&& forall|k: int| 0 <= k < s.len() ==> user_byte(mem, token_root(token), ptr + k) == Some(#[trigger] s@[k])
            },
            None => exists|n: int| #[trigger] string_ends_at(mem, token_root(token), ptr, n)
                && user_byte(mem, token_root(token), ptr + n) is None,
        },
{
    let page_table = PageTable::from_token(token);
    let ghost root = token_root(token);
    let ghost n = choose|n: int| string_ends_at(mem, root, ptr, n);
    let mut string: Vec<u8> = Vec::new();
    let mut start = ptr;
    loop
        invariant
            page_table.root() == root,
            root == token_root(token),
            tree_walkable(mem, root),
            string_ends_at(mem, root, ptr, n),
            ptr <= start <= ptr + n,
            string@.len() == start - ptr,
            forall|k: int| 0 <= k < string@.len() ==> user_byte(mem, root, ptr + k) == Some(#[trigger] string@[k]),
        ensures
            string@.len() == n,
            string_ends_at(mem, root, ptr, n),
            user_byte(mem, root, ptr + n) is Some,
            forall|k: int| 0 <= k < string@.len() ==> user_byte(mem, root, ptr + k) == Some(#[trigger] string@[k]),
        decreases ptr + n - start,
    {
        let va = VirtAddr::from_word(start);
        proof {
            lemma_walkable_mem(mem, root);
            assert(va.0 == (start as int % VA_SPACE as int) as u64);
            assert(user_byte_in_memory(mem, root, ptr + (start - ptr)));
            assert(user_byte_in_memory(mem, root, start as int));
        }
        if let Some((ppn, off)) = page_table.translate_va(mem, va) {
            let ch = mem.read_byte(ppn, off);
            proof {
                assert(user_byte(mem, root, start as int) == Some(ch));
                assert(ptr + (start - ptr) == start as int);
            }
            if ch == 0 {
                proof {
                    if start < ptr + n {
                        assert(is_nonzero_byte(user_byte(mem, root, ptr + (start - ptr))));
                    }
                    assert(start == ptr + n);
                }
                break;
            } else {
                proof {
                    if start == ptr + n {
                        assert(!is_nonzero_byte(user_byte(mem, root, ptr + n)));
                    }
                }
                string.push(ch);
                start = start + 1;
            }
        } else {
            proof {
                assert(user_byte(mem, root, start as int) is None);
                assert(ptr + (start - ptr) == start as int);
                if start < ptr + n {
                    assert(is_nonzero_byte(user_byte(mem, root, ptr + (start - ptr))));
                }
                assert(start == ptr + n);
                assert(string_ends_at(mem, root, ptr, n) && user_byte(mem, root, ptr + n) is None);
            }
            return None;
        }
    }
    Some(string)
}


proof fn lemma_segments_len_take(segs: Seq<ByteSegment>, i: int)
    requires
        0 <= i < segs.len(),
    ensures
        segments_len(segs.take(i + 1)) == segments_len(segs.take(i)) + (segs[i].end - segs[i].start),
    decreases i,
{
    let a = segs.take(i + 1);
    let b = segs.take(i);
    if i > 0 {
        let rest = segs.drop_first();
        lemma_segments_len_take(rest, i - 1);
        assert(a.drop_first() =~= rest.take(i));
        assert(b.drop_first() =~= rest.take(i - 1));
        assert(a[0] == segs[0]);
        assert(b[0] == segs[0]);
        assert(rest[i - 1] == segs[i]);
        assert(segments_len(a) == (segs[0].end - segs[0].start) + segments_len(rest.take(i)));
        assert(segments_len(b) == (segs[0].end - segs[0].start) + segments_len(rest.take(i - 1)));
    } else {
        assert(a.drop_first() =~= Seq::<ByteSegment>::empty());
        assert(a[0] == segs[0]);
        assert(segments_len(a.drop_first()) == 0);
        assert(segments_len(b) == 0);
    }
}

proof fn lemma_locations_len(segs: Seq<ByteSegment>)
    requires
        forall|i: int| 0 <= i < segs.len() ==> (#[trigger] segs[i]).start <= segs[i].end,
    ensures
        segment_locations(segs).len() == segments_len(segs),
    decreases segs.len(),
{
    if segs.len() > 0 {
        assert forall|i: int| 0 <= i < segs.drop_first().len() implies
            (#[trigger] segs.drop_first()[i]).start <= segs.drop_first()[i].end by {
            assert(segs.drop_first()[i] == segs[i + 1]);
        }
        lemma_locations_len(segs.drop_first());
    }
}

proof fn lemma_locations_index(segs: Seq<ByteSegment>, i: int, k: int)
    requires
        0 <= i < segs.len(),
        0 <= k < segs[i].end - segs[i].start,
        forall|j: int| 0 <= j < segs.len() ==> (#[trigger] segs[j]).start <= segs[j].end,
    ensures
        0 <= segments_len(segs.take(i)),
        segments_len(segs.take(i)) + k < segment_locations(segs).len(),
        segment_locations(segs)[segments_len(segs.take(i)) + k] == (segs[i].ppn.0 as int, segs[i].start + k),
    decreases i,
{
    let rest = segs.drop_first();
    assert forall|j: int| 0 <= j < rest.len() implies (#[trigger] rest[j]).start <= rest[j].end by {
        assert(rest[j] == segs[j + 1]);
    }
    lemma_locations_len(rest);
    lemma_locations_len(segs);
    if i == 0 {
        assert(segs.take(0) =~= Seq::<ByteSegment>::empty());
    } else {
        lemma_locations_index(rest, i - 1, k);
        assert(segs.take(i).drop_first() =~= rest.take(i - 1));
        assert(rest[i - 1] == segs[i]);
    }
}

proof fn lemma_write_step(locs: Seq<(int, int)>, src: Seq<u8>, pos: int, p: int, o: int, old: u8)
    requires
        0 <= pos < locs.len(),
        locs.len() == src.len(),
    ensures
        byte_after_writes(locs.take(pos + 1), src.take(pos + 1), p, o, old)
            == if locs[pos] == (p, o) { src[pos] } else { byte_after_writes(locs.take(pos), src.take(pos), p, o, old) },
{
    assert(locs.take(pos + 1).drop_last() =~= locs.take(pos));
    assert(src.take(pos + 1).drop_last() =~= src.take(pos));
}

/// Copies `src` into the user buffer at `ptr` of the address space `token`;
/// `Err` when a page of the buffer may not be both read and written, in
/// which case memory is left as it was.
pub fn translate_memcopy(mem: &mut PhysMem, token: u64, ptr: u64, src: &Vec<u8>) -> (r: Result<(), ()>)
    requires
        tree_walkable(old(mem), token_root(token)),
        canonical_buffer(ptr, src.len() as u64),
        !user_walk(old(mem), token_root(token), ptr, src.len() as u64, true).0,
        user_walk(old(mem), token_root(token), ptr, src.len() as u64, true).1 matches Some(segs)
            ==> segments_in_memory(old(mem), segs),
    ensures
        final(mem).wf(),
        final(mem).frames() == old(mem).frames(),
        final(mem).capacity() == old(mem).capacity(),
        old(mem).same_ptes(final(mem)),
        match user_walk(old(mem), token_root(token), ptr, src.len() as u64, true).1 {
            Some(segs) => r is Ok && forall|p: int, o: int| 0 <= p < old(mem).frames() && 0 <= o < 4096 ==>
                #[trigger] final(mem).byte(p, o)
                    == byte_after_writes(segment_locations(segs), src@, p, o, old(mem).byte(p, o)),
            None => r is Err && *final(mem) == *old(mem),
        },
{
    proof { lemma_walkable_mem(mem, token_root(token)); }
    let ghost old_mem = *mem;
    if let Some(dst_list) = translated_byte_buffer_mut(mem, token, ptr, src.len() as u64) {
        let ghost segs = dst_list@;
        let ghost locs = segment_locations(segs);
        proof {
            lemma_buffer_va(ptr, src.len() as u64);
            lemma_walk_shape(&old_mem, token_root(token), buffer_va(ptr), buffer_va(ptr) + src.len(), true);
            lemma_locations_len(segs);
            assert(segs.take(0) =~= Seq::<ByteSegment>::empty());
            assert forall|p: int, o: int| 0 <= p < old_mem.frames() && 0 <= o < 4096 implies
                #[trigger] mem.byte(p, o)
                    == byte_after_writes(locs.take(0), src@.take(0), p, o, old_mem.byte(p, o)) by {}
        }
        let total = src.len();
        let mut start: usize = 0;
        let mut i: usize = 0;
        while i < dst_list.len()
            invariant
                segs == dst_list@,
                locs == segment_locations(segs),
                locs.len() == src@.len(),
                total == src@.len(),
                segments_len(segs) == src@.len(),
                segments_in_memory(&old_mem, segs),
                0 <= i <= segs.len(),
                start == segments_len(segs.take(i as int)),
                start <= src@.len(),
                mem.wf(),
                mem.frames() == old_mem.frames(),
                mem.capacity() == old_mem.capacity(),
                old_mem.same_ptes(mem),
                forall|p: int, o: int| 0 <= p < old_mem.frames() && 0 <= o < 4096 ==>
                    #[trigger] mem.byte(p, o)
                        == byte_after_writes(locs.take(start as int), src@.take(start as int), p, o, old_mem.byte(p, o)),
            decreases segs.len() - i,
        {
            let dst = dst_list[i];
            proof {
                lemma_segments_len_take(segs, i as int);
                if i + 1 < segs.len() {
                    lemma_segments_len_take(segs, i as int + 1);
                }
                assert(segs.take(segs.len() as int) =~= segs);
                lemma_len_take_mono(segs, i as int + 1, segs.len() as int);
                assert(dst.start <= dst.end);
            }
            let mut k: usize = dst.start;
            while k < dst.end
                invariant
                    segs == dst_list@,
                    dst == segs[i as int],
                    locs == segment_locations(segs),
                    locs.len() == src@.len(),
                    total == src@.len(),
                    segments_in_memory(&old_mem, segs),
                    0 <= i < segs.len(),
                    start == segments_len(segs.take(i as int)),
                    start + (dst.end - dst.start) == segments_len(segs.take(i as int + 1)),
                    segments_len(segs.take(i as int + 1)) <= src@.len(),
                    dst.start <= k <= dst.end,
                    mem.wf(),
                    mem.frames() == old_mem.frames(),
                    mem.capacity() == old_mem.capacity(),
                    old_mem.same_ptes(mem),
                    forall|p: int, o: int| 0 <= p < old_mem.frames() && 0 <= o < 4096 ==>
                        #[trigger] mem.byte(p, o)
                            == byte_after_writes(locs.take(start + (k - dst.start)), src@.take(start + (k - dst.start)), p, o, old_mem.byte(p, o)),
                decreases dst.end - k,
            {
                assert(start + (k - dst.start) <= src@.len());
                let d: usize = k - dst.start;
                assert(start + d <= src@.len());
                let pos: usize = start + d;
                let ghost before = *mem;
                proof {
                    lemma_locations_index(segs, i as int, k - dst.start);
                    assert(locs[pos as int] == (dst.ppn.0 as int, k as int));
                }
                mem.write_byte(dst.ppn, k, src[pos]);
                proof {
                    assert forall|p: int, o: int| 0 <= p < old_mem.frames() && 0 <= o < 4096 implies
                        #[trigger] mem.byte(p, o)
                            == byte_after_writes(locs.take(pos + 1), src@.take(pos + 1), p, o, old_mem.byte(p, o)) by {
                        lemma_write_step(locs, src@, pos as int, p, o, old_mem.byte(p, o));
                        assert(before.byte(p, o) == byte_after_writes(locs.take(pos as int), src@.take(pos as int), p, o, old_mem.byte(p, o)));
                    }
                    assert forall|p: int, i2: int| 0 <= p < old_mem.frames() && 0 <= i2 < 512 implies
                        #[trigger] mem.pte(p, i2) == old_mem.pte(p, i2) by {
                        assert(before.pte(p, i2) == old_mem.pte(p, i2));
                    }
                }
                k = k + 1;
            }
            assert(start + (dst.end - dst.start) <= src@.len());
            let d: usize = dst.end - dst.start;
            start = start + d;
            i = i + 1;
        }
        proof {
            assert(segs.take(segs.len() as int) =~= segs);
            assert(locs.take(src@.len() as int) =~= locs);
            assert(src@.take(src@.len() as int) =~= src@);
        }
        Ok(())
    } else {
        Err(())
    }
}

proof fn lemma_len_take_mono(segs: Seq<ByteSegment>, a: int, b: int)
    requires
        0 <= a <= b <= segs.len(),
        forall|j: int| 0 <= j < segs.len() ==> (#[trigger] segs[j]).start <= segs[j].end,
    ensures
        segments_len(segs.take(a)) <= segments_len(segs.take(b)),
    decreases b - a,
{
    if a < b {
        lemma_len_take_mono(segs, a, b - 1);
        lemma_segments_len_take(segs, b - 1);
    }
}

proof fn lemma_locations_in_memory(mem: &PhysMem, segs: Seq<ByteSegment>)
    requires
        segments_in_memory(mem, segs),
    ensures
        forall|i: int| 0 <= i < segment_locations(segs).len() ==> {
            &&& 0 <= (#[trigger] segment_locations(segs)[i]).0 < mem.frames()
            &&& 0 <= segment_locations(segs)[i].1 < 4096
        },
    decreases segs.len(),
{
    if segs.len() > 0 {
        let rest = segs.drop_first();
        assert forall|i: int| 0 <= i < rest.len() implies {
            &&& (#[trigger] rest[i]).ppn.0 < mem.frames()
            &&& rest[i].start <= rest[i].end <= 4096
        } by {
            assert(rest[i] == segs[i + 1]);
        }
        lemma_locations_in_memory(mem, rest);
        let s0 = segs[0];
        let head = Seq::new((s0.end - s0.start) as nat, |k: int| (s0.ppn.0 as int, s0.start + k));
        assert forall|i: int| 0 <= i < segment_locations(segs).len() implies {
            &&& 0 <= (#[trigger] segment_locations(segs)[i]).0 < mem.frames()
            &&& 0 <= segment_locations(segs)[i].1 < 4096
        } by {
            if i >= head.len() {
                assert(segment_locations(segs)[i] == segment_locations(rest)[i - head.len()]);
            }
        }
    }
}

/// What a copy writes into a user buffer of at most one page is read back
/// address by address: when `mem2` is what `translate_memcopy` made of `mem`
/// (same page tables, the bytes of `src` written to the buffer's pieces), the
/// byte at user address `ptr + k` is `src[k]`.
pub proof fn lemma_memcopy_reads_back(mem: &PhysMem, mem2: &PhysMem, root: int, ptr: u64, src: Seq<u8>, k: int)
    requires
        user_buffer_ok(mem, root, ptr, src.len() as u64, true),
        src.len() <= 4096,
        user_walk(mem, root, ptr, src.len() as u64, true).1 matches Some(segs) && forall|p: int, o: int|
            0 <= p < mem.frames() && 0 <= o < 4096 ==> #[trigger] mem2.byte(p, o)
                == byte_after_writes(segment_locations(segs), src, p, o, mem.byte(p, o)),
        mem2.wf(),
        mem2.frames() == mem.frames(),
        mem.same_ptes(mem2),
        0 <= k < src.len(),
    ensures
        user_byte(mem2, root, ptr + k) == Some(src[k]),
{
    let len = src.len() as u64;
    let va = buffer_va(ptr);
    let segs = user_walk(mem, root, ptr, len, true).1->Some_0;
    let locs = segment_locations(segs);
    lemma_buffer_va(ptr, len);
    lemma_walkable_mem(mem, root);
    lemma_walk_translates(mem, root, va, va + len, true);
    lemma_walk_shape(mem, root, va, va + len, true);
    lemma_same_tables(mem, mem2, root);
    lemma_locations_in_memory(mem, segs);
    lemma_user_address(ptr, len, k);
    assert(((va + k) as u64) as int == va + k);
    // every piece holds a different offset of its page
    assert forall|i: int| 0 <= i < locs.len() implies (#[trigger] locs[i]).1 == (va + i) % 4096 by {
        assert(va_byte_location(mem, root, va + i) == Some(locs[va + i - va]));
    }
    assert(locs.no_duplicates()) by {
        assert forall|i: int, j: int| 0 <= i < locs.len() && 0 <= j < locs.len() && i != j
            implies locs[i] != locs[j] by {
            assert(locs[i].1 == (va + i) % 4096);
            assert(locs[j].1 == (va + j) % 4096);
        }
    }
    assert(va_byte_location(mem, root, va + k) == Some(locs[va + k - va]));
    let loc = locs[k];
    lemma_copy_then_read(locs, src, k, mem.byte(loc.0, loc.1));
    assert(tree_va_location(mem2, root, (va + k) as u64) == tree_va_location(mem, root, (va + k) as u64));
}

/// Inside a canonical buffer, user address `ptr + k` is the Sv39 address
/// `buffer_va(ptr) + k`.
pub proof fn lemma_user_address(ptr: u64, len: u64, k: int)
    requires
        canonical_buffer(ptr, len),
        0 <= k < len,
    ensures
        (ptr + k) % (VA_SPACE as int) == buffer_va(ptr) + k,
        ((buffer_va(ptr) + k) as u64) as int == buffer_va(ptr) + k,
{
    let va = buffer_va(ptr);
    lemma_buffer_va(ptr, len);
    if ptr + len <= VA_HALF {
        lemma_small_mod((ptr + k) as nat, VA_SPACE as nat);
    } else {
        let c: int = (u64::MAX - VA_SPACE + 1) as int;
        assert(c == VA_SPACE as int * 0x1ff_ffff);
        lemma_mod_multiples_vanish(0x1ff_ffff, va + k, VA_SPACE as int);
        lemma_small_mod((va + k) as nat, VA_SPACE as nat);
    }
}

/// A successful walk reads what the user addresses hold: the `k`-th byte it
/// covers is the byte at user address `ptr + k`.
pub proof fn lemma_walk_reads(mem: &PhysMem, root: int, ptr: u64, len: u64, write: bool)
    requires
        user_buffer_ok(mem, root, ptr, len, write),
    ensures
        user_walk(mem, root, ptr, len, write).1 matches Some(segs) ==> {
            &&& segment_locations(segs).len() == len
            &&& forall|k: int| 0 <= k < len ==> #[trigger] user_byte(mem, root, ptr + k)
                == Some(mem.byte(segment_locations(segs)[k].0, segment_locations(segs)[k].1))
        },
{
    let va = buffer_va(ptr);
    lemma_buffer_va(ptr, len);
    lemma_walk_translates(mem, root, va, va + len, write);
    lemma_walk_shape(mem, root, va, va + len, write);
    if let Some(segs) = user_walk(mem, root, ptr, len, write).1 {
        let locs = segment_locations(segs);
        assert forall|k: int| 0 <= k < len implies #[trigger] user_byte(mem, root, ptr + k)
            == Some(mem.byte(locs[k].0, locs[k].1)) by {
            lemma_user_address(ptr, len, k);
            assert(va_byte_location(mem, root, va + k) == Some(locs[va + k - va]));
        }
    }
}

} // verus!
