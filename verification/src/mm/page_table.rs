use vstd::prelude::*;
use crate::mm::address::{PhysPageNum, VirtPageNum, VirtAddr, vpn_index, PPN_SPACE};

verus! {

/// Valid.
pub const PTE_V: u8 = 1;
/// Readable.
pub const PTE_R: u8 = 2;
/// Writable.
pub const PTE_W: u8 = 4;
/// Executable.
pub const PTE_X: u8 = 8;
/// Accessible from user mode.
pub const PTE_U: u8 = 16;
/// Global mapping.
pub const PTE_G: u8 = 32;
/// Accessed.
pub const PTE_A: u8 = 64;
/// Dirty.
pub const PTE_D: u8 = 128;

/// The low 44 bits.
pub const PPN_MASK: u64 = 0xfff_ffff_ffff;

/// The eight flag bits of a page-table entry.
#[derive(Clone, Copy, PartialEq, Eq, Structural, Debug)]
pub struct PTEFlags {
    pub bits: u8,
}

impl PTEFlags {
    /// No flag set.
    pub fn empty() -> (r: PTEFlags)
        ensures
            r.bits == 0,
    {
        PTEFlags { bits: 0 }
    }

    /// The flags of a byte; every one of the eight bits names a flag, so this
    /// never fails.
    pub fn from_bits(bits: u8) -> (r: Option<PTEFlags>)
        ensures
            r == Some(PTEFlags { bits }),
    {
        Some(PTEFlags { bits })
    }

    /// The flags as a byte.
    pub fn bits(&self) -> (r: u8)
        ensures
            r == self.bits,
    {
        self.bits
    }

    /// The flags set in either operand.
    pub fn union(self, other: PTEFlags) -> (r: PTEFlags)
        ensures
            r.bits == self.bits | other.bits,
    {
        PTEFlags { bits: self.bits | other.bits }
    }

    /// The flags set in both operands.
    pub fn intersection(self, other: PTEFlags) -> (r: PTEFlags)
        ensures
            r.bits == self.bits & other.bits,
    {
        PTEFlags { bits: self.bits & other.bits }
    }

    /// Whether no flag is set.
    pub fn is_empty(&self) -> (r: bool)
        ensures
            r == (self.bits == 0),
    {
        self.bits == 0
    }
}

/// The bits of the entry that maps `ppn` with `flags`.
pub open spec fn pte_bits(ppn: u64, flags: u8) -> u64 {
    (ppn << 10u64) | (flags as u64)
}

/// An Sv39 page-table entry.
#[derive(Clone, Copy, PartialEq, Eq, Structural, Debug)]
pub struct PageTableEntry {
    pub bits: u64,
}

impl PageTableEntry {
    /// The physical page number held in the entry.
    pub open spec fn ppn_of(self) -> u64 {
        (self.bits >> 10u64) & PPN_MASK
    }

    /// The flag byte of the entry.
    pub open spec fn flags_of(self) -> u8 {
        self.bits as u8
    }

    pub open spec fn valid_flag(self) -> bool {
        self.flags_of() & PTE_V != 0
    }

    pub open spec fn readable_flag(self) -> bool {
        self.flags_of() & PTE_R != 0
    }

    pub open spec fn writable_flag(self) -> bool {
        self.flags_of() & PTE_W != 0
    }

    pub open spec fn executable_flag(self) -> bool {
        self.flags_of() & PTE_X != 0
    }

    /// The entry that maps `ppn` with `flags`.
    pub fn new(ppn: PhysPageNum, flags: PTEFlags) -> (r: PageTableEntry)
        ensures
            r.bits == pte_bits(ppn.0, flags.bits),
    {
        PageTableEntry { bits: ppn.0 << 10u64 | flags.bits as u64 }
    }

    /// The entry that maps nothing.
    pub fn empty() -> (r: PageTableEntry)
        ensures
            r.bits == 0,
    {
        PageTableEntry { bits: 0 }
    }

    /// The physical page number held in the entry.
    pub fn ppn(&self) -> (r: PhysPageNum)
        ensures
            r.0 == self.ppn_of(),
    {
        PhysPageNum((self.bits >> 10u64) & PPN_MASK)
    }

    /// The flags of the entry.
    pub fn flags(&self) -> (r: PTEFlags)
        ensures
            r.bits == self.flags_of(),
    {
        match PTEFlags::from_bits(self.bits as u8) {
            Some(f) => f,
            None => PTEFlags::empty(),
        }
    }

    /// Whether the entry is valid.
    pub fn is_valid(&self) -> (r: bool)
        ensures
            r == self.valid_flag(),
    {
        !self.flags().intersection(PTEFlags { bits: PTE_V }).is_empty()
    }

    /// Whether the page may be read.
    pub fn readable(&self) -> (r: bool)
        ensures
            r == self.readable_flag(),
    {
        !self.flags().intersection(PTEFlags { bits: PTE_R }).is_empty()
    }

    /// Whether the page may be written.
    pub fn writable(&self) -> (r: bool)
        ensures
            r == self.writable_flag(),
    {
        !self.flags().intersection(PTEFlags { bits: PTE_W }).is_empty()
    }

    /// Whether the page may be executed.
    pub fn executable(&self) -> (r: bool)
        ensures
            r == self.executable_flag(),
    {
        !self.flags().intersection(PTEFlags { bits: PTE_X }).is_empty()
    }
}

/// An entry built from a page number below 2^44 and a flag byte gives both
/// back unchanged.
pub proof fn lemma_pte_roundtrip(ppn: u64, flags: u8)
    requires
        ppn < PPN_SPACE,
    ensures
        (PageTableEntry { bits: pte_bits(ppn, flags) }).ppn_of() == ppn,
        (PageTableEntry { bits: pte_bits(ppn, flags) }).flags_of() == flags,
{
    let b = pte_bits(ppn, flags);
    let f = flags as u64;
    assert(f < 256);
    assert((((ppn << 10u64) | f) >> 10u64) & 0xfff_ffff_ffffu64 == ppn) by (bit_vector)
        requires
            ppn < 0x1000_0000_0000u64,
            f < 256u64,
    ;
    assert(((ppn << 10u64) | f) & 0xffu64 == f) by (bit_vector)
        requires
            f < 256u64,
    ;
    lemma_low_byte(b);
}

proof fn lemma_low_byte(b: u64)
    ensures
        (b as u8) as u64 == b & 0xffu64,
{
    assert((b as u8) as u64 == b & 0xffu64) by (bit_vector);
}

proof fn lemma_zero_entry()
    ensures
        !(PageTableEntry { bits: 0 }).valid_flag(),
        !(PageTableEntry { bits: 0 }).readable_flag(),
        (PageTableEntry { bits: 0 }).ppn_of() == 0,
{
    assert((0u64 as u8) & 1u8 == 0u8) by (bit_vector);
    assert((0u64 as u8) & 2u8 == 0u8) by (bit_vector);
    assert((0u64 >> 10u64) & 0xfff_ffff_ffffu64 == 0u64) by (bit_vector);
}

proof fn lemma_dir_entry(ppn: u64)
    requires
        ppn < PPN_SPACE,
    ensures
        (PageTableEntry { bits: pte_bits(ppn, PTE_V) }).valid_flag(),
        (PageTableEntry { bits: pte_bits(ppn, PTE_V) }).ppn_of() == ppn,
{
    lemma_pte_roundtrip(ppn, PTE_V);
    assert(1u8 & 1u8 == 1u8) by (bit_vector);
}

/// The physical memory that page tables and user pages live in: frames of
/// 512 page-table entries, each also holding the 4096 bytes of a data page.
/// Frame number `n` is physical page number `n`.
pub struct PhysMem {
    ptes: Vec<PageTableEntry>,
    bytes: Vec<u8>,
    nframes: usize,
    capacity: usize,
}

impl PhysMem {
    /// Number of frames handed out so far.
    pub closed spec fn frames(&self) -> nat {
        self.nframes as nat
    }

    /// Number of frames the machine has.
    pub closed spec fn capacity(&self) -> nat {
        self.capacity as nat
    }

    /// Entry `i` of the page-table frame `ppn`.
    pub closed spec fn pte(&self, ppn: int, i: int) -> PageTableEntry {
        self.ptes@[ppn * 512 + i]
    }

    /// Byte `off` of the data page `ppn`.
    pub closed spec fn byte(&self, ppn: int, off: int) -> u8 {
        self.bytes@[ppn * 4096 + off]
    }

    pub closed spec fn wf(&self) -> bool {
        &&& self.ptes@.len() == 512 * self.nframes
        &&& self.bytes@.len() == 4096 * self.nframes
        &&& self.nframes <= self.capacity
        &&& self.capacity < PPN_SPACE
        &&& 4096 * self.capacity <= usize::MAX
    }

    /// Both memories hold the same page-table entries in every frame of `self`.
    pub open spec fn same_ptes(&self, other: &PhysMem) -> bool {
        forall|p: int, i: int|
            0 <= p < self.frames() && 0 <= i < 512 ==> #[trigger] other.pte(p, i) == self.pte(p, i)
    }

    /// Both memories hold the same bytes in every frame of `self`.
    pub open spec fn same_bytes(&self, other: &PhysMem) -> bool {
        forall|p: int, o: int|
            0 <= p < self.frames() && 0 <= o < 4096 ==> #[trigger] other.byte(p, o) == self.byte(p, o)
    }

    /// A machine with `capacity` frames, none handed out yet.
    pub fn new(capacity: usize) -> (r: PhysMem)
        requires
            capacity < PPN_SPACE,
            4096 * capacity <= usize::MAX,
        ensures
            r.wf(),
            r.frames() == 0,
            r.capacity() == capacity,
    {
        PhysMem { ptes: Vec::new(), bytes: Vec::new(), nframes: 0, capacity }
    }

    /// Number of frames handed out so far.
    pub fn frame_count(&self) -> (r: usize)
        ensures
            r == self.frames(),
    {
        self.nframes
    }

    /// Hands out a fresh frame, zero-filled, or `None` when every frame is in use.
    pub fn frame_alloc(&mut self) -> (r: Option<PhysPageNum>)
        requires
            old(self).wf(),
        ensures
            final(self).wf(),
            final(self).capacity() == old(self).capacity(),
            old(self).same_ptes(final(self)),
            old(self).same_bytes(final(self)),
            r is None <==> old(self).frames() == old(self).capacity(),
            r is None ==> final(self).frames() == old(self).frames(),
            r matches Some(p) ==> {
                &&& p.0 == old(self).frames()
                &&& final(self).frames() == old(self).frames() + 1
                &&& forall|i: int| 0 <= i < 512 ==> (#[trigger] final(self).pte(p.0 as int, i)).bits == 0
                &&& forall|o: int| 0 <= o < 4096 ==> #[trigger] final(self).byte(p.0 as int, o) == 0
            },
    {
        if self.nframes >= self.capacity {
            return None;
        }
        let n = self.nframes;
        let ghost old_ptes = self.ptes@;
        let ghost old_bytes = self.bytes@;
        let ghost cap = self.capacity;
        let mut k: usize = 0;
        while k < 512
            invariant
                0 <= k <= 512,
                n == self.nframes,
                n < self.capacity,
                self.capacity == cap,
                4096 * self.capacity <= usize::MAX,
                old_ptes.len() == 512 * n,
                self.ptes@.len() == 512 * n + k,
                forall|j: int| 0 <= j < 512 * n ==> self.ptes@[j] == old_ptes[j],
                forall|j: int| 512 * n <= j < 512 * n + k ==> (#[trigger] self.ptes@[j]).bits == 0,
                self.bytes@ == old_bytes,
            decreases 512 - k,
        {
            self.ptes.push(PageTableEntry { bits: 0 });
            k = k + 1;
        }
        let mut k: usize = 0;
        while k < 4096
            invariant
                0 <= k <= 4096,
                n == self.nframes,
                n < self.capacity,
                self.capacity == cap,
                4096 * self.capacity <= usize::MAX,
                old_bytes.len() == 4096 * n,
                self.bytes@.len() == 4096 * n + k,
                forall|j: int| 0 <= j < 4096 * n ==> self.bytes@[j] == old_bytes[j],
                forall|j: int| 4096 * n <= j < 4096 * n + k ==> #[trigger] self.bytes@[j] == 0,
                self.ptes@.len() == 512 * n + 512,
                forall|j: int| 0 <= j < 512 * n ==> self.ptes@[j] == old_ptes[j],
                forall|j: int| 512 * n <= j < 512 * n + 512 ==> (#[trigger] self.ptes@[j]).bits == 0,
            decreases 4096 - k,
        {
            self.bytes.push(0);
            k = k + 1;
        }
        self.nframes = n + 1;
        proof {
            assert forall|p: int, i: int| 0 <= p < n && 0 <= i < 512 implies
                #[trigger] self.pte(p, i) == old(self).pte(p, i) by {
                lemma_slot_in_range(p, i, n as int, 512);
            }
            assert forall|p: int, o: int| 0 <= p < n && 0 <= o < 4096 implies
                #[trigger] self.byte(p, o) == old(self).byte(p, o) by {
                lemma_slot_in_range(p, o, n as int, 4096);
            }
        }
        Some(PhysPageNum(n as u64))
    }

    /// Entry `i` of the page-table frame `ppn`.
    pub fn read_pte(&self, ppn: PhysPageNum, i: usize) -> (r: PageTableEntry)
        requires
            self.wf(),
            ppn.0 < self.frames(),
            i < 512,
        ensures
            r == self.pte(ppn.0 as int, i as int),
    {
        proof { lemma_slot_in_range(ppn.0 as int, i as int, self.nframes as int, 512); }
        self.ptes[ppn.0 as usize * 512 + i]
    }

    /// Overwrites entry `i` of the page-table frame `ppn`.
    pub fn write_pte(&mut self, ppn: PhysPageNum, i: usize, e: PageTableEntry)
        requires
            old(self).wf(),
            ppn.0 < old(self).frames(),
            i < 512,
        ensures
            final(self).wf(),
            final(self).frames() == old(self).frames(),
            final(self).capacity() == old(self).capacity(),
            old(self).same_bytes(final(self)),
            forall|p: int, j: int| 0 <= p < old(self).frames() && 0 <= j < 512 ==>
                #[trigger] final(self).pte(p, j) == if p == ppn.0 && j == i { e } else { old(self).pte(p, j) },
    {
        proof { lemma_slot_in_range(ppn.0 as int, i as int, self.nframes as int, 512); }
        let k = ppn.0 as usize * 512 + i;
        self.ptes.set(k, e);
        proof {
            assert forall|p: int, j: int| 0 <= p < old(self).frames() && 0 <= j < 512 implies
                #[trigger] self.pte(p, j) == if p == ppn.0 && j == i { e } else { old(self).pte(p, j) } by {
                lemma_slot_in_range(p, j, self.nframes as int, 512);
                if p * 512 + j == ppn.0 * 512 + i {
                    lemma_slot_distinct(p, j, ppn.0 as int, i as int, 512);
                }
            }
        }
    }

    /// Byte `off` of the data page `ppn`.
    pub fn read_byte(&self, ppn: PhysPageNum, off: usize) -> (r: u8)
        requires
            self.wf(),
            ppn.0 < self.frames(),
            off < 4096,
        ensures
            r == self.byte(ppn.0 as int, off as int),
    {
        proof { lemma_slot_in_range(ppn.0 as int, off as int, self.nframes as int, 4096); }
        self.bytes[ppn.0 as usize * 4096 + off]
    }

    /// Overwrites byte `off` of the data page `ppn`.
    pub fn write_byte(&mut self, ppn: PhysPageNum, off: usize, b: u8)
        requires
            old(self).wf(),
            ppn.0 < old(self).frames(),
            off < 4096,
        ensures
            final(self).wf(),
            final(self).frames() == old(self).frames(),
            final(self).capacity() == old(self).capacity(),
            old(self).same_ptes(final(self)),
            forall|p: int, o: int| 0 <= p < old(self).frames() && 0 <= o < 4096 ==>
                #[trigger] final(self).byte(p, o) == if p == ppn.0 && o == off { b } else { old(self).byte(p, o) },
    {
        proof { lemma_slot_in_range(ppn.0 as int, off as int, self.nframes as int, 4096); }
        let k = ppn.0 as usize * 4096 + off;
        self.bytes.set(k, b);
        proof {
            assert forall|p: int, o: int| 0 <= p < old(self).frames() && 0 <= o < 4096 implies
                #[trigger] self.byte(p, o) == if p == ppn.0 && o == off { b } else { old(self).byte(p, o) } by {
                lemma_slot_in_range(p, o, self.nframes as int, 4096);
                if p * 4096 + o == ppn.0 * 4096 + off {
                    lemma_slot_distinct(p, o, ppn.0 as int, off as int, 4096);
                }
            }
        }
    }
}

proof fn lemma_slot_in_range(p: int, i: int, n: int, size: int)
    requires
        0 <= p < n,
        0 <= i < size,
    ensures
        0 <= p * size + i < size * n,
{
    assert(0 <= p * size + i < size * n) by (nonlinear_arith)
        requires 0 <= p < n, 0 <= i < size;
}

proof fn lemma_slot_distinct(p: int, i: int, q: int, j: int, size: int)
    requires
        0 <= p,
        0 <= q,
        0 <= i < size,
        0 <= j < size,
        p * size + i == q * size + j,
    ensures
        p == q && i == j,
{
    assert(p == q) by (nonlinear_arith)
        requires 0 <= p, 0 <= q, 0 <= i < size, 0 <= j < size, p * size + i == q * size + j;
}


/// Whether two page numbers select the same entry at every level.
pub open spec fn same_slot(v: u64, w: u64) -> bool {
    &&& vpn_index(v, 0) == vpn_index(w, 0)
    &&& vpn_index(v, 1) == vpn_index(w, 1)
    &&& vpn_index(v, 2) == vpn_index(w, 2)
}

/// `mem2` is `mem` with one more, zero-filled frame `n`, whose number is now
/// held in entry `i` of frame `p`.
pub open spec fn grown(mem: &PhysMem, mem2: &PhysMem, p: int, i: int, n: int) -> bool {
    &&& mem2.wf()
    &&& mem2.frames() == mem.frames() + 1
    &&& mem2.capacity() == mem.capacity()
    &&& n == mem.frames()
    &&& n < PPN_SPACE
    &&& forall|k: int| 0 <= k < 512 ==> (#[trigger] mem2.pte(n, k)).bits == 0
    &&& forall|q: int, k: int| 0 <= q < mem.frames() && 0 <= k < 512 ==>
        #[trigger] mem2.pte(q, k) == if q == p && k == i {
            PageTableEntry { bits: pte_bits(n as u64, PTE_V) }
        } else {
            mem.pte(q, k)
        }
}

/// `mem2` is `mem` with entry `k` of frame `f` replaced by `e`.
pub open spec fn written(mem: &PhysMem, mem2: &PhysMem, f: int, k: int, e: PageTableEntry) -> bool {
    &&& mem2.wf()
    &&& mem2.frames() == mem.frames()
    &&& forall|q: int, j: int| 0 <= q < mem.frames() && 0 <= j < 512 ==>
        #[trigger] mem2.pte(q, j) == if q == f && j == k { e } else { mem.pte(q, j) }
}

/// Entry `i` of the root points to a second-level directory.
pub closed spec fn tree_has_l1(mem: &PhysMem, root: int, i: int) -> bool {
    0 <= i < 512 && mem.pte(root, i).valid_flag()
}

/// The second-level directory that root entry `i` points to.
pub closed spec fn tree_l1(mem: &PhysMem, root: int, i: int) -> int {
    mem.pte(root, i).ppn_of() as int
}

/// The path `i`, `j` leads to a leaf frame.
pub closed spec fn tree_has_l2(mem: &PhysMem, root: int, i: int, j: int) -> bool {
    tree_has_l1(mem, root, i) && 0 <= j < 512 && mem.pte(tree_l1(mem, root, i), j).valid_flag()
}

/// The leaf frame at the end of the path `i`, `j`.
pub closed spec fn tree_l2(mem: &PhysMem, root: int, i: int, j: int) -> int {
    mem.pte(tree_l1(mem, root, i), j).ppn_of() as int
}

/// Every frame a walk can reach lies in `mem`.
pub closed spec fn tree_walkable(mem: &PhysMem, root: int) -> bool {
    &&& mem.wf()
    &&& 0 <= root < mem.frames()
    &&& forall|i: int| #[trigger] tree_has_l1(mem, root, i) ==> tree_l1(mem, root, i) < mem.frames()
    &&& forall|i: int, j: int| #[trigger] tree_has_l2(mem, root, i, j) ==> tree_l2(mem, root, i, j) < mem.frames()
}

/// The table is a tree: the root, the directories and the leaf frames are
/// pairwise distinct frames of `mem`.
pub closed spec fn tree_wf(mem: &PhysMem, root: int) -> bool {
    &&& tree_walkable(mem, root)
    &&& forall|i: int| #[trigger] tree_has_l1(mem, root, i) ==> tree_l1(mem, root, i) != root
    &&& forall|i: int, i2: int| #[trigger] tree_has_l1(mem, root, i) && #[trigger] tree_has_l1(mem, root, i2) && i != i2
        ==> tree_l1(mem, root, i) != tree_l1(mem, root, i2)
    &&& forall|i: int, j: int| #[trigger] tree_has_l2(mem, root, i, j) ==> tree_l2(mem, root, i, j) != root
    &&& forall|i: int, j: int, i2: int| #[trigger] tree_has_l2(mem, root, i, j) && #[trigger] tree_has_l1(mem, root, i2)
        ==> tree_l2(mem, root, i, j) != tree_l1(mem, root, i2)
    &&& forall|i: int, j: int, i2: int, j2: int|
        #[trigger] tree_has_l2(mem, root, i, j) && #[trigger] tree_has_l2(mem, root, i2, j2) && (i != i2 || j != j2)
        ==> tree_l2(mem, root, i, j) != tree_l2(mem, root, i2, j2)
}

/// Where the leaf entry of `vpn` lives, if the walk reaches a leaf frame.
pub closed spec fn tree_slot(mem: &PhysMem, root: int, vpn: u64) -> Option<(int, int)> {
    let i = vpn_index(vpn, 0);
    let j = vpn_index(vpn, 1);
    if tree_has_l2(mem, root, i, j) {
        Some((tree_l2(mem, root, i, j), vpn_index(vpn, 2)))
    } else {
        None
    }
}

/// The leaf entry of `vpn`, valid or not, if the walk reaches a leaf frame.
pub closed spec fn tree_lookup(mem: &PhysMem, root: int, vpn: u64) -> Option<PageTableEntry> {
    match tree_slot(mem, root, vpn) {
        Some((f, k)) => Some(mem.pte(f, k)),
        None => None,
    }
}


/// A three-level Sv39 page table rooted at the frame `root_ppn`; `frames`
/// records the frames it allocated for its directories.
pub struct PageTable {
    root_ppn: PhysPageNum,
    frames: Vec<PhysPageNum>,
}

impl PageTable {
    /// The root frame.
    pub closed spec fn root(&self) -> int {
        self.root_ppn.0 as int
    }

    /// The frames the table allocated, root first, in the order it took them.
    pub closed spec fn dir_frames(&self) -> Seq<PhysPageNum> {
        self.frames@
    }

    pub open spec fn has_l1(&self, mem: &PhysMem, i: int) -> bool {
        tree_has_l1(mem, self.root(), i)
    }

    pub open spec fn l1(&self, mem: &PhysMem, i: int) -> int {
        tree_l1(mem, self.root(), i)
    }

    pub open spec fn has_l2(&self, mem: &PhysMem, i: int, j: int) -> bool {
        tree_has_l2(mem, self.root(), i, j)
    }

    pub open spec fn l2(&self, mem: &PhysMem, i: int, j: int) -> int {
        tree_l2(mem, self.root(), i, j)
    }

    /// Every frame a walk can reach lies in `mem`.
    pub open spec fn walkable(&self, mem: &PhysMem) -> bool {
        tree_walkable(mem, self.root())
    }

    /// The table is a tree whose frames are pairwise distinct.
    pub open spec fn wf(&self, mem: &PhysMem) -> bool {
        tree_wf(mem, self.root())
    }

    /// Where the leaf entry of `vpn` lives, if the walk reaches a leaf frame.
    pub open spec fn slot(&self, mem: &PhysMem, vpn: u64) -> Option<(int, int)> {
        tree_slot(mem, self.root(), vpn)
    }

    /// The leaf entry of `vpn`, valid or not, if the walk reaches a leaf frame.
    pub open spec fn lookup(&self, mem: &PhysMem, vpn: u64) -> Option<PageTableEntry> {
        tree_lookup(mem, self.root(), vpn)
    }

    /// The valid leaf entry that maps `vpn`, if any.
    pub open spec fn mapping(&self, mem: &PhysMem, vpn: u64) -> Option<PageTableEntry> {
        tree_mapping(mem, self.root(), vpn)
    }

    /// How many directory frames a walk to `vpn` still has to allocate.
    pub closed spec fn frames_needed(&self, mem: &PhysMem, vpn: u64) -> nat {
        if !self.has_l1(mem, vpn_index(vpn, 0)) {
            2
        } else if !self.has_l2(mem, vpn_index(vpn, 0), vpn_index(vpn, 1)) {
            1
        } else {
            0
        }
    }

    /// A walk to a page needs at most two new directory frames, and none when
    /// it already reaches a leaf frame.
    pub proof fn lemma_frames_needed(&self, mem: &PhysMem, vpn: u64)
        ensures
            self.frames_needed(mem, vpn) <= 2,
            self.slot(mem, vpn) is Some ==> self.frames_needed(mem, vpn) == 0,
    {
    }

    /// Where byte `va` lives, if its page may be read.
    pub open spec fn va_location(&self, mem: &PhysMem, va: u64) -> Option<(u64, u64)> {
        tree_va_location(mem, self.root(), va)
    }

}

/// Where byte `va` lives in the tree at `root`, if its page may be read.
pub open spec fn tree_va_location(mem: &PhysMem, root: int, va: u64) -> Option<(u64, u64)> {
    match tree_lookup(mem, root, va / 4096) {
        Some(e) => if e.readable_flag() { Some((e.ppn_of(), va % 4096)) } else { None },
        None => None,
    }
}

/// The root frame named by a `satp` value.
pub open spec fn token_root(token: u64) -> int {
    (token & PPN_MASK) as int
}

/// The valid leaf entry that maps `vpn` in the tree at `root`, if any.
pub open spec fn tree_mapping(mem: &PhysMem, root: int, vpn: u64) -> Option<PageTableEntry> {
    match tree_lookup(mem, root, vpn) {
        Some(e) => if e.valid_flag() { Some(e) } else { None },
        None => None,
    }
}

proof fn lemma_grow_root(root: int, mem: &PhysMem, mem2: &PhysMem, i0: int, n: int)
    requires
        tree_wf(mem, root),
        0 <= i0 < 512,
        !tree_has_l1(mem, root, i0),
        grown(mem, mem2, root, i0, n),
    ensures
        tree_wf(mem2, root),
        tree_has_l1(mem2, root, i0),
        tree_l1(mem2, root, i0) == n,
        forall|j: int| !tree_has_l2(mem2, root, i0, j),
        forall|v: u64| #[trigger] tree_mapping(mem2, root, v) == tree_mapping(mem, root, v),
        forall|v: u64| tree_slot(mem, root, v) is Some ==> #[trigger] tree_slot(mem2, root, v) == tree_slot(mem, root, v),
{
    lemma_dir_entry(n as u64);
    lemma_zero_entry();
    let r = root;
    assert(tree_walkable(mem, root));
    assert(r < mem.frames());
    assert forall|i: int| 0 <= i < 512 && i != i0 implies #[trigger] mem2.pte(r, i) == mem.pte(r, i) by {}
    assert forall|i: int| #[trigger] tree_has_l1(mem2, root, i) <==> (tree_has_l1(mem, root, i) || i == i0) by {
        if 0 <= i < 512 && i != i0 { assert(mem2.pte(r, i) == mem.pte(r, i)); }
    }
    assert forall|i: int| #[trigger] tree_has_l1(mem, root, i) implies tree_l1(mem2, root, i) == tree_l1(mem, root, i) by {
        assert(i != i0);
        assert(mem2.pte(r, i) == mem.pte(r, i));
    }
    assert forall|i: int, j: int| #[trigger] tree_has_l2(mem2, root, i, j) <==> tree_has_l2(mem, root, i, j) by {
        if i == i0 {
            if 0 <= j < 512 {
                assert(mem2.pte(n, j).bits == 0);
            }
        } else if tree_has_l1(mem, root, i) && 0 <= j < 512 {
            assert(mem2.pte(tree_l1(mem, root, i), j) == mem.pte(tree_l1(mem, root, i), j));
        }
    }
    assert forall|i: int, j: int| #[trigger] tree_has_l2(mem, root, i, j) implies tree_l2(mem2, root, i, j) == tree_l2(mem, root, i, j) by {
        assert(mem2.pte(tree_l1(mem, root, i), j) == mem.pte(tree_l1(mem, root, i), j));
    }
    assert forall|j: int| !tree_has_l2(mem2, root, i0, j) by {
        if 0 <= j < 512 { assert(mem2.pte(n, j).bits == 0); }
    }
    assert forall|v: u64| tree_slot(mem, root, v) is Some implies #[trigger] tree_slot(mem2, root, v) == tree_slot(mem, root, v) by {}
    assert forall|v: u64| #[trigger] tree_mapping(mem2, root, v) == tree_mapping(mem, root, v) by {
        let i = vpn_index(v, 0);
        let j = vpn_index(v, 1);
        if tree_has_l2(mem, root, i, j) {
            let f = tree_l2(mem, root, i, j);
            let k = vpn_index(v, 2);
            assert(mem2.pte(f, k) == mem.pte(f, k));
        }
    }
}

proof fn lemma_grow_dir(root: int, mem: &PhysMem, mem2: &PhysMem, i0: int, i1: int, n: int)
    requires
        tree_wf(mem, root),
        tree_has_l1(mem, root, i0),
        0 <= i1 < 512,
        !tree_has_l2(mem, root, i0, i1),
        grown(mem, mem2, tree_l1(mem, root, i0), i1, n),
    ensures
        tree_wf(mem2, root),
        tree_has_l2(mem2, root, i0, i1),
        tree_l2(mem2, root, i0, i1) == n,
        forall|v: u64| #[trigger] tree_mapping(mem2, root, v) == tree_mapping(mem, root, v),
        forall|v: u64| tree_slot(mem, root, v) is Some ==> #[trigger] tree_slot(mem2, root, v) == tree_slot(mem, root, v),
{
    lemma_dir_entry(n as u64);
    lemma_zero_entry();
    let r = root;
    assert(tree_walkable(mem, root));
    assert(r < mem.frames());
    let d = tree_l1(mem, root, i0);
    assert forall|i: int| 0 <= i < 512 implies #[trigger] mem2.pte(r, i) == mem.pte(r, i) by {}
    assert forall|i: int| #[trigger] tree_has_l1(mem2, root, i) <==> tree_has_l1(mem, root, i) by {
        if 0 <= i < 512 { assert(mem2.pte(r, i) == mem.pte(r, i)); }
    }
    assert forall|i: int| #[trigger] tree_has_l1(mem, root, i) implies tree_l1(mem2, root, i) == tree_l1(mem, root, i) by {
        assert(mem2.pte(r, i) == mem.pte(r, i));
    }
    assert forall|i: int, j: int| #[trigger] tree_has_l2(mem2, root, i, j) <==> (tree_has_l2(mem, root, i, j) || (i == i0 && j == i1)) by {
        if tree_has_l1(mem, root, i) && 0 <= j < 512 {
            assert(mem2.pte(r, i) == mem.pte(r, i));
            if i != i0 {
                assert(tree_l1(mem, root, i) != d);
            }
            let _ = mem2.pte(tree_l1(mem, root, i), j);
        }
    }
    assert forall|i: int, j: int| #[trigger] tree_has_l2(mem, root, i, j) implies tree_l2(mem2, root, i, j) == tree_l2(mem, root, i, j) by {
        assert(mem2.pte(r, i) == mem.pte(r, i));
        if i != i0 {
            assert(tree_l1(mem, root, i) != d);
        }
        let _ = mem2.pte(tree_l1(mem, root, i), j);
    }
    assert(tree_l2(mem2, root, i0, i1) == n) by {
        assert(mem2.pte(r, i0) == mem.pte(r, i0));
        let _ = mem2.pte(d, i1);
    }
    assert forall|v: u64| tree_slot(mem, root, v) is Some implies #[trigger] tree_slot(mem2, root, v) == tree_slot(mem, root, v) by {}
    assert forall|v: u64| #[trigger] tree_mapping(mem2, root, v) == tree_mapping(mem, root, v) by {
        let i = vpn_index(v, 0);
        let j = vpn_index(v, 1);
        let k = vpn_index(v, 2);
        if tree_has_l2(mem, root, i, j) {
            let f = tree_l2(mem, root, i, j);
            assert(f != d);
            assert(mem2.pte(f, k) == mem.pte(f, k));
        } else if i == i0 && j == i1 {
            assert(mem2.pte(n, k).bits == 0);
        }
    }
}

proof fn lemma_write_leaf(root: int, mem: &PhysMem, mem2: &PhysMem, vpn: u64, f: int, k: int, e: PageTableEntry)
    requires
        tree_wf(mem, root),
        tree_slot(mem, root, vpn) == Some((f, k)),
        written(mem, mem2, f, k, e),
    ensures
        tree_wf(mem2, root),
        tree_lookup(mem2, root, vpn) == Some(e),
        forall|v: u64| #[trigger] tree_slot(mem2, root, v) == tree_slot(mem, root, v),
        forall|v: u64| !same_slot(v, vpn) ==> #[trigger] tree_lookup(mem2, root, v) == tree_lookup(mem, root, v),
{
    let r = root;
    assert(tree_walkable(mem, root));
    assert(r < mem.frames());
    let i0 = vpn_index(vpn, 0);
    let i1 = vpn_index(vpn, 1);
    assert forall|i: int| 0 <= i < 512 implies #[trigger] mem2.pte(r, i) == mem.pte(r, i) by {}
    assert forall|i: int| #[trigger] tree_has_l1(mem2, root, i) <==> tree_has_l1(mem, root, i) by {
        if 0 <= i < 512 { assert(mem2.pte(r, i) == mem.pte(r, i)); }
    }
    assert forall|i: int| #[trigger] tree_has_l1(mem, root, i) implies tree_l1(mem2, root, i) == tree_l1(mem, root, i) by {
        assert(mem2.pte(r, i) == mem.pte(r, i));
    }
    assert forall|i: int, j: int| #[trigger] tree_has_l2(mem2, root, i, j) <==> tree_has_l2(mem, root, i, j) by {
        if tree_has_l1(mem, root, i) && 0 <= j < 512 {
            assert(mem2.pte(r, i) == mem.pte(r, i));
            let _ = mem2.pte(tree_l1(mem, root, i), j);
        }
    }
    assert forall|i: int, j: int| #[trigger] tree_has_l2(mem, root, i, j) implies tree_l2(mem2, root, i, j) == tree_l2(mem, root, i, j) by {
        assert(mem2.pte(r, i) == mem.pte(r, i));
        let _ = mem2.pte(tree_l1(mem, root, i), j);
    }
    assert forall|v: u64| #[trigger] tree_slot(mem2, root, v) == tree_slot(mem, root, v) by {}
    assert forall|v: u64| !same_slot(v, vpn) implies #[trigger] tree_lookup(mem2, root, v) == tree_lookup(mem, root, v) by {
        let i = vpn_index(v, 0);
        let j = vpn_index(v, 1);
        let k = vpn_index(v, 2);
        if tree_has_l2(mem, root, i, j) {
            let g = tree_l2(mem, root, i, j);
            assert(mem2.pte(g, k) == mem.pte(g, k));
        }
    }
}


impl PageTable {
    /// A page table with a fresh, empty root frame; `None` when no frame is left.
    pub fn new(mem: &mut PhysMem) -> (r: Option<PageTable>)
        requires
            old(mem).wf(),
        ensures
            final(mem).wf(),
            final(mem).capacity() == old(mem).capacity(),
            old(mem).same_ptes(final(mem)),
            old(mem).same_bytes(final(mem)),
            r is None <==> old(mem).frames() == old(mem).capacity(),
            r is None ==> final(mem).frames() == old(mem).frames(),
            r matches Some(t) ==> {
                &&& t.wf(final(mem))
                &&& t.root() == old(mem).frames()
                &&& final(mem).frames() == old(mem).frames() + 1
                &&& forall|v: u64| #[trigger] t.lookup(final(mem), v) is None
            },
    {
        match mem.frame_alloc() {
            Some(frame) => {
                let t = PageTable { root_ppn: frame, frames: vec![frame] };
                proof {
                    lemma_zero_entry();
                    assert forall|i: int| !#[trigger] t.has_l1(mem, i) by {
                        if 0 <= i < 512 { assert(mem.pte(t.root(), i).bits == 0); }
                    }
                    assert forall|v: u64| #[trigger] t.lookup(mem, v) is None by {
                        assert(!t.has_l1(mem, vpn_index(v, 0)));
                    }
                }
                Some(t)
            },
            None => None,
        }
    }

    /// The directory that entry `idx` of frame `parent` points to, allocating
    /// and linking a fresh one when the entry is not valid.
    fn ensure_child(&mut self, mem: &mut PhysMem, parent: PhysPageNum, idx: usize) -> (r: PhysPageNum)
        requires
            old(mem).wf(),
            parent.0 < old(mem).frames(),
            idx < 512,
            old(mem).pte(parent.0 as int, idx as int).valid_flag() ==>
                old(mem).pte(parent.0 as int, idx as int).ppn_of() < old(mem).frames(),
            !old(mem).pte(parent.0 as int, idx as int).valid_flag() ==>
                old(mem).frames() < old(mem).capacity(),
        ensures
            final(self).root() == old(self).root(),
            old(mem).pte(parent.0 as int, idx as int).valid_flag() ==> {
                &&& *final(mem) == *old(mem)
                &&& r.0 == old(mem).pte(parent.0 as int, idx as int).ppn_of()
                &&& final(self).dir_frames() == old(self).dir_frames()
            },
            !old(mem).pte(parent.0 as int, idx as int).valid_flag() ==> {
                &&& grown(old(mem), final(mem), parent.0 as int, idx as int, r.0 as int)
                &&& old(mem).same_bytes(final(mem))
                &&& final(self).dir_frames() == old(self).dir_frames().push(r)
            },
    {
        let pte = mem.read_pte(parent, idx);
        if pte.is_valid() {
            pte.ppn()
        } else {
            let frame = match mem.frame_alloc() {
                Some(f) => f,
                None => {
                    assert(false);
                    PhysPageNum(0)
                },
            };
            let ghost mid = *mem;
            mem.write_pte(parent, idx, PageTableEntry::new(frame, PTEFlags { bits: PTE_V }));
            self.frames.push(frame);
            proof {
                assert forall|k: int| 0 <= k < 512 implies (#[trigger] mem.pte(frame.0 as int, k)).bits == 0 by {
                    assert(mid.pte(frame.0 as int, k).bits == 0);
                }
                assert forall|q: int, k: int| 0 <= q < old(mem).frames() && 0 <= k < 512 implies
                    #[trigger] mem.pte(q, k) == if q == parent.0 && k == idx {
                        PageTableEntry { bits: pte_bits(frame.0, PTE_V) }
                    } else {
                        old(mem).pte(q, k)
                    } by {
                    assert(mid.pte(q, k) == old(mem).pte(q, k));
                }
                assert forall|p: int, o: int| 0 <= p < old(mem).frames() && 0 <= o < 4096 implies
                    #[trigger] mem.byte(p, o) == old(mem).byte(p, o) by {
                    assert(mid.byte(p, o) == old(mem).byte(p, o));
                }
            }
            frame
        }
    }

    /// The leaf entry slot of `vpn`, creating the missing directories on the way.
    fn find_pte_create(&mut self, mem: &mut PhysMem, vpn: VirtPageNum) -> (r: Option<(PhysPageNum, usize)>)
        requires
            old(self).wf(old(mem)),
            old(mem).frames() + old(self).frames_needed(old(mem), vpn.0) <= old(mem).capacity(),
        ensures
            final(self).root() == old(self).root(),
            final(self).wf(final(mem)),
            final(mem).capacity() == old(mem).capacity(),
            final(mem).frames() == old(mem).frames() + old(self).frames_needed(old(mem), vpn.0),
            old(mem).same_bytes(final(mem)),
            r matches Some((f, k)) && final(self).slot(final(mem), vpn.0) == Some((f.0 as int, k as int)),
            forall|v: u64| #[trigger] final(self).mapping(final(mem), v) == old(self).mapping(old(mem), v),
            forall|q: int, k: int| 0 <= q < old(mem).frames() && 0 <= k < 512 && old(mem).pte(q, k).valid_flag()
                ==> #[trigger] final(mem).pte(q, k) == old(mem).pte(q, k),
            old(self).slot(old(mem), vpn.0) is Some ==> {
                &&& *final(mem) == *old(mem)
                &&& final(self).dir_frames() == old(self).dir_frames()
            },
            !old(self).has_l1(old(mem), vpn_index(vpn.0, 0)) ==> {
                let n = old(mem).frames();
                &&& final(mem).pte(old(self).root(), vpn_index(vpn.0, 0)) == (PageTableEntry { bits: pte_bits(n as u64, PTE_V) })
                &&& final(mem).pte(n as int, vpn_index(vpn.0, 1)) == (PageTableEntry { bits: pte_bits((n + 1) as u64, PTE_V) })
                &&& final(self).dir_frames() == old(self).dir_frames().push(PhysPageNum(n as u64)).push(PhysPageNum((n + 1) as u64))
            },
            old(self).has_l1(old(mem), vpn_index(vpn.0, 0)) && !old(self).has_l2(old(mem), vpn_index(vpn.0, 0), vpn_index(vpn.0, 1)) ==> {
                let n = old(mem).frames();
                &&& final(mem).pte(old(self).l1(old(mem), vpn_index(vpn.0, 0)), vpn_index(vpn.0, 1))
                    == (PageTableEntry { bits: pte_bits(n as u64, PTE_V) })
                &&& final(self).dir_frames() == old(self).dir_frames().push(PhysPageNum(n as u64))
            },
    {
        let idxs = vpn.indexes();
        let ghost m0 = *mem;
        proof {
            let ghost i0 = idxs[0] as int;
            if self.has_l1(mem, i0) {
                assert(self.l1(mem, i0) < mem.frames());
            }
        }
        let root = self.root_ppn;
        let f1 = self.ensure_child(mem, root, idxs[0]);
        let ghost m1 = *mem;
        proof {
            if !m0.pte(root.0 as int, idxs[0] as int).valid_flag() {
                lemma_grow_root(self.root(), &m0, &m1, idxs[0] as int, f1.0 as int);
            } else {
                assert(self.has_l1(&m0, idxs[0] as int));
            }
            assert(self.has_l1(&m1, idxs[0] as int));
            assert(self.l1(&m1, idxs[0] as int) == f1.0);
            if self.has_l2(&m1, idxs[0] as int, idxs[1] as int) {
                assert(self.l2(&m1, idxs[0] as int, idxs[1] as int) < m1.frames());
            }
        }
        let f2 = self.ensure_child(mem, f1, idxs[1]);
        proof {
            if !m1.pte(f1.0 as int, idxs[1] as int).valid_flag() {
                lemma_grow_dir(self.root(), &m1, mem, idxs[0] as int, idxs[1] as int, f2.0 as int);
                assert forall|p: int, o: int| 0 <= p < m0.frames() && 0 <= o < 4096 implies
                    #[trigger] mem.byte(p, o) == m0.byte(p, o) by {
                    assert(m1.byte(p, o) == m0.byte(p, o));
                }
            } else {
                assert(self.has_l2(mem, idxs[0] as int, idxs[1] as int));
            }
        }
        Some((f2, idxs[2]))
    }

    /// The leaf entry slot of `vpn`, or `None` when the walk meets an invalid
    /// directory entry.
    fn find_pte(&self, mem: &PhysMem, vpn: VirtPageNum) -> (r: Option<(PhysPageNum, usize)>)
        requires
            self.walkable(mem),
        ensures
            match r {
                Some((f, k)) => self.slot(mem, vpn.0) == Some((f.0 as int, k as int)),
                None => self.slot(mem, vpn.0) is None,
            },
    {
        let idxs = vpn.indexes();
        let e0 = mem.read_pte(self.root_ppn, idxs[0]);
        if !e0.is_valid() {
            return None;
        }
        proof { assert(self.has_l1(mem, idxs[0] as int)); }
        let f1 = e0.ppn();
        let e1 = mem.read_pte(f1, idxs[1]);
        if !e1.is_valid() {
            return None;
        }
        proof { assert(self.has_l2(mem, idxs[0] as int, idxs[1] as int)); }
        Some((e1.ppn(), idxs[2]))
    }

    /// Maps `vpn` to `ppn` with `flags` (the valid flag is added).
    pub fn map(&mut self, mem: &mut PhysMem, vpn: VirtPageNum, ppn: PhysPageNum, flags: PTEFlags)
        requires
            old(self).wf(old(mem)),
            old(self).mapping(old(mem), vpn.0) is None,
            old(mem).frames() + old(self).frames_needed(old(mem), vpn.0) <= old(mem).capacity(),
        ensures
            final(self).root() == old(self).root(),
            final(self).wf(final(mem)),
            final(mem).capacity() == old(mem).capacity(),
            final(mem).frames() == old(mem).frames() + old(self).frames_needed(old(mem), vpn.0),
            old(mem).same_bytes(final(mem)),
            final(self).lookup(final(mem), vpn.0) == Some(PageTableEntry { bits: pte_bits(ppn.0, flags.bits | PTE_V) }),
            forall|v: u64| !same_slot(v, vpn.0) ==>
                #[trigger] final(self).mapping(final(mem), v) == old(self).mapping(old(mem), v),
    {
        let slot = self.find_pte_create(mem, vpn);
        let (f, k) = match slot {
            Some(s) => s,
            None => {
                assert(false);
                (PhysPageNum(0), 0)
            },
        };
        let ghost m1 = *mem;
        proof {
            assert(self.slot(&m1, vpn.0) == Some((f.0 as int, k as int)));
            assert(f.0 < m1.frames());
        }
        let e = PageTableEntry::new(ppn, PTEFlags { bits: flags.bits | PTE_V });
        mem.write_pte(f, k, e);
        proof {
            lemma_write_leaf(self.root(), &m1, mem, vpn.0, f.0 as int, k as int, e);
            assert forall|v: u64| !same_slot(v, vpn.0) implies
                #[trigger] self.mapping(mem, v) == old(self).mapping(old(mem), v) by {
                assert(self.mapping(&m1, v) == old(self).mapping(old(mem), v));
            }
            assert forall|p: int, o: int| 0 <= p < old(mem).frames() && 0 <= o < 4096 implies
                #[trigger] mem.byte(p, o) == old(mem).byte(p, o) by {
                assert(m1.byte(p, o) == old(mem).byte(p, o));
            }
        }
    }

    /// Removes the mapping of `vpn`.
    pub fn unmap(&mut self, mem: &mut PhysMem, vpn: VirtPageNum)
        requires
            old(self).wf(old(mem)),
            old(self).mapping(old(mem), vpn.0) is Some,
        ensures
            final(self).root() == old(self).root(),
            final(self).wf(final(mem)),
            final(mem).capacity() == old(mem).capacity(),
            final(mem).frames() == old(mem).frames(),
            old(mem).same_bytes(final(mem)),
            final(self).lookup(final(mem), vpn.0) == Some(PageTableEntry { bits: 0 }),
            forall|v: u64| !same_slot(v, vpn.0) ==>
                #[trigger] final(self).lookup(final(mem), v) == old(self).lookup(old(mem), v),
    {
        let (f, k) = match self.find_pte(mem, vpn) {
            Some(s) => s,
            None => {
                assert(false);
                (PhysPageNum(0), 0)
            },
        };
        proof {
            assert(f.0 < mem.frames());
        }
        mem.write_pte(f, k, PageTableEntry::empty());
        proof {
            lemma_write_leaf(self.root(), old(mem), mem, vpn.0, f.0 as int, k as int, PageTableEntry { bits: 0 });
        }
    }

    /// A view of the page table whose root is named by the `satp` value `satp`.
    pub fn from_token(satp: u64) -> (r: PageTable)
        ensures
            r.root() == satp & PPN_MASK,
    {
        proof { lemma_mask_below(satp); }
        PageTable { root_ppn: PhysPageNum::from_usize_bits(satp & PPN_MASK), frames: Vec::new() }
    }

    /// The leaf entry of `vpn`, valid or not, if the walk reaches a leaf frame.
    pub fn translate(&self, mem: &PhysMem, vpn: VirtPageNum) -> (r: Option<PageTableEntry>)
        requires
            self.walkable(mem),
        ensures
            r == self.lookup(mem, vpn.0),
    {
        match self.find_pte(mem, vpn) {
            Some((f, k)) => Some(mem.read_pte(f, k)),
            None => None,
        }
    }

    /// The `satp` value that selects this table in Sv39 mode.
    pub fn token(&self) -> (r: u64)
        ensures
            r == (8u64 << 60u64) | (self.root() as u64),
    {
        8u64 << 60u64 | self.root_ppn.0
    }

    /// Where the byte at `va` lives, if its page may be read.
    pub fn translate_va(&self, mem: &PhysMem, va: VirtAddr) -> (r: Option<(PhysPageNum, usize)>)
        requires
            self.walkable(mem),
        ensures
            match r {
                Some((p, o)) => self.va_location(mem, va.0) == Some((p.0, o as u64)),
                None => self.va_location(mem, va.0) is None,
            },
    {
        let vpn = va.floor();
        if let Some(ppe) = self.translate(mem, vpn) {
            if !ppe.readable() {
                return None;
            }
            let ppn = ppe.ppn();
            return Some((ppn, va.page_offset() as usize));
        }
        None
    }
}

proof fn lemma_mask_below(x: u64)
    ensures
        x & PPN_MASK < PPN_SPACE,
        (x & PPN_MASK) % PPN_SPACE == x & PPN_MASK,
{
    assert(x & 0xfff_ffff_ffffu64 < 0x1000_0000_0000u64) by (bit_vector);
}

/// A walkable tree lives in a well-formed memory.
pub proof fn lemma_walkable_mem(mem: &PhysMem, root: int)
    requires
        tree_walkable(mem, root),
    ensures
        mem.wf(),
        0 <= root < mem.frames(),
{
}

/// A well-formed memory has fewer frames than there are page numbers.
pub proof fn lemma_mem_bounds(mem: &PhysMem)
    requires
        mem.wf(),
    ensures
        mem.frames() <= mem.capacity(),
        mem.capacity() < PPN_SPACE,
{
}

proof fn lemma_same_tables_dir(mem: &PhysMem, mem2: &PhysMem, root: int)
    requires
        mem2.wf(),
        mem2.frames() == mem.frames(),
        mem.same_ptes(mem2),
        tree_walkable(mem, root),
    ensures
        tree_walkable(mem2, root),
        forall|v: u64| #[trigger] tree_lookup(mem2, root, v) == tree_lookup(mem, root, v),
{
    assert forall|i: int| 0 <= i < 512 implies #[trigger] mem2.pte(root, i) == mem.pte(root, i) by {}
    assert forall|i: int| #[trigger] tree_has_l1(mem2, root, i) == tree_has_l1(mem, root, i) by {
        if 0 <= i < 512 { assert(mem2.pte(root, i) == mem.pte(root, i)); }
    }
    assert forall|i: int| #[trigger] tree_has_l1(mem, root, i) implies tree_l1(mem2, root, i) == tree_l1(mem, root, i) by {
        assert(mem2.pte(root, i) == mem.pte(root, i));
    }
    assert forall|i: int, j: int| #[trigger] tree_has_l2(mem2, root, i, j) == tree_has_l2(mem, root, i, j) by {
        if tree_has_l1(mem, root, i) && 0 <= j < 512 {
            assert(mem2.pte(root, i) == mem.pte(root, i));
            let _ = mem2.pte(tree_l1(mem, root, i), j);
        }
    }
    assert forall|i: int, j: int| #[trigger] tree_has_l2(mem, root, i, j) implies
        tree_l2(mem2, root, i, j) == tree_l2(mem, root, i, j) by {
        assert(mem2.pte(root, i) == mem.pte(root, i));
        let _ = mem2.pte(tree_l1(mem, root, i), j);
    }
    assert forall|v: u64| #[trigger] tree_lookup(mem2, root, v) == tree_lookup(mem, root, v) by {
        let i = vpn_index(v, 0);
        let j = vpn_index(v, 1);
        if tree_has_l2(mem, root, i, j) {
            let f = tree_l2(mem, root, i, j);
            let _ = mem2.pte(f, vpn_index(v, 2));
        }
    }
}

/// Page tables read only page-table entries: a memory with the same entries
/// holds the same tables.
pub proof fn lemma_same_tables(mem: &PhysMem, mem2: &PhysMem, root: int)
    requires
        mem.wf(),
        mem2.wf(),
        mem2.frames() == mem.frames(),
        mem.same_ptes(mem2),
    ensures
        tree_walkable(mem2, root) == tree_walkable(mem, root),
        tree_walkable(mem, root) ==> forall|v: u64| #[trigger] tree_lookup(mem2, root, v) == tree_lookup(mem, root, v),
{
    if tree_walkable(mem, root) {
        lemma_same_tables_dir(mem, mem2, root);
    }
    if tree_walkable(mem2, root) {
        assert forall|p: int, i: int| 0 <= p < mem2.frames() && 0 <= i < 512 implies
            #[trigger] mem.pte(p, i) == mem2.pte(p, i) by {
            assert(mem2.pte(p, i) == mem.pte(p, i));
        }
        lemma_same_tables_dir(mem2, mem, root);
    }
}

/// The token of a table names the table again: `from_token` gives back the
/// same root frame.
pub proof fn lemma_token_roundtrip(t: &PageTable)
    requires
        t.root() < PPN_SPACE,
    ensures
        ((8u64 << 60u64) | (t.root() as u64)) & PPN_MASK == t.root(),
{
    let r = t.root() as u64;
    assert(((8u64 << 60u64) | r) & 0xfff_ffff_ffffu64 == r) by (bit_vector)
        requires r < 0x1000_0000_0000u64;
}

} // verus!
