use vstd::prelude::*;

verus! {

/// Width of an Sv39 virtual address.
pub const VA_WIDTH_SV39: u64 = 39;
/// Width of a physical page number.
pub const PPN_WIDTH_SV39: u64 = 44;
/// Number of virtual addresses: 2^39.
pub const VA_SPACE: u64 = 0x80_0000_0000;
/// Half of the virtual address space: 2^38; from here on addresses are
/// sign-extended when turned back into machine words.
pub const VA_HALF: u64 = 0x40_0000_0000;
/// Number of physical page numbers: 2^44.
pub const PPN_SPACE: u64 = 0x1000_0000_0000;
/// Number of virtual page numbers: 2^27.
pub const VPN_SPACE: u64 = 0x800_0000;
/// The trap context page of every address space, as a 64-bit address: the
/// page just below the trampoline.
pub const TRAP_CONTEXT_VA: u64 = 0xffff_ffff_ffff_e000;
/// Size of a page, as a 64-bit quantity.
pub const PAGE_SIZE_U64: u64 = 4096;

/// A physical page number.
#[derive(Clone, Copy, PartialEq, Eq, Structural, Debug)]
pub struct PhysPageNum(pub u64);

/// A virtual page number.
#[derive(Clone, Copy, PartialEq, Eq, Structural, Debug)]
pub struct VirtPageNum(pub u64);

/// An Sv39 virtual address (its low 39 bits).
#[derive(Clone, Copy, PartialEq, Eq, Structural, Debug)]
pub struct VirtAddr(pub u64);

/// The index that `vpn` selects in the page-table frame of `level`
/// (0 for the root, 2 for the leaf level).
pub open spec fn vpn_index(vpn: u64, level: int) -> int {
    if level == 0 {
        ((vpn / 0x4_0000) % 512) as int
    } else if level == 1 {
        ((vpn / 512) % 512) as int
    } else {
        (vpn % 512) as int
    }
}

impl PhysPageNum {
    /// A physical page number from a machine word: its low 44 bits.
    pub fn from_usize_bits(v: u64) -> (r: PhysPageNum)
        ensures
            r.0 == v % PPN_SPACE,
    {
        PhysPageNum(v % PPN_SPACE)
    }
}

impl VirtAddr {
    /// A virtual address from a machine word: its low 39 bits.
    pub fn from_word(v: u64) -> (r: VirtAddr)
        ensures
            r.0 == v % VA_SPACE,
    {
        VirtAddr(v % VA_SPACE)
    }

    /// The address at which the page `vpn` starts.
    pub fn from_vpn(vpn: VirtPageNum) -> (r: VirtAddr)
        requires
            vpn.0 <= VPN_SPACE,
        ensures
            r.0 == vpn.0 * PAGE_SIZE_U64,
    {
        VirtAddr(vpn.0 * PAGE_SIZE_U64)
    }

    /// The machine word of this address: sign-extended from bit 38.
    pub fn to_word(self) -> (r: u64)
        requires
            self.0 < VA_SPACE,
        ensures
            self.0 < VA_HALF ==> r == self.0,
            self.0 >= VA_HALF ==> r == self.0 + (u64::MAX - VA_SPACE + 1),
    {
        if self.0 >= VA_HALF {
            self.0 + (u64::MAX - VA_SPACE + 1)
        } else {
            self.0
        }
    }

    /// The page that holds this address.
    pub fn floor(self) -> (r: VirtPageNum)
        ensures
            r.0 == self.0 / PAGE_SIZE_U64,
    {
        VirtPageNum(self.0 / PAGE_SIZE_U64)
    }

    /// The offset of this address inside its page.
    pub fn page_offset(self) -> (r: u64)
        ensures
            r == self.0 % PAGE_SIZE_U64,
    {
        self.0 % PAGE_SIZE_U64
    }

    /// The smaller of two addresses.
    pub fn min(self, other: VirtAddr) -> (r: VirtAddr)
        ensures
            r.0 == if self.0 <= other.0 { self.0 } else { other.0 },
    {
        if self.0 <= other.0 {
            self
        } else {
            other
        }
    }
}

impl VirtPageNum {
    /// The three page-table indices of this page, root level first.
    pub fn indexes(&self) -> (r: [usize; 3])
        ensures
            r[0] == vpn_index(self.0, 0),
            r[1] == vpn_index(self.0, 1),
            r[2] == vpn_index(self.0, 2),
            r[0] < 512 && r[1] < 512 && r[2] < 512,
    {
        let i0 = ((self.0 / 0x4_0000) % 512) as usize;
        let i1 = ((self.0 / 512) % 512) as usize;
        let i2 = (self.0 % 512) as usize;
        [i0, i1, i2]
    }

    /// The next page.
    pub fn step(&mut self)
        requires
            old(self).0 < u64::MAX,
        ensures
            final(self).0 == old(self).0 + 1,
    {
        self.0 = self.0 + 1;
    }
}

} // verus!
