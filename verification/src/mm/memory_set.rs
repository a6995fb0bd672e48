use vstd::prelude::*;
use crate::mm::address::{PPN_SPACE, VirtPageNum};
use crate::mm::page_table::{
    PageTable, PageTableEntry, PhysMem, PPN_MASK, tree_lookup, tree_walkable, token_root,
    lemma_walkable_mem, lemma_mem_bounds, lemma_token_roundtrip,
};

verus! {

/// An address space: the page table that describes it.
pub struct MemorySet {
    page_table: PageTable,
}

impl MemorySet {
    /// The root frame of the address space's page table.
    pub closed spec fn root(&self) -> int {
        self.page_table.root()
    }

    /// The `satp` value that selects this address space.
    pub open spec fn satp(&self) -> u64 {
        (8u64 << 60u64) | (self.root() as u64)
    }

    /// The address space described by `page_table`.
    pub fn from_page_table(page_table: PageTable) -> (r: MemorySet)
        ensures
            r.root() == page_table.root(),
    {
        MemorySet { page_table }
    }

    /// The `satp` value that selects this address space.
    pub fn token(&self) -> (r: u64)
        ensures
            r == self.satp(),
    {
        self.page_table.token()
    }

    /// The leaf entry of `vpn`, valid or not, if the walk reaches a leaf frame.
    pub fn translate(&self, mem: &PhysMem, vpn: VirtPageNum) -> (r: Option<PageTableEntry>)
        requires
            tree_walkable(mem, self.root()),
        ensures
            r == tree_lookup(mem, self.root(), vpn.0),
    {
        self.page_table.translate(mem, vpn)
    }
}

/// The token of a walkable address space names its page table again.
pub proof fn lemma_satp_names_root(ms: &MemorySet, mem: &PhysMem)
    requires
        tree_walkable(mem, ms.root()),
    ensures
        token_root(ms.satp()) == ms.root(),
{
    lemma_walkable_mem(mem, ms.root());
    lemma_mem_bounds(mem);
    lemma_token_roundtrip(&ms.page_table);
}

} // verus!
