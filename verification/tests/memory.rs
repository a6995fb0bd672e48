use wcore::config::{kernel_stack_position, KERNEL_STACK_SIZE, PAGE_SIZE, TRAMPOLINE};
use wcore::mm::address::{PhysPageNum, VirtAddr, VirtPageNum};
use wcore::mm::page_table::{PageTable, PageTableEntry, PhysMem, PTEFlags, PTE_R, PTE_U, PTE_V, PTE_W, PTE_X};
use wcore::mm::user_buffer::{
    buffer_walk_faults, translate_memcopy, translate_str, translated_byte_buffer, translated_byte_buffer_mut,
};

fn flags(bits: u8) -> PTEFlags {
    PTEFlags { bits }
}

#[test]
fn kernel_stacks_sit_below_the_trampoline() {
    let (bottom, top) = kernel_stack_position(0);
    assert_eq!(top, TRAMPOLINE);
    assert_eq!(top, usize::MAX - 4095);
    assert_eq!(bottom, top - KERNEL_STACK_SIZE);
    let (bottom1, top1) = kernel_stack_position(1);
    assert_eq!(top1, TRAMPOLINE - (KERNEL_STACK_SIZE + PAGE_SIZE));
    assert_eq!(bottom1, top1 - 8192);
}

#[test]
fn kernel_stacks_are_separated_by_a_guard_page() {
    for a in 0..10usize {
        let (bottom_a, top_a) = kernel_stack_position(a);
        let (_, top_b) = kernel_stack_position(a + 1);
        assert_eq!(top_a - bottom_a, KERNEL_STACK_SIZE);
        assert!(top_b + PAGE_SIZE <= bottom_a);
        assert_eq!(top_b + PAGE_SIZE, bottom_a);
    }
}

#[test]
fn entry_gives_back_page_number_and_flags() {
    let e = PageTableEntry::new(PhysPageNum(0x8_0123), flags(PTE_V | PTE_R | PTE_X));
    assert_eq!(e.bits, (0x8_0123u64 << 10) | 0b1011);
    assert_eq!(e.ppn(), PhysPageNum(0x8_0123));
    assert_eq!(e.flags().bits, PTE_V | PTE_R | PTE_X);
    assert!(e.is_valid());
    assert!(e.readable());
    assert!(!e.writable());
    assert!(e.executable());
    let largest = PageTableEntry::new(PhysPageNum((1u64 << 44) - 1), flags(0xff));
    assert_eq!(largest.ppn(), PhysPageNum((1u64 << 44) - 1));
    assert_eq!(largest.flags().bits, 0xff);
    let empty = PageTableEntry::empty();
    assert!(!empty.is_valid());
    assert_eq!(empty.ppn(), PhysPageNum(0));
}

#[test]
fn flag_set_operations() {
    let rw = flags(PTE_R).union(flags(PTE_W));
    assert_eq!(rw.bits(), 6);
    assert!(rw.intersection(flags(PTE_X)).is_empty());
    assert!(!rw.intersection(flags(PTE_W)).is_empty());
    assert_eq!(PTEFlags::from_bits(0x5a), Some(flags(0x5a)));
    assert!(PTEFlags::empty().is_empty());
}

#[test]
fn virtual_page_indexes() {
    let vpn = VirtPageNum((3 << 18) | (5 << 9) | 7);
    assert_eq!(vpn.indexes(), [3, 5, 7]);
    let va = VirtAddr::from_word(0x1234_5678);
    assert_eq!(va.floor(), VirtPageNum(0x12345));
    assert_eq!(va.page_offset(), 0x678);
    assert_eq!(VirtAddr::from_word(u64::MAX).0, (1u64 << 39) - 1);
    assert_eq!(VirtAddr((1u64 << 38) + 1).to_word(), 0xffff_ffc0_0000_0001);
    let mut v = VirtPageNum(9);
    v.step();
    assert_eq!(v, VirtPageNum(10));
}

#[test]
fn frames_run_out() {
    let mut mem = PhysMem::new(2);
    assert_eq!(mem.frame_alloc(), Some(PhysPageNum(0)));
    assert_eq!(mem.frame_alloc(), Some(PhysPageNum(1)));
    assert_eq!(mem.frame_alloc(), None);
    assert_eq!(mem.frame_count(), 2);
    assert!(PageTable::new(&mut mem).is_none());
}

#[test]
fn map_then_translate_gives_the_entry() {
    let mut mem = PhysMem::new(16);
    let mut pt = PageTable::new(&mut mem).unwrap();
    assert_eq!(mem.frame_count(), 1);
    let vpn = VirtPageNum(0x10);
    assert_eq!(pt.translate(&mem, vpn), None);
    pt.map(&mut mem, vpn, PhysPageNum(0x80000), flags(PTE_R | PTE_W | PTE_U));
    // two directories were created
    assert_eq!(mem.frame_count(), 3);
    let e = pt.translate(&mem, vpn).unwrap();
    assert_eq!(e, PageTableEntry::new(PhysPageNum(0x80000), flags(PTE_R | PTE_W | PTE_U | PTE_V)));
    assert!(e.is_valid());
    // a neighbour in the same leaf frame has an invalid entry
    let n = pt.translate(&mem, VirtPageNum(0x11)).unwrap();
    assert!(!n.is_valid());
    // a page far away has no leaf frame at all
    assert_eq!(pt.translate(&mem, VirtPageNum(1 << 18)), None);
    // a second page in the same leaf frame needs no new frame
    pt.map(&mut mem, VirtPageNum(0x11), PhysPageNum(0x80001), flags(PTE_R));
    assert_eq!(mem.frame_count(), 3);
    assert_eq!(pt.translate(&mem, vpn), Some(e));
}

#[test]
fn unmap_leaves_an_empty_entry_and_others_alone() {
    let mut mem = PhysMem::new(16);
    let mut pt = PageTable::new(&mut mem).unwrap();
    pt.map(&mut mem, VirtPageNum(0x10), PhysPageNum(7), flags(PTE_R));
    pt.map(&mut mem, VirtPageNum(0x20), PhysPageNum(8), flags(PTE_W));
    pt.unmap(&mut mem, VirtPageNum(0x10));
    assert_eq!(pt.translate(&mem, VirtPageNum(0x10)), Some(PageTableEntry::empty()));
    let other = pt.translate(&mem, VirtPageNum(0x20)).unwrap();
    assert_eq!(other.ppn(), PhysPageNum(8));
    assert!(other.writable());
}

#[test]
fn token_names_the_table() {
    let mut mem = PhysMem::new(4);
    let _ = mem.frame_alloc();
    let pt = PageTable::new(&mut mem).unwrap();
    let token = pt.token();
    assert_eq!(token, (8u64 << 60) | 1);
    let again = PageTable::from_token(token);
    assert_eq!(again.token(), token);
}

#[test]
fn translate_va_needs_a_readable_page() {
    let mut mem = PhysMem::new(16);
    let mut pt = PageTable::new(&mut mem).unwrap();
    let data = mem.frame_alloc().unwrap();
    pt.map(&mut mem, VirtPageNum(2), data, flags(PTE_R | PTE_U));
    pt.map(&mut mem, VirtPageNum(3), data, flags(PTE_W | PTE_U));
    assert_eq!(pt.translate_va(&mem, VirtAddr(0x2abc)), Some((data, 0xabc)));
    assert_eq!(pt.translate_va(&mem, VirtAddr(0x3abc)), None);
    assert_eq!(pt.translate_va(&mem, VirtAddr(0x9000)), None);
}

/// A table with pages 1..=3 mapped to fresh frames, 1 and 2 writable, 3 read-only.
fn user_space(mem: &mut PhysMem) -> (PageTable, Vec<PhysPageNum>) {
    let mut pt = PageTable::new(mem).unwrap();
    let mut frames = Vec::new();
    for vpn in 1..=3u64 {
        let f = mem.frame_alloc().unwrap();
        let bits = if vpn == 3 { PTE_R | PTE_U } else { PTE_R | PTE_W | PTE_U };
        pt.map(mem, VirtPageNum(vpn), f, flags(bits));
        frames.push(f);
    }
    (pt, frames)
}

#[test]
fn buffer_across_pages_splits_into_pieces() {
    let mut mem = PhysMem::new(32);
    let (pt, frames) = user_space(&mut mem);
    let token = pt.token();
    let segs = translated_byte_buffer(&mem, token, 0x1ff0, 0x20).unwrap();
    assert_eq!(segs.len(), 2);
    assert_eq!((segs[0].ppn, segs[0].start, segs[0].end), (frames[0], 0xff0, 4096));
    assert_eq!((segs[1].ppn, segs[1].start, segs[1].end), (frames[1], 0, 0x10));
    let whole = translated_byte_buffer(&mem, token, 0x1000, 0x1000).unwrap();
    assert_eq!(whole.len(), 1);
    assert_eq!((whole[0].start, whole[0].end), (0, 4096));
    assert_eq!(translated_byte_buffer(&mem, token, 0x1000, 0).unwrap().len(), 0);
}

#[test]
fn writable_buffer_needs_writable_pages() {
    let mut mem = PhysMem::new(32);
    let (pt, _) = user_space(&mut mem);
    let token = pt.token();
    assert!(translated_byte_buffer_mut(&mem, token, 0x2ff0, 0x10).is_some());
    assert!(translated_byte_buffer_mut(&mem, token, 0x2ff0, 0x20).is_none());
    assert!(translated_byte_buffer(&mem, token, 0x2ff0, 0x20).is_some());
}

#[test]
fn unmapped_buffer_faults() {
    let mut mem = PhysMem::new(32);
    let (pt, _) = user_space(&mut mem);
    let token = pt.token();
    assert!(!buffer_walk_faults(&mem, token, 0x1000, 0x3000, false));
    // pages 0..4 share one leaf frame; page 1 << 9 has none
    assert!(!buffer_walk_faults(&mem, token, 0x3ff0, 0x20, false));
    assert!(!buffer_walk_faults(&mem, token, 0x1ff000, 0x2000, false));
    assert!(buffer_walk_faults(&mem, token, 0x200000, 0x10, false));
}

#[test]
fn memcopy_then_read_back() {
    let mut mem = PhysMem::new(32);
    let (pt, frames) = user_space(&mut mem);
    let token = pt.token();
    let src: Vec<u8> = (0..40u8).collect();
    assert_eq!(translate_memcopy(&mut mem, token, 0x1fec, &src), Ok(()));
    for (i, b) in src.iter().enumerate() {
        let va = 0x1fec + i as u64;
        let (p, o) = pt.translate_va(&mem, VirtAddr(va)).unwrap();
        assert_eq!(mem.read_byte(p, o), *b);
    }
    assert_eq!(mem.read_byte(frames[0], 0xfec), 0);
    assert_eq!(mem.read_byte(frames[1], 0x13), 39);
    // page 3 is read-only: nothing is written
    assert_eq!(translate_memcopy(&mut mem, token, 0x2ffe, &src), Err(()));
    assert_eq!(mem.read_byte(frames[1], 0xffe), 0);
}

#[test]
fn strings_end_at_zero_or_fail() {
    let mut mem = PhysMem::new(32);
    let (pt, _) = user_space(&mut mem);
    let token = pt.token();
    let name = b"wsh\0".to_vec();
    assert_eq!(translate_memcopy(&mut mem, token, 0x1ffe, &name), Ok(()));
    assert_eq!(translate_str(&mem, token, 0x1ffe), Some(b"wsh".to_vec()));
    assert_eq!(translate_str(&mem, token, 0x2001), Some(Vec::new()));
    // a string that runs into the next page goes on there
    let fill = vec![b'x'; 16];
    assert_eq!(translate_memcopy(&mut mem, token, 0x2ff0, &fill), Ok(()));
    assert_eq!(translate_str(&mem, token, 0x2ff0), Some(fill.clone()));
    // once that page is gone the string cannot be read
    let mut pt = pt;
    pt.unmap(&mut mem, VirtPageNum(3));
    assert_eq!(translate_str(&mem, token, 0x2ff0), None);
}

#[test]
fn upper_half_buffers_are_walked() {
    let mut mem = PhysMem::new(32);
    let (mut pt, _) = user_space(&mut mem);
    let token = pt.token();
    // the two pages below the top of the address space, read-write
    let hi1 = mem.frame_alloc().unwrap();
    let hi2 = mem.frame_alloc().unwrap();
    pt.map(&mut mem, VirtPageNum(0x7ff_fffe), hi1, flags(PTE_R | PTE_W));
    pt.map(&mut mem, VirtPageNum(0x7ff_ffff), hi2, flags(PTE_R | PTE_W));
    let base = 0xffff_ffff_ffff_eff8u64;
    let segs = translated_byte_buffer(&mem, token, base, 0x10).unwrap();
    assert_eq!(segs.len(), 2);
    assert_eq!((segs[0].ppn, segs[0].start, segs[0].end), (hi1, 0xff8, 4096));
    assert_eq!((segs[1].ppn, segs[1].start, segs[1].end), (hi2, 0, 8));
    let src: Vec<u8> = (1..=16u8).collect();
    assert_eq!(translate_memcopy(&mut mem, token, base, &src), Ok(()));
    assert_eq!(mem.read_byte(hi1, 0xff8), 1);
    assert_eq!(mem.read_byte(hi2, 7), 16);
    assert!(!buffer_walk_faults(&mem, token, base, 0x10, true));
    // up to the last byte before the top of the address space
    assert_eq!(translated_byte_buffer_mut(&mem, token, u64::MAX - 1, 1).unwrap().len(), 1);
    // a lower-half buffer that ends exactly at the middle is walked too
    assert!(buffer_walk_faults(&mem, token, 0x3f_ffff_f000, 0x1000, false));
}
