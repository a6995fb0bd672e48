use vstd::prelude::*;

verus! {

/// Size of a user stack.
pub const USER_STACK_SIZE: usize = 8192;
/// Size of a kernel stack.
pub const KERNEL_STACK_SIZE: usize = 8192;
/// Frequency of the machine timer (QEMU virt board).
pub const CLOCK_FREQ: usize = 12500000;
/// Size of the kernel heap.
pub const KERNEL_HEAP_SIZE: usize = 0x40_0000;
/// Size of a page.
pub const PAGE_SIZE: usize = 4096;
/// Number of offset bits inside a page.
pub const PAGE_BITS_SIZE: usize = 12;
/// End of the physical memory the kernel manages.
pub const MEMORY_END: usize = 0x8080_0000;
/// Virtual address of the trampoline page: the highest page of the address space.
pub const TRAMPOLINE: usize = usize::MAX - PAGE_SIZE + 1;
/// Virtual address of the trap context page, just below the trampoline.
pub const TRAP_CONTEXT: usize = TRAMPOLINE - PAGE_SIZE;

/// Bottom of the kernel stack of `app_id`, as a mathematical integer.
pub open spec fn kernel_stack_bottom(app_id: int) -> int {
    kernel_stack_top(app_id) - KERNEL_STACK_SIZE
}

/// Top of the kernel stack of `app_id`: stacks are laid out downwards from the
/// trampoline, each followed by one guard page.
pub open spec fn kernel_stack_top(app_id: int) -> int {
    TRAMPOLINE - app_id * (KERNEL_STACK_SIZE + PAGE_SIZE)
}

/// Whether the kernel stack of `app_id` lies inside the address space.
pub open spec fn kernel_stack_fits(app_id: int) -> bool {
    0 <= app_id && kernel_stack_bottom(app_id) >= 0
}

/// Returns `(bottom, top)` of the kernel stack of `app_id` in kernel space.
pub fn kernel_stack_position(app_id: usize) -> (r: (usize, usize))
    requires
        kernel_stack_fits(app_id as int),
    ensures
        r.0 == kernel_stack_bottom(app_id as int),
        r.1 == kernel_stack_top(app_id as int),
{
    assert(app_id * (KERNEL_STACK_SIZE + PAGE_SIZE) <= TRAMPOLINE) by (nonlinear_arith)
        requires
            TRAMPOLINE - app_id * (KERNEL_STACK_SIZE + PAGE_SIZE) - KERNEL_STACK_SIZE >= 0;
    let top = TRAMPOLINE - app_id * (KERNEL_STACK_SIZE + PAGE_SIZE);
    let bottom = top - KERNEL_STACK_SIZE;
    (bottom, top)
}

/// Every kernel stack is `KERNEL_STACK_SIZE` bytes long, and the stacks of two
/// different applications never overlap: between them lies at least one
/// unmapped guard page.
pub proof fn lemma_kernel_stacks_guarded(a: int, b: int)
    requires
        kernel_stack_fits(a),
        kernel_stack_fits(b),
        a < b,
    ensures
        kernel_stack_top(a) - kernel_stack_bottom(a) == KERNEL_STACK_SIZE,
        kernel_stack_top(b) + PAGE_SIZE <= kernel_stack_bottom(a),
{
    assert(a * (KERNEL_STACK_SIZE + PAGE_SIZE) + (KERNEL_STACK_SIZE + PAGE_SIZE)
        <= b * (KERNEL_STACK_SIZE + PAGE_SIZE)) by (nonlinear_arith)
        requires
            a < b;
}

} // verus!
