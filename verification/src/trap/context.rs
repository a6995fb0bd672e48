use vstd::prelude::*;

verus! {

/// The `SPP` bit of `sstatus`: set when the trap came from supervisor mode.
pub const SSTATUS_SPP: usize = 0x100;

/// The user registers saved on a trap, with what the trap entry needs to
/// get back into the kernel.
#[derive(Clone, Copy, Debug)]
pub struct TrapContext {
    pub x: [usize; 32],
    pub sstatus: usize,
    pub sepc: usize,
    pub kernel_satp: u64,
    pub kernel_sp: usize,
    pub trap_handler: usize,
}

impl TrapContext {
    /// Sets the user stack pointer (`x2`).
    pub fn set_sp(&mut self, sp: usize)
        ensures
            final(self).x@ == old(self).x@.update(2, sp),
            final(self).sstatus == old(self).sstatus,
            final(self).sepc == old(self).sepc,
            final(self).kernel_satp == old(self).kernel_satp,
            final(self).kernel_sp == old(self).kernel_sp,
            final(self).trap_handler == old(self).trap_handler,
    {
        self.x[2] = sp;
    }

    /// The context a fresh application starts from: user mode (`SPP`
    /// cleared in `sstatus`), at `entry`, with stack pointer `sp`.
    pub fn app_init_context(
        sstatus: usize,
        entry: usize,
        sp: usize,
        kernel_satp: u64,
        kernel_sp: usize,
        trap_handler: usize,
    ) -> (r: TrapContext)
        ensures
            r.sstatus == sstatus & !SSTATUS_SPP,
            r.sepc == entry,
            r.kernel_satp == kernel_satp,
            r.kernel_sp == kernel_sp,
            r.trap_handler == trap_handler,
            r.x[2] == sp,
            forall|i: int| 0 <= i < 32 && i != 2 ==> r.x[i] == 0,
    {
        let mut cx = TrapContext {
            x: [0usize; 32],
            sstatus: sstatus & !SSTATUS_SPP,
            sepc: entry,
            kernel_satp,
            kernel_sp,
            trap_handler,
        };
        cx.set_sp(sp);
        cx
    }
}

} // verus!
