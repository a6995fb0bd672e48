use wcore::loader::{bytes_eq, AppTable};
use wcore::syscall::dispatch::{syscall, Syscall};
use wcore::task::pid::{pid_alloc, KernelStack, PidHandle, StackPidAllocator};
use wcore::task::processor::Processor;
use wcore::task::context::TaskContext;
use wcore::trap::context::TrapContext;
use wcore::timer::{get_time_us, set_next_trigger};
use wcore::config::kernel_stack_position;
use wcore::user::syscall::{
    sys_exec, sys_exit, sys_fork, sys_get_task_info, sys_get_time, sys_read, sys_reboot, sys_waitpid, sys_write,
    sys_yield, SyscallRequest,
};
use wcore::user::ulib::{exit, get_taskinfo, get_time, yield_, TimeVal};
use wcore::user::shell::{Shell, ShellAction, BS, CR, DL, LF};

fn decode(r: SyscallRequest) -> Result<Syscall, isize> {
    syscall(r.id, r.args())
}

#[test]
fn pids_count_up_and_come_back_last_first() {
    let mut a = StackPidAllocator::new();
    assert_eq!(a.allocate(), PidHandle(0));
    assert_eq!(pid_alloc(&mut a), PidHandle(1));
    assert_eq!(a.allocate(), PidHandle(2));
    a.dealloc(0);
    a.dealloc(2);
    assert_eq!(a.allocate(), PidHandle(2));
    assert_eq!(a.allocate(), PidHandle(0));
    assert_eq!(a.allocate(), PidHandle(3));
    assert_eq!(a.current(), 4);
}

#[test]
fn kernel_stack_of_a_pid() {
    let ks = KernelStack::new(&PidHandle(3));
    assert_eq!(ks.get_top(), kernel_stack_position(3).1);
}

#[test]
fn syscall_numbers_decode() {
    assert_eq!(syscall(64, [1, 2, 3]), Ok(Syscall::Write { fd: 1, buf: 2, len: 3 }));
    assert_eq!(syscall(63, [0, 9, 1]), Ok(Syscall::Read { fd: 0, buf: 9, len: 1 }));
    assert_eq!(syscall(93, [usize::MAX, 0, 0]), Ok(Syscall::Exit { xstate: -1 }));
    assert_eq!(syscall(93, [0x1_0000_0005, 0, 0]), Ok(Syscall::Exit { xstate: 5 }));
    assert_eq!(syscall(255, [0, 0, 0]), Ok(Syscall::TaskInfo));
    assert_eq!(syscall(124, [0, 0, 0]), Ok(Syscall::Yield));
    assert_eq!(syscall(169, [8, 0, 0]), Ok(Syscall::GetTime { ts: 8, tz: 0 }));
    assert_eq!(syscall(220, [0, 0, 0]), Ok(Syscall::Fork));
    assert_eq!(syscall(221, [77, 0, 0]), Ok(Syscall::Exec { path: 77 }));
    assert_eq!(syscall(260, [usize::MAX, 16, 0]), Ok(Syscall::Waitpid { pid: -1, exit_code_ptr: 16 }));
    assert_eq!(syscall(520, [1, 0, 0]), Ok(Syscall::Reboot { cmd: 1 }));
    assert_eq!(syscall(0, [0, 0, 0]), Err(-2));
    assert_eq!(syscall(65, [0, 0, 0]), Err(-2));
}

#[test]
fn user_requests_decode_to_the_same_call() {
    assert_eq!(decode(sys_write(1, 0x1000, 12)), Ok(Syscall::Write { fd: 1, buf: 0x1000, len: 12 }));
    assert_eq!(decode(sys_exit(-42)), Ok(Syscall::Exit { xstate: -42 }));
    assert_eq!(decode(sys_exit(i32::MIN)), Ok(Syscall::Exit { xstate: i32::MIN }));
    assert_eq!(decode(sys_get_task_info()), Ok(Syscall::TaskInfo));
    assert_eq!(decode(sys_yield()), Ok(Syscall::Yield));
    assert_eq!(decode(sys_get_time(0x2000, 0)), Ok(Syscall::GetTime { ts: 0x2000, tz: 0 }));
    assert_eq!(decode(sys_fork()), Ok(Syscall::Fork));
    assert_eq!(decode(sys_waitpid(-1, 0x10)), Ok(Syscall::Waitpid { pid: -1, exit_code_ptr: 0x10 }));
    assert_eq!(decode(sys_waitpid(3, 0x10)), Ok(Syscall::Waitpid { pid: 3, exit_code_ptr: 0x10 }));
    assert_eq!(decode(sys_exec(0x3000)), Ok(Syscall::Exec { path: 0x3000 }));
    assert_eq!(decode(sys_read(0, 0x10, 1)), Ok(Syscall::Read { fd: 0, buf: 0x10, len: 1 }));
    assert_eq!(decode(sys_reboot(1)), Ok(Syscall::Reboot { cmd: 1 }));
    assert_eq!(decode(sys_reboot(-7)), Ok(Syscall::Reboot { cmd: -7 }));
}

#[test]
fn user_library_wrappers() {
    assert_eq!(wcore::user::ulib::write(1, 0x10, 2), sys_write(1, 0x10, 2));
    assert_eq!(exit(3), SyscallRequest { id: 93, a0: 3, a1: 0, a2: 0 });
    assert_eq!(exit(-1), SyscallRequest { id: 93, a0: usize::MAX, a1: 0, a2: 0 });
    assert_eq!(get_taskinfo(), SyscallRequest { id: 255, a0: 0, a1: 0, a2: 0 });
    assert_eq!(yield_(), SyscallRequest { id: 124, a0: 0, a1: 0, a2: 0 });
    assert_eq!(get_time(0x500), SyscallRequest { id: 169, a0: 0x500, a1: 0, a2: 0 });
    assert_eq!(TimeVal::new(), TimeVal { sec: 0, usec: 0 });
    assert_eq!(TimeVal::default(), TimeVal::new());
}

#[test]
fn timer_arithmetic() {
    assert_eq!(set_next_trigger(100), 125_100);
    assert_eq!(get_time_us(1200), 100);
    assert_eq!(get_time_us(11), 0);
    // the divisor 12_500_000 / 1_000_000 rounds down to 12
    assert_eq!(get_time_us(12_500_000), 1_041_666);
}

#[test]
fn app_names_are_split_at_zero_bytes() {
    let apps = AppTable::new(vec![0, 10, 10, 40], &b"a\0\0bcd\0rest".to_vec());
    assert_eq!(apps.get_num_app(), 3);
    assert_eq!(apps.name(0), &b"a".to_vec());
    assert_eq!(apps.name(1), &Vec::<u8>::new());
    assert_eq!(apps.name(2), &b"bcd".to_vec());
    assert_eq!(apps.get_app_data(1), (10, 0));
    assert_eq!(apps.get_app_data(2), (10, 30));
    assert!(bytes_eq(&b"xy".to_vec(), &b"xy".to_vec()));
    assert!(!bytes_eq(&b"xy".to_vec(), &b"x".to_vec()));
}

#[test]
fn processor_and_contexts() {
    let mut p = Processor::new();
    assert_eq!(p.current(), None);
    assert_eq!(p.take_current(), None);
    p.get_idle_task_cx_ptr().sp = 0x99;
    assert_eq!(p.idle_task_cx.sp, 0x99);
    let c = TaskContext::goto_trap_return(0x10, 0x20);
    assert_eq!((c.ra, c.sp, c.s), (0x10, 0x20, [0; 12]));
    let z = TaskContext::zero_init();
    assert_eq!((z.ra, z.sp), (0, 0));
    let t = TrapContext::app_init_context(0x1ff, 0x1000, 0x5000, 7, 8, 9);
    assert_eq!(t.sstatus, 0xff);
    assert_eq!(t.sepc, 0x1000);
    assert_eq!(t.x[2], 0x5000);
    assert_eq!((t.kernel_satp, t.kernel_sp, t.trap_handler), (7, 8, 9));
}

#[test]
fn shell_runs_the_typed_line() {
    let mut sh = Shell::new();
    assert!(matches!(sh.feed(LF), ShellAction::Prompt(0)));
    assert!(matches!(sh.feed(BS), ShellAction::Ignore));
    for &c in b"hellx" {
        assert!(matches!(sh.feed(c), ShellAction::Echo(e) if e == c));
    }
    assert!(matches!(sh.feed(DL), ShellAction::Erase));
    assert!(matches!(sh.feed(b'o'), ShellAction::Echo(b'o')));
    match sh.feed(CR) {
        ShellAction::Run(cmd) => assert_eq!(cmd, b"hello\0".to_vec()),
        other => panic!("unexpected {:?}", other),
    }
    assert!(sh.line.is_empty());
    assert!(matches!(sh.finish(-4), ShellAction::Prompt(-4)));
    assert!(matches!(sh.feed(LF), ShellAction::Prompt(-4)));
}

#[test]
fn shell_encodes_wide_characters() {
    let mut sh = Shell::new();
    sh.feed(b'a');
    sh.feed(0xE9);
    match sh.feed(LF) {
        ShellAction::Run(cmd) => assert_eq!(cmd, vec![b'a', 0xC3, 0xA9, 0]),
        other => panic!("unexpected {:?}", other),
    }
}
