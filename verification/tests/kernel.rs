use std::collections::VecDeque;
use wcore::config::kernel_stack_position;
use wcore::loader::{get_app_data_by_name, initproc_app_data, AppTable};
use wcore::mm::address::{VirtAddr, VirtPageNum, TRAP_CONTEXT_VA};
use wcore::mm::memory_set::MemorySet;
use wcore::mm::page_table::{PageTable, PhysMem, PTEFlags, PTE_R, PTE_U, PTE_W};
use wcore::mm::user_buffer::{translate_memcopy, translated_byte_buffer};
use wcore::syscall::fs::{sys_read, sys_write, ReadStep};
use wcore::syscall::process::{exec_current_task, sys_exec, sys_exit, sys_fork, sys_waitpid, sys_yield};
use wcore::syscall::time::syscall_get_time;
use wcore::syscall::wcore::{syscall_get_task_info, syscall_reboot};
use wcore::task::kernel::{Kernel, INIT_PID};
use wcore::task::processor::{current_task, current_trap_cx, current_user_token, run_tasks, take_current_task};
use wcore::task::tasks::{KernelEntries, TaskStatus};
use wcore::task::{add_initproc, exit_current_and_run_next, suspend_current_and_run_next, ExitOutcome};
use wcore::syscall::dispatch::{syscall, Syscall};
use wcore::syscall::serve::{serve_syscall, Served};
use wcore::config::{TRAMPOLINE, TRAP_CONTEXT};
use wcore::trap::{set_syscall_result, trap_handler, trap_return, TrapAction, TrapCause, UserReturn};

fn entries() -> KernelEntries {
    KernelEntries { kernel_satp: (8u64 << 60) | 0x8_0000, trap_handler: 0x8020_0000, trap_return: 0x8020_1000, sstatus: 0x122 }
}

/// An address space with its trap context page and user pages 1 and 2
/// (readable, writable, user).
fn address_space(mem: &mut PhysMem) -> MemorySet {
    let mut pt = PageTable::new(mem).unwrap();
    let trap = mem.frame_alloc().unwrap();
    pt.map(mem, VirtAddr::from_word(TRAP_CONTEXT_VA).floor(), trap, PTEFlags { bits: PTE_R | PTE_W });
    for vpn in 1..=2u64 {
        let f = mem.frame_alloc().unwrap();
        pt.map(mem, VirtPageNum(vpn), f, PTEFlags { bits: PTE_R | PTE_W | PTE_U });
    }
    MemorySet::from_page_table(pt)
}

/// A copy of the current process's address space, page by page, in fresh frames.
fn copy_of_current(k: &mut Kernel) -> MemorySet {
    let cur = current_task(k).unwrap();
    let vpns = [VirtAddr::from_word(TRAP_CONTEXT_VA).floor(), VirtPageNum(1), VirtPageNum(2)];
    let mut pages = Vec::new();
    for vpn in vpns {
        let e = k.tasks[cur].as_ref().unwrap().inner.memory_set.translate(&k.mem, vpn).unwrap();
        pages.push((vpn, e));
    }
    let mut pt = PageTable::new(&mut k.mem).unwrap();
    for (vpn, e) in pages {
        let f = k.mem.frame_alloc().unwrap();
        for o in 0..4096 {
            let b = k.mem.read_byte(e.ppn(), o);
            k.mem.write_byte(f, o, b);
        }
        pt.map(&mut k.mem, vpn, f, e.flags());
    }
    MemorySet::from_page_table(pt)
}

fn booted() -> Kernel {
    let mut mem = PhysMem::new(256);
    let ms = address_space(&mut mem);
    let mut k = Kernel::new(mem, entries(), ms, 0x3000, 0x1000);
    add_initproc(&mut k);
    assert_eq!(run_tasks(&mut k), Some(INIT_PID));
    k
}

fn status(k: &Kernel, pid: usize) -> TaskStatus {
    k.tasks[pid].as_ref().unwrap().inner.task_status
}

fn children(k: &Kernel, pid: usize) -> Vec<usize> {
    k.tasks[pid].as_ref().unwrap().inner.children.clone()
}

fn read_user(k: &Kernel, va: u64, len: u64) -> Vec<u8> {
    let token = current_user_token(k);
    let segs = translated_byte_buffer(&k.mem, token, va, len).unwrap();
    let mut out = Vec::new();
    for s in segs {
        for o in s.start..s.end {
            out.push(k.mem.read_byte(s.ppn, o));
        }
    }
    out
}

fn write_user(k: &mut Kernel, va: u64, bytes: &[u8]) {
    let token = current_user_token(k);
    assert_eq!(translate_memcopy(&mut k.mem, token, va, &bytes.to_vec()), Ok(()));
}

#[test]
fn boot_runs_the_initial_process() {
    let mut mem = PhysMem::new(64);
    let ms = address_space(&mut mem);
    let mut k = Kernel::new(mem, entries(), ms, 0x3000, 0x1000);
    assert_eq!(k.tasks.len(), 1);
    assert_eq!(status(&k, 0), TaskStatus::Ready);
    let t = k.tasks[0].as_ref().unwrap();
    assert_eq!(t.getpid(), 0);
    assert_eq!(t.kernel_stack.get_top(), kernel_stack_position(0).1);
    assert_eq!(t.inner.trap_cx.sepc, 0x1000);
    assert_eq!(t.inner.trap_cx.x[2], 0x3000);
    assert_eq!(t.inner.trap_cx.sstatus, 0x22);
    assert_eq!(t.inner.trap_cx.kernel_sp, kernel_stack_position(0).1);
    assert_eq!(t.inner.task_cx.ra, 0x8020_1000);
    assert_eq!(run_tasks(&mut k), None);
    add_initproc(&mut k);
    assert_eq!(k.manager.ready_queue, VecDeque::from(vec![0]));
    assert_eq!(run_tasks(&mut k), Some(0));
    assert_eq!(current_task(&k), Some(0));
    assert_eq!(status(&k, 0), TaskStatus::Running);
    assert_eq!(syscall_get_task_info(&k), 0);
}

#[test]
fn fork_then_wait_reaps_the_child() {
    let mut k = booted();
    write_user(&mut k, 0x1800, b"inherited");
    let ms = copy_of_current(&mut k);
    assert_eq!(sys_fork(&mut k, ms), 1);
    assert_eq!(children(&k, 0), vec![1]);
    assert_eq!(k.tasks[1].as_ref().unwrap().inner.parent, Some(0));
    assert_eq!(k.tasks[1].as_ref().unwrap().inner.trap_cx.x[10], 0);
    assert_eq!(status(&k, 1), TaskStatus::Ready);
    assert_eq!(k.manager.ready_queue, VecDeque::from(vec![1]));
    // the child has not exited yet
    assert_eq!(sys_waitpid(&mut k, -1, 0x1000), -2);
    assert_eq!(sys_waitpid(&mut k, 5, 0x1000), -1);
    // the child runs and exits with 7
    assert_eq!(sys_yield(&mut k), 0);
    assert_eq!(k.manager.ready_queue, VecDeque::from(vec![1, 0]));
    assert_eq!(run_tasks(&mut k), Some(1));
    assert_eq!(syscall_get_task_info(&k), 1);
    // the child sees the parent's bytes, in its own frames
    assert_eq!(read_user(&k, 0x1800, 9), b"inherited".to_vec());
    write_user(&mut k, 0x1800, b"X");
    assert_eq!(sys_exit(&mut k, 7), ExitOutcome::Exited);
    assert_eq!(status(&k, 1), TaskStatus::Zombie);
    assert_eq!(current_task(&k), None);
    assert_eq!(syscall_get_task_info(&k), -1);
    assert_eq!(run_tasks(&mut k), Some(0));
    // the parent reaps it and gets its exit code
    assert_eq!(sys_waitpid(&mut k, 1, 0x1010), 1);
    assert_eq!(read_user(&k, 0x1010, 4), vec![7, 0, 0, 0]);
    assert_eq!(read_user(&k, 0x1800, 9), b"inherited".to_vec());
    assert!(k.tasks[1].is_none());
    assert_eq!(children(&k, 0), Vec::<usize>::new());
    assert_eq!(sys_waitpid(&mut k, -1, 0x1010), -1);
    // the freed pid is handed out again
    let ms = copy_of_current(&mut k);
    assert_eq!(sys_fork(&mut k, ms), 1);
}

#[test]
fn negative_exit_codes_reach_the_parent() {
    let mut k = booted();
    let ms = copy_of_current(&mut k);
    assert_eq!(sys_fork(&mut k, ms), 1);
    suspend_current_and_run_next(&mut k);
    assert_eq!(run_tasks(&mut k), Some(1));
    assert_eq!(exit_current_and_run_next(&mut k, -3), ExitOutcome::Exited);
    assert_eq!(run_tasks(&mut k), Some(0));
    assert_eq!(sys_waitpid(&mut k, -1, 0x2000), 1);
    assert_eq!(read_user(&k, 0x2000, 4), vec![0xfd, 0xff, 0xff, 0xff]);
}

#[test]
fn orphans_go_to_the_initial_process() {
    let mut k = booted();
    let ms = copy_of_current(&mut k);
    assert_eq!(sys_fork(&mut k, ms), 1);
    suspend_current_and_run_next(&mut k);
    assert_eq!(run_tasks(&mut k), Some(1));
    let ms = copy_of_current(&mut k);
    assert_eq!(sys_fork(&mut k, ms), 2);
    let ms = copy_of_current(&mut k);
    assert_eq!(sys_fork(&mut k, ms), 3);
    assert_eq!(children(&k, 1), vec![2, 3]);
    assert_eq!(sys_exit(&mut k, 0), ExitOutcome::Exited);
    assert_eq!(children(&k, 1), Vec::<usize>::new());
    assert_eq!(children(&k, 0), vec![1, 2, 3]);
    assert_eq!(k.tasks[2].as_ref().unwrap().inner.parent, Some(0));
    assert_eq!(k.tasks[3].as_ref().unwrap().inner.parent, Some(0));
    assert_eq!(k.tasks[1].as_ref().unwrap().inner.exit_code, 0);
}

#[test]
fn initial_process_exit_shuts_down() {
    let mut k = booted();
    assert_eq!(sys_exit(&mut k, 3), ExitOutcome::Shutdown { failure: true });
    let mut k = booted();
    assert_eq!(sys_exit(&mut k, 0), ExitOutcome::Shutdown { failure: false });
}

#[test]
fn take_current_leaves_the_processor_idle() {
    let mut k = booted();
    assert_eq!(take_current_task(&mut k), Some(0));
    assert_eq!(take_current_task(&mut k), None);
    assert_eq!(k.processor.current(), None);
}

#[test]
fn traps_are_served() {
    let mut k = booted();
    {
        let cx = current_trap_cx(&mut k);
        cx.x[17] = 64;
        cx.x[10] = 1;
        cx.x[11] = 0x1000;
        cx.x[12] = 5;
        cx.sepc = 0x1040;
    }
    match trap_handler(&mut k, TrapCause::UserEnvCall) {
        TrapAction::Syscall(call) => assert_eq!(call, Ok(Syscall::Write { fd: 1, buf: 0x1000, len: 5 })),
        other => panic!("unexpected {:?}", other),
    }
    assert_eq!(current_trap_cx(&mut k).sepc, 0x1044);
    set_syscall_result(&mut k, -1);
    assert_eq!(current_trap_cx(&mut k).x[10], usize::MAX);
    current_trap_cx(&mut k).x[17] = 12345;
    current_trap_cx(&mut k).sepc = 0;
    match trap_handler(&mut k, TrapCause::UserEnvCall) {
        TrapAction::Syscall(call) => assert_eq!(call, Err(-2)),
        other => panic!("unexpected {:?}", other),
    }
    assert!(matches!(trap_handler(&mut k, TrapCause::Unsupported), TrapAction::Fatal));
    assert!(matches!(trap_handler(&mut k, TrapCause::SupervisorTimer), TrapAction::Preempted));
    assert_eq!(status(&k, 0), TaskStatus::Ready);
    assert_eq!(run_tasks(&mut k), Some(0));
    let ms = copy_of_current(&mut k);
    assert_eq!(sys_fork(&mut k, ms), 1);
    suspend_current_and_run_next(&mut k);
    assert_eq!(run_tasks(&mut k), Some(1));
    assert!(matches!(trap_handler(&mut k, TrapCause::StoreFault), TrapAction::Killed(ExitOutcome::Exited)));
    assert_eq!(k.tasks[1].as_ref().unwrap().inner.exit_code, -2);
    assert_eq!(run_tasks(&mut k), Some(0));
    assert!(matches!(
        trap_handler(&mut k, TrapCause::IllegalInstruction),
        TrapAction::Killed(ExitOutcome::Shutdown { failure: true })
    ));
}

#[test]
fn trap_return_jumps_through_the_trampoline() {
    let k = booted();
    let token = current_user_token(&k);
    let r = trap_return(&k, 0x8020_2000, 0x8020_2090);
    assert_eq!(r, UserReturn { restore_va: TRAMPOLINE + 0x90, trap_cx_ptr: TRAP_CONTEXT, user_satp: token });
    assert_eq!(r.user_satp >> 60, 8);
}

#[test]
fn write_hands_out_the_user_bytes() {
    let mut k = booted();
    write_user(&mut k, 0x1ffd, b"hello");
    let (n, out) = sys_write(&k, 1, 0x1ffd, 5);
    assert_eq!(n, 5);
    assert_eq!(out, vec![b"hel".to_vec(), b"lo".to_vec()]);
    // page 3 is not mapped readable: its leaf entry is empty
    let (n, out) = sys_write(&k, 1, 0x2ffe, 4);
    assert_eq!(n, -1);
    assert!(out.is_empty());
}

#[test]
fn read_takes_one_character() {
    let mut k = booted();
    assert_eq!(sys_read(&mut k, 3, 0x1000, 1, Some(97)), ReadStep::Done(-1));
    assert_eq!(sys_read(&mut k, 0, 0x1000, 2, Some(97)), ReadStep::Done(-1));
    assert_eq!(sys_read(&mut k, 0, 0x1000, 1, None), ReadStep::NeedInput);
    assert_eq!(sys_read(&mut k, 0, 0x1000, 1, Some(97)), ReadStep::Done(0));
    assert_eq!(read_user(&k, 0x1000, 1), vec![97]);
    assert_eq!(sys_read(&mut k, 0, 0x3000, 1, Some(98)), ReadStep::Done(-1));
    assert_eq!(sys_read(&mut k, 0, 0x1000, 1, Some(0)), ReadStep::Suspended);
    assert_eq!(current_task(&k), None);
    assert_eq!(status(&k, 0), TaskStatus::Ready);
}

#[test]
fn time_is_written_to_user_memory() {
    let mut k = booted();
    assert_eq!(syscall_get_time(&mut k, 0x1ff8, 0, 2_500_000), 0);
    let bytes = read_user(&k, 0x1ff8, 16);
    assert_eq!(&bytes[..8], &2u64.to_le_bytes());
    assert_eq!(&bytes[8..], &2_500_000u64.to_le_bytes());
    assert_eq!(syscall_get_time(&mut k, 0x2ff8, 0, 1), -1);
    // the trap context page lies in the upper half and may be written
    let hi = TRAP_CONTEXT_VA + 0x100;
    assert_eq!(syscall_get_time(&mut k, hi as usize, 0, 3_000_001), 0);
    let bytes = read_user(&k, hi, 16);
    assert_eq!(&bytes[..8], &3u64.to_le_bytes());
    assert_eq!(sys_read(&mut k, 0, (hi + 20) as usize, 1, Some(120)), ReadStep::Done(0));
    assert_eq!(read_user(&k, hi + 20, 1), vec![120]);
}

#[test]
fn exec_finds_the_program_by_name() {
    let mut k = booted();
    let apps = AppTable::new(vec![0x100, 0x200, 0x350], &b"winit\0wsh\0".to_vec());
    assert_eq!(apps.get_num_app(), 2);
    assert_eq!(initproc_app_data(&apps), Some((0x100, 0x100)));
    let no_init = AppTable::new(vec![0x100, 0x200], &b"wsh\0".to_vec());
    assert_eq!(initproc_app_data(&no_init), None);
    write_user(&mut k, 0x1000, b"wsh\0nope\0");
    assert_eq!(sys_exec(&k, &apps, 0x1000), Ok((0x200, 0x150)));
    assert_eq!(sys_exec(&k, &apps, 0x1004), Err(-1));
    // a path running into an unmapped page is an illegal argument
    write_user(&mut k, 0x2ffe, b"ws");
    assert_eq!(sys_exec(&k, &apps, 0x2ffe), Err(-2));
    // each byte of the path is one character, matched against the UTF-8 name
    let wide = AppTable::new(vec![0x100, 0x200, 0x300], &"wsh\0caf\u{e9}\0".as_bytes().to_vec());
    write_user(&mut k, 0x1000, &[b'c', b'a', b'f', 0xe9, 0]);
    assert_eq!(sys_exec(&k, &wide, 0x1000), Ok((0x200, 0x100)));
    write_user(&mut k, 0x1000, &[b'c', b'a', b'f', 0xc3, 0xa9, 0]);
    assert_eq!(sys_exec(&k, &wide, 0x1000), Err(-1));
    let ms = address_space(&mut k.mem);
    assert_eq!(exec_current_task(&mut k, ms, 0x2ff0, 0x1234), 0);
    let t = k.tasks[0].as_ref().unwrap();
    assert_eq!(t.inner.trap_cx.sepc, 0x1234);
    assert_eq!(t.inner.trap_cx.x[2], 0x2ff0);
    assert_eq!(t.inner.trap_cx.x[10], 0);
    assert_eq!(get_app_data_by_name(&apps, &b"winit".to_vec()), Some((0x100, 0x100)));
    assert_eq!(get_app_data_by_name(&apps, &b"win".to_vec()), None);
}

#[test]
fn reboot_only_for_command_one() {
    assert_eq!(syscall_reboot(1), None);
    assert_eq!(syscall_reboot(0), Some(-1));
    assert_eq!(syscall_reboot(-1), Some(-1));
}

fn a0(k: &Kernel, pid: usize) -> usize {
    k.tasks[pid].as_ref().unwrap().inner.trap_cx.x[10]
}

#[test]
fn served_calls_leave_their_result_in_a0() {
    let mut k = booted();
    let apps = AppTable::new(vec![0x100, 0x200, 0x350], &b"winit\0wsh\0".to_vec());
    // an unknown call
    assert!(matches!(serve_syscall(&mut k, &apps, syscall(12345, [0; 3]), 0, None, None), Served::Resume));
    assert_eq!(a0(&k, 0), (-2isize) as usize);
    // the pid
    assert!(matches!(serve_syscall(&mut k, &apps, Ok(Syscall::TaskInfo), 0, None, None), Served::Resume));
    assert_eq!(a0(&k, 0), 0);
    // a write hands out the bytes and returns the length
    write_user(&mut k, 0x1000, b"hello");
    match serve_syscall(&mut k, &apps, Ok(Syscall::Write { fd: 1, buf: 0x1000, len: 5 }), 0, None, None) {
        Served::Print(parts) => assert_eq!(parts.concat(), b"hello".to_vec()),
        other => panic!("unexpected {:?}", other),
    }
    assert_eq!(a0(&k, 0), 5);
    // the time
    assert!(matches!(
        serve_syscall(&mut k, &apps, Ok(Syscall::GetTime { ts: 0x1100, tz: 0 }), 4_000_000, None, None),
        Served::Resume
    ));
    assert_eq!(a0(&k, 0), 0);
    assert_eq!(&read_user(&k, 0x1100, 8), &4u64.to_le_bytes());
    // a read first needs a character
    let read = Ok(Syscall::Read { fd: 0, buf: 0x1200, len: 1 });
    assert!(matches!(serve_syscall(&mut k, &apps, read, 0, None, None), Served::NeedInput));
    assert!(matches!(serve_syscall(&mut k, &apps, read, 0, Some(b'q' as usize), None), Served::Resume));
    assert_eq!(read_user(&k, 0x1200, 1), vec![b'q']);
    // a fork: the parent gets the child's pid, the child 0
    let ms = copy_of_current(&mut k);
    assert!(matches!(serve_syscall(&mut k, &apps, Ok(Syscall::Fork), 0, None, Some(ms)), Served::Resume));
    assert_eq!(a0(&k, 0), 1);
    assert_eq!(a0(&k, 1), 0);
    // the child has not exited
    let wait = Ok(Syscall::Waitpid { pid: -1, exit_code_ptr: 0x1300 });
    assert!(matches!(serve_syscall(&mut k, &apps, wait, 0, None, None), Served::Resume));
    assert_eq!(a0(&k, 0), (-2isize) as usize);
    // exec looks the program up
    write_user(&mut k, 0x1400, b"wsh\0");
    match serve_syscall(&mut k, &apps, Ok(Syscall::Exec { path: 0x1400 }), 0, None, None) {
        Served::Load(start, len) => assert_eq!((start, len), (0x200, 0x150)),
        other => panic!("unexpected {:?}", other),
    }
    // a yield: a0 is 0 and the process waits in the queue
    assert!(matches!(serve_syscall(&mut k, &apps, Ok(Syscall::Yield), 0, None, None), Served::Switch));
    assert_eq!(a0(&k, 0), 0);
    assert_eq!(k.manager.ready_queue, VecDeque::from(vec![1, 0]));
    // the child exits, the parent reaps it
    assert_eq!(run_tasks(&mut k), Some(1));
    assert!(matches!(
        serve_syscall(&mut k, &apps, Ok(Syscall::Exit { xstate: 3 }), 0, None, None),
        Served::Exited(ExitOutcome::Exited)
    ));
    assert_eq!(run_tasks(&mut k), Some(0));
    assert!(matches!(serve_syscall(&mut k, &apps, wait, 0, None, None), Served::Resume));
    assert_eq!(a0(&k, 0), 1);
    assert_eq!(read_user(&k, 0x1300, 4), vec![3, 0, 0, 0]);
    // reboot: only command 1 switches the machine off
    assert!(matches!(serve_syscall(&mut k, &apps, Ok(Syscall::Reboot { cmd: 2 }), 0, None, None), Served::Resume));
    assert_eq!(a0(&k, 0), usize::MAX);
    assert!(matches!(serve_syscall(&mut k, &apps, Ok(Syscall::Reboot { cmd: 1 }), 0, None, None), Served::PowerOff));
}
