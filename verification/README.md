# wcore

A verified model of wCore, a small RISC-V teaching kernel, written in Verus.
The library holds the kernel's logic with contracts that Verus proves; the
parts that only talk to the hardware (assembly entry points, CSR writes, SBI
calls, the console) are not part of it.

## Layout

- `src/chars.rs`: text whose characters are single bytes, and its UTF-8 encoding.
- `src/config.rs`: memory layout constants and the kernel stack of each process.
- `src/mm/`: Sv39 addresses, page-table entries and flags, a frame-based model
  of physical memory, page tables (`map`, `unmap`, `translate`, tokens), address
  spaces, and the translation of user buffers and strings.
- `src/task/`: process identifiers and their allocator, task and trap contexts,
  process control blocks, the process table (`Kernel`) with its invariant, the
  ready queue, the processor, and the life cycle of a process (fork, exit,
  suspend).
- `src/trap/`: what the kernel does about each trap, and the jump back to user
  mode.
- `src/syscall/`: decoding of system calls, the handlers of each call, and
  `serve_syscall`, which runs the handler of a decoded call and leaves its
  result in `a0`.
- `src/loader.rs`: the table of applications linked into the kernel image.
- `src/timer.rs`: timer arithmetic.
- `src/user/`: the user side: system-call requests, the user library and the
  shell's line editor.
- `tests/`: scenarios run against the compiled library.

The central invariant is `Kernel::wf`: pids match their slots and the pid
allocator, every address space maps its trap context, parents and children
agree, zombies have no children, and the ready queue holds ready processes
once each. Every operation on the kernel keeps it.
