# kernel

A small RISC-V 64 kernel that runs Linux programs, written as a Verus library: the
kernel's state (tasks, open files, the in-memory file system, pipes, sockets, epoll
instances), its system calls, the trap handler, the page tables and address spaces, and
the ELF loader are executable Rust whose behaviour is stated in `requires` / `ensures`
contracts and proved by Verus.

## Layout

- `src/` is the verified library.
  - `mm/` models physical memory as bytes, the frame allocator, the three-level Sv39 page
    tables (a walk over that memory) and the address spaces built from mapped areas.
  - `fs/` holds the in-memory file system, open files, pipes, sockets, event counters and
    the device and process files; `initramfs.rs` and `fs/cpio.rs` build the boot image.
  - `syscall/` holds the system calls; `dispatch.rs` routes the calls whose arguments are
    plain numbers and states, per call, what each one does.
  - `task/` holds the task table, the scheduler (round robin) and signal delivery;
    `trap/` decides what a trap from user mode does.
  - `loader.rs` reads ELF files through the `xmas-elf` crate and lays out a program's
    pages, with the union of the permissions of the LOAD segments that share a page.
- `app/` is the part that runs on the machine and cannot be verified: SBI calls, CSR
  access, the virtio devices, the smoltcp network stack, the heap allocator, and the copies
  between user memory and the library for the system calls that need them.
- `tests/` runs the library on concrete values.

The outside crates are called from `src/` through small trusted wrappers whose contracts
say what their documentation and source promise; those contracts are the assumptions the
proofs rest on.
