# coreos

The logic of a small AMD64 operating system (a UEFI loader and a kernel),
written in Verus and proved against its contracts.

- `src/` is the verified library: the frame allocator and slab heap, the
  process, thread, descriptor, pipe and task tables with the scheduler and
  signal handling, the RAM file system, the ELF checks and the claiming of a
  loaded program's frames, the kernel's own page tables, the loader's
  placement decisions and boot page tables, the framebuffer console and glyph drawing,
  the PS/2 keyboard, terminal line discipline, timer, clock and PCI records,
  and the text formatting of the serial logs and reports.
- `app/` is the rest: firmware calls, port and memory-mapped I/O, interrupt
  entry points, the spin lock, the global allocator's raw memory accesses, and
  the state the interrupt handlers share. Besides carrying out what the
  library decides, it only checks the library's preconditions before each
  call (that a glyph lies in the font, that the memory map's counts fit, ...)
  and halts or fails there as the kernel does.
- `tests/` runs the library on concrete values, including one test for each
  proved law (FIFO pipes and key buffers, read-after-append, undoing an
  allocation by freeing it, a committed terminal line read back whole, ...).
