# kernel

The decisions of a small x86-64 kernel, written in Verus and proved
against their contracts, and the kernel program around them.

- `src/` is the verified library: the heap allocators (a sorted, coalescing
  free list and a bump allocator), the physical frame allocator, the
  page-table walk and a model of the translation it installs, heap set-up,
  the round-robin scheduler, keyboard decoding, the VGA text cursor, serial
  output, GDT/IDT descriptors, PCI configuration decoding and bus scan, ACPI
  table parsing, boot-time memory-map and relocation handling, and the
  arithmetic of the demonstration tasks. Each module states its model as
  spec functions; laws that relate several calls are public proof functions.
- `app/` is ordinary Rust: port and memory-mapped I/O, assembly entry points,
  interrupt stubs and the boot sequence. It performs what the library asks
  for and hands the results back.
- `tests/` runs the library on concrete values.
