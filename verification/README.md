# rustboot

The logic of a small x86 (and ARM) kernel, with its behaviour stated in
contracts and proved by Verus.

- `src/kernel/mm`: the buddy allocator over a tree of 2-bit node states
  (`allocator.rs`, with the tree model in `tree.rs`), and physical frames on
  top of it (`physical.rs`). The allocator's state is viewed as the block
  that holds each unit; `allocate` hands out the leftmost free aligned block
  and `free` gives it back.
- `src/kernel/heap.rs`: heap allocation by type, zeroing and reallocation.
- `src/arch/x86/cpu`: descriptor tables, interrupt stubs and gates, page
  tables and directories, paging of pages onto fresh frames.
- `src/arch/x86/io.rs`, `src/arch/x86/drivers`: the text console, the
  keyboard decoder and the interrupt controller; port output is returned as
  a list of writes for the caller to perform.
- `src/arch/x86/runtime.rs`: memory fill, copy, move and compare.
- `src/kernel/elf`: reading the load plan of 32- and 64-bit executables and
  loading segments.
- `src/arch/arm/cpu`: the ARM vector table and section descriptors.
- `app/`: the program that performs the library's decisions on the machine
  (port I/O, control registers, descriptor-table loads, jumps).
