# hexium_os

The verified core of the Hexium OS kernel, written in Verus.

`src/` holds the logic that the kernel's boot path runs and that can be
stated and proved:

- `pmm`: the physical memory map built from the boot loader's memory map,
  each range labelled with its usage, and the first-fit frame allocator on
  top of it.
- `vmm`: the virtual addresses in use (the direct map of physical memory,
  the kernel's top 512 GiB, allocated page ranges), the runs of frames the
  boot-time direct map maps, and lowest-fit allocation of page ranges in
  the higher half.
- `cut_range`, `heap`, `firmware`, `smp`, `hhdm`, `acpi_handler`: small
  pieces of the boot path.
- `intervals`, `range_specs`: the trusted contracts of the `nodit` interval
  collections and of `RangeInclusive`'s getters; `interval_lemmas` and
  `arith` prove facts about them.

`app/` is the kernel around it: the Limine requests, page-table writes,
ACPI and APIC access, the global heap, logging and the entry points.
