# Kernel memory building blocks, verified

Memory management pieces of a small x86_64 kernel, written in Verus and proved
against their contracts:

- `misc`, `address`, `non_null`: alignment arithmetic and aligned addresses
- `extent_alloc`: an extent allocator (free extents indexed by size and
  alignment, best-fit allocation, deallocation with merging, batch allocation
  that splits requests, and a cached front end)
- `paging`: x86_64 page entries and their builders, virtual addresses and their
  table indices, page tables, and the layout of physical frame allocations
- `rand`: a small deterministic generator for randomized tests

`tests/` exercises the library; `app/` holds human-readable descriptions of
its values, which need `format!` and so live outside the verified crate.
