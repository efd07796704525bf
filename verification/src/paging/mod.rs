//! x86_64 paging structures: page entries, their builders, virtual addresses and page tables
pub mod flags;
pub mod pdpt;
pub mod pml4;
pub mod entries;
pub mod bits;
pub mod virt_addr;
pub mod physical;
pub mod table;
