//! Page tables indexed by the table indices of their level
use vstd::prelude::*;
use crate::misc::PAGE_TABLE_ENTRY_COUNT;
use super::virt_addr::{PdIndexer, PdPtIndexer, PtIndexer, TableIndexer};
use super::entries::{PdEntry, PdEntryUnion, PtEntry};
use super::pdpt::PdptSizedEntry;

verus! {

/// Marks the page entries that can be found in tables, with the index of their level
pub trait PageEntry: Sized {
    /// The index of the tables this entry is found in
    type TableIndex: TableIndexer;
}

impl PageEntry for PdptSizedEntry {
    type TableIndex = PdPtIndexer;
}

impl PageEntry for PdEntry {
    type TableIndex = PdIndexer;
}

impl PageEntry for PdEntryUnion {
    type TableIndex = PdIndexer;
}

impl PageEntry for PtEntry {
    type TableIndex = PtIndexer;
}

/// A page table used in virtual address translation
pub struct PageTable<Ent: PageEntry>([Ent; PAGE_TABLE_ENTRY_COUNT]);

impl<Ent: PageEntry> View for PageTable<Ent> {
    type V = Seq<Ent>;

    closed spec fn view(&self) -> Seq<Ent> {
        self.0@
    }
}

impl<Ent: PageEntry> PageTable<Ent> {
    /// Constructs a new `PageTable`
    pub fn new(raw: [Ent; PAGE_TABLE_ENTRY_COUNT]) -> (r: Self)
        ensures
            r@ == raw@,
    {
        PageTable(raw)
    }

    /// Indexes the table using the indexer
    /// - All table indexers are guaranteed to not overflow the table
    pub fn index(&self, index: Ent::TableIndex) -> (r: &Ent)
        ensures
            *r == self@[index.index_spec() as int],
    {
        let i = index.as_u16() as usize;
        &self.0[i]
    }

    /// Indexes the table mutably using the indexer
    pub fn index_mut(&mut self, index: Ent::TableIndex) -> (r: &mut Ent)
        ensures
            *r == old(self)@[index.index_spec() as int],
            final(self)@ == old(self)@.update(index.index_spec() as int, *final(r)),
    {
        let i = index.as_u16() as usize;
        &mut self.0[i]
    }
}

} // verus!
