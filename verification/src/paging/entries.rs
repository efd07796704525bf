//! Page entries of the `PD` and `PT` levels and the `PD` entry that is either of them
use vstd::prelude::*;
use super::flags::{has_flag, BITS_PRESENT, BITS_PS, BITS_RW, BITS_XD};

verus! {

/// Contains either a regular page entry or page-sized page entry
pub enum Either<R, S> {
    /// A regular entry, pointing to a table of the next level
    Regular(R),
    /// A page-sized entry, pointing to a page
    Sized(S),
}

/// A `PD` entry pointing to a `PT` table
#[derive(Clone, Copy)]
pub struct PdRegularEntry(u64);

impl View for PdRegularEntry {
    type V = u64;

    closed spec fn view(&self) -> u64 {
        self.0
    }
}

impl PdRegularEntry {
    /// Constructs the entry from the given bits
    pub(crate) fn from_bits(bits: u64) -> (r: Self)
        ensures
            r@ == bits,
    {
        PdRegularEntry(bits)
    }

    /// Returns the entry bits as integer
    pub fn as_u64(&self) -> (r: u64)
        ensures
            r == self@,
    {
        self.0
    }

    /// Indicates whether the page is actually stored in memory at the moment
    pub fn is_present(&self) -> (r: bool)
        ensures
            r == has_flag(self@, BITS_PRESENT),
    {
        self.0 & BITS_PRESENT != 0
    }

    /// Indicates whether the page this entry is pointing to is writeable
    pub fn is_writeable(&self) -> (r: bool)
        ensures
            r == has_flag(self@, BITS_RW),
    {
        self.0 & BITS_RW != 0
    }

    /// Indicates whether the page is executable: the `XD` bit is clear
    pub fn is_executable(&self) -> (r: bool)
        ensures
            r == !has_flag(self@, BITS_XD),
    {
        self.0 & BITS_XD == 0
    }
}

/// A `PD` entry pointing to a 2MB page
#[derive(Clone, Copy)]
pub struct PdSizedEntry(u64);

impl View for PdSizedEntry {
    type V = u64;

    closed spec fn view(&self) -> u64 {
        self.0
    }
}

impl PdSizedEntry {
    /// Constructs the entry from the given bits
    pub(crate) fn from_bits(bits: u64) -> (r: Self)
        ensures
            r@ == bits,
    {
        PdSizedEntry(bits)
    }

    /// Returns the entry bits as integer
    pub fn as_u64(&self) -> (r: u64)
        ensures
            r == self@,
    {
        self.0
    }

    /// Indicates whether the page is actually stored in memory at the moment
    pub fn is_present(&self) -> (r: bool)
        ensures
            r == has_flag(self@, BITS_PRESENT),
    {
        self.0 & BITS_PRESENT != 0
    }

    /// Indicates whether the page this entry is pointing to is writeable
    pub fn is_writeable(&self) -> (r: bool)
        ensures
            r == has_flag(self@, BITS_RW),
    {
        self.0 & BITS_RW != 0
    }

    /// Indicates whether the page is executable: the `XD` bit is clear
    pub fn is_executable(&self) -> (r: bool)
        ensures
            r == !has_flag(self@, BITS_XD),
    {
        self.0 & BITS_XD == 0
    }
}

/// A `PT` entry pointing to a 4KB page
#[derive(Clone, Copy)]
pub struct PtEntry(u64);

impl View for PtEntry {
    type V = u64;

    closed spec fn view(&self) -> u64 {
        self.0
    }
}

impl PtEntry {
    /// Constructs the entry from the given bits
    pub(crate) fn from_bits(bits: u64) -> (r: Self)
        ensures
            r@ == bits,
    {
        PtEntry(bits)
    }

    /// Returns the entry bits as integer
    pub fn as_u64(&self) -> (r: u64)
        ensures
            r == self@,
    {
        self.0
    }

    /// Indicates whether the page is actually stored in memory at the moment
    pub fn is_present(&self) -> (r: bool)
        ensures
            r == has_flag(self@, BITS_PRESENT),
    {
        self.0 & BITS_PRESENT != 0
    }

    /// Indicates whether the page this entry is pointing to is writeable
    pub fn is_writeable(&self) -> (r: bool)
        ensures
            r == has_flag(self@, BITS_RW),
    {
        self.0 & BITS_RW != 0
    }

    /// Indicates whether the page is executable: the `XD` bit is clear
    pub fn is_executable(&self) -> (r: bool)
        ensures
            r == !has_flag(self@, BITS_XD),
    {
        self.0 & BITS_XD == 0
    }
}

/// Pd table entry: either a regular or a page-sized entry, told apart by the `PS` bit
#[derive(Clone, Copy)]
pub struct PdEntry(u64);

impl View for PdEntry {
    type V = u64;

    closed spec fn view(&self) -> u64 {
        self.0
    }
}

impl PdEntry {
    /// Creates new entry directly from given bits
    pub fn new_raw(bits: u64) -> (r: Self)
        ensures
            r@ == bits,
    {
        PdEntry(bits)
    }

    /// Indicates whether the entry is page-sized
    pub fn is_page_sized(&self) -> (r: bool)
        ensures
            r == has_flag(self@, BITS_PS),
    {
        self.0 & BITS_PS != 0
    }

    /// Indicates whether the entry is present in memory
    pub fn is_present(&self) -> (r: bool)
        ensures
            r == has_flag(self@, BITS_PRESENT),
    {
        self.0 & BITS_PRESENT != 0
    }

    /// Checks the page size bit and loads the corresponding entry
    pub fn entry_copied(&self) -> (r: Either<PdRegularEntry, PdSizedEntry>)
        ensures
            r matches Either::Regular(e) ==> !has_flag(self@, BITS_PS) && e@ == self@,
            r matches Either::Sized(e) ==> has_flag(self@, BITS_PS) && e@ == self@,
    {
        let bits = self.0;
        if bits & BITS_PS == 0 {
            Either::Regular(PdRegularEntry::from_bits(bits))
        } else {
            Either::Sized(PdSizedEntry::from_bits(bits))
        }
    }

    /// Loads and reinterprets itself as regular entry, `None` if it is page-sized
    pub fn regular_entry_copied(&self) -> (r: Option<PdRegularEntry>)
        ensures
            r is None <==> has_flag(self@, BITS_PS),
            r matches Some(e) ==> e@ == self@,
    {
        let bits = self.0;
        if bits & BITS_PS == 0 {
            Some(PdRegularEntry::from_bits(bits))
        } else {
            None
        }
    }

    /// Loads and reinterprets itself as page-sized entry, `None` if it is regular
    pub fn sized_entry_copied(&self) -> (r: Option<PdSizedEntry>)
        ensures
            r is None <==> !has_flag(self@, BITS_PS),
            r matches Some(e) ==> e@ == self@,
    {
        let bits = self.0;
        if bits & BITS_PS != 0 {
            Some(PdSizedEntry::from_bits(bits))
        } else {
            None
        }
    }
}

/// Entry located in the pd level that is used to distinguish
/// between regular and page-sized pd entries
#[derive(Clone, Copy)]
pub struct PdEntryUnion(u64);

impl View for PdEntryUnion {
    type V = u64;

    closed spec fn view(&self) -> u64 {
        self.0
    }
}

impl PdEntryUnion {
    /// Creates the entry directly from given bits
    pub fn new_raw(bits: u64) -> (r: Self)
        ensures
            r@ == bits,
    {
        PdEntryUnion(bits)
    }

    /// Indicates whether the entry is page-sized
    pub fn is_page_sized(&self) -> (r: bool)
        ensures
            r == has_flag(self@, BITS_PS),
    {
        self.0 & BITS_PS != 0
    }

    /// Indicates whether the entry is present in memory
    pub fn is_present(&self) -> (r: bool)
        ensures
            r == has_flag(self@, BITS_PRESENT),
    {
        self.0 & BITS_PRESENT != 0
    }
}

} // verus!
