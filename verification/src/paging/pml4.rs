//! Entries of the `PML4` level, the highest level of the x86_64 four-level paging
use vstd::prelude::*;
use super::flags::{has_flag, lemma_mask_ops, ADDRESS_MASK_4KB, BITS_A, BITS_PCD, BITS_PRESENT, BITS_PS, BITS_PWT, BITS_RW, BITS_US};

verus! {

/// PML4 (**P**age **M**ap **L**evel **4**) entry
#[derive(Clone, Copy)]
pub struct Pml4Entry(u64);

impl View for Pml4Entry {
    type V = u64;

    closed spec fn view(&self) -> u64 {
        self.0
    }
}

impl Pml4Entry {

    /// Returns the entry bits as integer
    pub fn as_u64(&self) -> (r: u64)
        ensures
            r == self@,
    {
        self.0
    }

    /// Creates new unused entry
    pub fn new_unused() -> (r: Self)
        ensures
            r@ == 0,
    {
        Pml4Entry(0)
    }

    /// Creates new entry directly from given bits
    pub fn new_raw(bits: u64) -> (r: Self)
        ensures
            r@ == bits,
    {
        Pml4Entry(bits)
    }

    /// Indicates whether this entry is unused/null
    pub fn is_unused(&self) -> (r: bool)
        ensures
            r == (self@ == 0),
    {
        self.0 == 0
    }

    /// Indicates whether the page is actually stored in memory at the moment
    pub fn is_present(&self) -> (r: bool)
        ensures
            r == has_flag(self@, BITS_PRESENT),
    {
        self.0 & BITS_PRESENT != 0
    }

    /// Sets the `P`resent bit
    pub fn make_present(&mut self)
        ensures
            final(self)@ == old(self)@ | BITS_PRESENT,
            has_flag(final(self)@, BITS_PRESENT),
            final(self)@ & !BITS_PRESENT == old(self)@ & !BITS_PRESENT,
    {
        proof {
            lemma_mask_ops(self.0, BITS_PRESENT);
        }
        self.0 = self.0 | BITS_PRESENT;
    }

    /// Clears the `P`resent bit
    pub fn make_unpresent(&mut self)
        ensures
            final(self)@ == old(self)@ & !BITS_PRESENT,
            !has_flag(final(self)@, BITS_PRESENT),
            final(self)@ & !BITS_PRESENT == old(self)@ & !BITS_PRESENT,
    {
        proof {
            lemma_mask_ops(self.0, BITS_PRESENT);
        }
        self.0 = self.0 & !BITS_PRESENT;
    }

    /// Sets or clears the `P`resent bit
    pub fn set_present(&mut self, present: bool)
        ensures
            final(self)@ == (if present { old(self)@ | BITS_PRESENT } else { old(self)@ & !BITS_PRESENT }),
            has_flag(final(self)@, BITS_PRESENT) == present,
            final(self)@ & !BITS_PRESENT == old(self)@ & !BITS_PRESENT,
    {
        if present {
            self.make_present();
        } else {
            self.make_unpresent();
        }
    }

    /// Indicates whether the page this entry is pointing to is writeable, or read only
    pub fn is_writeable(&self) -> (r: bool)
        ensures
            r == has_flag(self@, BITS_RW),
    {
        self.0 & BITS_RW != 0
    }

    /// Sets the `RW` bit and makes the page writeable
    pub fn make_writeable(&mut self)
        ensures
            final(self)@ == old(self)@ | BITS_RW,
            has_flag(final(self)@, BITS_RW),
            final(self)@ & !BITS_RW == old(self)@ & !BITS_RW,
    {
        proof {
            lemma_mask_ops(self.0, BITS_RW);
        }
        self.0 = self.0 | BITS_RW;
    }

    /// Clears the `RW` bit and makes the page read-only
    pub fn make_read_only(&mut self)
        ensures
            final(self)@ == old(self)@ & !BITS_RW,
            !has_flag(final(self)@, BITS_RW),
            final(self)@ & !BITS_RW == old(self)@ & !BITS_RW,
    {
        proof {
            lemma_mask_ops(self.0, BITS_RW);
        }
        self.0 = self.0 & !BITS_RW;
    }

    /// Sets or clears the **R**ead/**W**rite (`RW`) bit
    pub fn set_writeable(&mut self, writeable: bool)
        ensures
            final(self)@ == (if writeable { old(self)@ | BITS_RW } else { old(self)@ & !BITS_RW }),
            has_flag(final(self)@, BITS_RW) == writeable,
            final(self)@ & !BITS_RW == old(self)@ & !BITS_RW,
    {
        if writeable {
            self.make_writeable();
        } else {
            self.make_read_only();
        }
    }

    /// Indicates whether userspace has access to the page
    pub fn is_userspace(&self) -> (r: bool)
        ensures
            r == has_flag(self@, BITS_US),
    {
        self.0 & BITS_US != 0
    }

    /// Sets the **U**ser/**S**upervisor (`US`) bit and makes the page accessible by userspace
    pub fn make_userspace(&mut self)
        ensures
            final(self)@ == old(self)@ | BITS_US,
            has_flag(final(self)@, BITS_US),
            final(self)@ & !BITS_US == old(self)@ & !BITS_US,
    {
        proof {
            lemma_mask_ops(self.0, BITS_US);
        }
        self.0 = self.0 | BITS_US;
    }

    /// Clears the **U**ser/**S**upervisor (`US`) bit and makes the page accessible only by the kernel
    pub fn make_kernel_only(&mut self)
        ensures
            final(self)@ == old(self)@ & !BITS_US,
            !has_flag(final(self)@, BITS_US),
            final(self)@ & !BITS_US == old(self)@ & !BITS_US,
    {
        proof {
            lemma_mask_ops(self.0, BITS_US);
        }
        self.0 = self.0 & !BITS_US;
    }

    /// Sets or clears the **U**ser/**S**upervisor bit
    pub fn set_userspace(&mut self, userspace: bool)
        ensures
            final(self)@ == (if userspace { old(self)@ | BITS_US } else { old(self)@ & !BITS_US }),
            has_flag(final(self)@, BITS_US) == userspace,
            final(self)@ & !BITS_US == old(self)@ & !BITS_US,
    {
        if userspace {
            self.make_userspace();
        } else {
            self.make_kernel_only();
        }
    }

    /// Indicates whether the `PWT` bit is set
    pub fn is_write_through_cached(&self) -> (r: bool)
        ensures
            r == has_flag(self@, BITS_PWT),
    {
        self.0 & BITS_PWT != 0
    }

    /// Sets the `PWT` bit to use write-through caching
    pub fn cache_write_through(&mut self)
        ensures
            final(self)@ == old(self)@ | BITS_PWT,
            has_flag(final(self)@, BITS_PWT),
            final(self)@ & !BITS_PWT == old(self)@ & !BITS_PWT,
    {
        proof {
            lemma_mask_ops(self.0, BITS_PWT);
        }
        self.0 = self.0 | BITS_PWT;
    }

    /// Clears the `PWT` bit to use write-back caching
    pub fn cache_write_back(&mut self)
        ensures
            final(self)@ == old(self)@ & !BITS_PWT,
            !has_flag(final(self)@, BITS_PWT),
            final(self)@ & !BITS_PWT == old(self)@ & !BITS_PWT,
    {
        proof {
            lemma_mask_ops(self.0, BITS_PWT);
        }
        self.0 = self.0 & !BITS_PWT;
    }

    /// Sets the `PWT` bit for write-through caching, clears it for write-back caching
    pub fn set_caching_method(&mut self, write_through: bool)
        ensures
            final(self)@ == (if write_through { old(self)@ | BITS_PWT } else { old(self)@ & !BITS_PWT }),
            has_flag(final(self)@, BITS_PWT) == write_through,
            final(self)@ & !BITS_PWT == old(self)@ & !BITS_PWT,
    {
        if write_through {
            self.cache_write_through();
        } else {
            self.cache_write_back();
        }
    }

    /// Indicates whether the page is cached: the cache-disable (`PCD`) bit is clear
    pub fn is_cached(&self) -> (r: bool)
        ensures
            r == !has_flag(self@, BITS_PCD),
    {
        self.0 & BITS_PCD == 0
    }

    /// Clears the cache-disable (`PCD`) bit to enable caching
    pub fn caching_enable(&mut self)
        ensures
            final(self)@ == old(self)@ & !BITS_PCD,
            !has_flag(final(self)@, BITS_PCD),
            final(self)@ & !BITS_PCD == old(self)@ & !BITS_PCD,
    {
        proof {
            lemma_mask_ops(self.0, BITS_PCD);
        }
        self.0 = self.0 & !BITS_PCD;
    }

    /// Sets the cache-disable (`PCD`) bit to disable caching
    pub fn caching_disable(&mut self)
        ensures
            final(self)@ == old(self)@ | BITS_PCD,
            has_flag(final(self)@, BITS_PCD),
            final(self)@ & !BITS_PCD == old(self)@ & !BITS_PCD,
    {
        proof {
            lemma_mask_ops(self.0, BITS_PCD);
        }
        self.0 = self.0 | BITS_PCD;
    }

    /// Enables or disables caching by manipulating the cache-disable (`PCD`) bit
    pub fn set_caching(&mut self, enable: bool)
        ensures
            final(self)@ == (if !enable { old(self)@ | BITS_PCD } else { old(self)@ & !BITS_PCD }),
            has_flag(final(self)@, BITS_PCD) == !enable,
            final(self)@ & !BITS_PCD == old(self)@ & !BITS_PCD,
    {
        if enable {
            self.caching_enable();
        } else {
            self.caching_disable();
        }
    }

    /// Indicates whether this entry has been accessed by the MMU while translating virtual addresses
    pub fn is_accessed(&self) -> (r: bool)
        ensures
            r == has_flag(self@, BITS_A),
    {
        self.0 & BITS_A != 0
    }

    /// Indicates whether the `PS` bit is set
    pub fn is_page_sized(&self) -> (r: bool)
        ensures
            r == has_flag(self@, BITS_PS),
    {
        self.0 & BITS_PS != 0
    }

    /// Returns the address of the `PDPT` table pointed to by this entry, `None` if it is null
    pub fn address(&self) -> (r: Option<u64>)
        ensures
            r == (if self@ & ADDRESS_MASK_4KB == 0 { None } else { Some(self@ & ADDRESS_MASK_4KB) }),
    {
        let a = self.0 & ADDRESS_MASK_4KB;
        if a == 0 {
            None
        } else {
            Some(a)
        }
    }
}

} // verus!
