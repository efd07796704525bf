//! Entries of the `PDPT` level that point to a 1GB page
use vstd::prelude::*;
use super::flags::{has_flag, lemma_mask_ops, lemma_pk_write, pk_of, ADDRESS_MASK_1GB, BITS_A, BITS_D, BITS_G, BITS_PAT, BITS_PCD, BITS_PK, BITS_PRESENT, BITS_PWT, BITS_RW, BITS_US, BITS_XD};

verus! {

/// A `PDPT` entry pointing to a 1GB page
#[derive(Clone, Copy)]
pub struct PdptSizedEntry(u64);

impl View for PdptSizedEntry {
    type V = u64;

    closed spec fn view(&self) -> u64 {
        self.0
    }
}

impl PdptSizedEntry {

    /// Returns the entry bits as integer
    pub fn as_u64(&self) -> (r: u64)
        ensures
            r == self@,
    {
        self.0
    }

    /// Creates new unused entry
    pub fn new_unused() -> (r: Self)
        ensures
            r@ == 0,
    {
        PdptSizedEntry(0)
    }

    /// Creates new entry directly from given bits
    pub fn new_raw(bits: u64) -> (r: Self)
        ensures
            r@ == bits,
    {
        PdptSizedEntry(bits)
    }

    /// Indicates whether this entry is unused/null
    pub fn is_unused(&self) -> (r: bool)
        ensures
            r == (self@ == 0),
    {
        self.0 == 0
    }

    /// Indicates whether the page is actually stored in memory at the moment
    pub fn is_present(&self) -> (r: bool)
        ensures
            r == has_flag(self@, BITS_PRESENT),
    {
        self.0 & BITS_PRESENT != 0
    }

    /// Sets the `P`resent bit
    pub fn make_present(&mut self)
        ensures
            final(self)@ == old(self)@ | BITS_PRESENT,
            has_flag(final(self)@, BITS_PRESENT),
            final(self)@ & !BITS_PRESENT == old(self)@ & !BITS_PRESENT,
    {
        proof {
            lemma_mask_ops(self.0, BITS_PRESENT);
        }
        self.0 = self.0 | BITS_PRESENT;
    }

    /// Clears the `P`resent bit
    pub fn make_unpresent(&mut self)
        ensures
            final(self)@ == old(self)@ & !BITS_PRESENT,
            !has_flag(final(self)@, BITS_PRESENT),
            final(self)@ & !BITS_PRESENT == old(self)@ & !BITS_PRESENT,
    {
        proof {
            lemma_mask_ops(self.0, BITS_PRESENT);
        }
        self.0 = self.0 & !BITS_PRESENT;
    }

    /// Sets or clears the `P`resent bit
    pub fn set_present(&mut self, present: bool)
        ensures
            final(self)@ == (if present { old(self)@ | BITS_PRESENT } else { old(self)@ & !BITS_PRESENT }),
            has_flag(final(self)@, BITS_PRESENT) == present,
            final(self)@ & !BITS_PRESENT == old(self)@ & !BITS_PRESENT,
    {
        if present {
            self.make_present();
        } else {
            self.make_unpresent();
        }
    }

    /// Indicates whether the page this entry is pointing to is writeable, or read only
    pub fn is_writeable(&self) -> (r: bool)
        ensures
            r == has_flag(self@, BITS_RW),
    {
        self.0 & BITS_RW != 0
    }

    /// Sets the `RW` bit and makes the page writeable
    pub fn make_writeable(&mut self)
        ensures
            final(self)@ == old(self)@ | BITS_RW,
            has_flag(final(self)@, BITS_RW),
            final(self)@ & !BITS_RW == old(self)@ & !BITS_RW,
    {
        proof {
            lemma_mask_ops(self.0, BITS_RW);
        }
        self.0 = self.0 | BITS_RW;
    }

    /// Clears the `RW` bit and makes the page read-only
    pub fn make_read_only(&mut self)
        ensures
            final(self)@ == old(self)@ & !BITS_RW,
            !has_flag(final(self)@, BITS_RW),
            final(self)@ & !BITS_RW == old(self)@ & !BITS_RW,
    {
        proof {
            lemma_mask_ops(self.0, BITS_RW);
        }
        self.0 = self.0 & !BITS_RW;
    }

    /// Sets or clears the **R**ead/**W**rite (`RW`) bit
    pub fn set_writeable(&mut self, writeable: bool)
        ensures
            final(self)@ == (if writeable { old(self)@ | BITS_RW } else { old(self)@ & !BITS_RW }),
            has_flag(final(self)@, BITS_RW) == writeable,
            final(self)@ & !BITS_RW == old(self)@ & !BITS_RW,
    {
        if writeable {
            self.make_writeable();
        } else {
            self.make_read_only();
        }
    }

    /// Indicates whether userspace has access to the page
    pub fn is_userspace(&self) -> (r: bool)
        ensures
            r == has_flag(self@, BITS_US),
    {
        self.0 & BITS_US != 0
    }

    /// Sets the **U**ser/**S**upervisor (`US`) bit and makes the page accessible by userspace
    pub fn make_userspace(&mut self)
        ensures
            final(self)@ == old(self)@ | BITS_US,
            has_flag(final(self)@, BITS_US),
            final(self)@ & !BITS_US == old(self)@ & !BITS_US,
    {
        proof {
            lemma_mask_ops(self.0, BITS_US);
        }
        self.0 = self.0 | BITS_US;
    }

    /// Clears the **U**ser/**S**upervisor (`US`) bit and makes the page accessible only by the kernel
    pub fn make_kernel_only(&mut self)
        ensures
            final(self)@ == old(self)@ & !BITS_US,
            !has_flag(final(self)@, BITS_US),
            final(self)@ & !BITS_US == old(self)@ & !BITS_US,
    {
        proof {
            lemma_mask_ops(self.0, BITS_US);
        }
        self.0 = self.0 & !BITS_US;
    }

    /// Sets or clears the **U**ser/**S**upervisor bit
    pub fn set_userspace(&mut self, userspace: bool)
        ensures
            final(self)@ == (if userspace { old(self)@ | BITS_US } else { old(self)@ & !BITS_US }),
            has_flag(final(self)@, BITS_US) == userspace,
            final(self)@ & !BITS_US == old(self)@ & !BITS_US,
    {
        if userspace {
            self.make_userspace();
        } else {
            self.make_kernel_only();
        }
    }

    /// Indicates whether the `PWT` bit is set
    pub fn is_write_through_cached(&self) -> (r: bool)
        ensures
            r == has_flag(self@, BITS_PWT),
    {
        self.0 & BITS_PWT != 0
    }

    /// Sets the `PWT` bit to use write-through caching
    pub fn cache_write_through(&mut self)
        ensures
            final(self)@ == old(self)@ | BITS_PWT,
            has_flag(final(self)@, BITS_PWT),
            final(self)@ & !BITS_PWT == old(self)@ & !BITS_PWT,
    {
        proof {
            lemma_mask_ops(self.0, BITS_PWT);
        }
        self.0 = self.0 | BITS_PWT;
    }

    /// Clears the `PWT` bit to use write-back caching
    pub fn cache_write_back(&mut self)
        ensures
            final(self)@ == old(self)@ & !BITS_PWT,
            !has_flag(final(self)@, BITS_PWT),
            final(self)@ & !BITS_PWT == old(self)@ & !BITS_PWT,
    {
        proof {
            lemma_mask_ops(self.0, BITS_PWT);
        }
        self.0 = self.0 & !BITS_PWT;
    }

    /// Sets the `PWT` bit for write-through caching, clears it for write-back caching
    pub fn set_caching_method(&mut self, write_through: bool)
        ensures
            final(self)@ == (if write_through { old(self)@ | BITS_PWT } else { old(self)@ & !BITS_PWT }),
            has_flag(final(self)@, BITS_PWT) == write_through,
            final(self)@ & !BITS_PWT == old(self)@ & !BITS_PWT,
    {
        if write_through {
            self.cache_write_through();
        } else {
            self.cache_write_back();
        }
    }

    /// Indicates whether the page is cached: the cache-disable (`PCD`) bit is clear
    pub fn is_cached(&self) -> (r: bool)
        ensures
            r == !has_flag(self@, BITS_PCD),
    {
        self.0 & BITS_PCD == 0
    }

    /// Clears the cache-disable (`PCD`) bit to enable caching
    pub fn caching_enable(&mut self)
        ensures
            final(self)@ == old(self)@ & !BITS_PCD,
            !has_flag(final(self)@, BITS_PCD),
            final(self)@ & !BITS_PCD == old(self)@ & !BITS_PCD,
    {
        proof {
            lemma_mask_ops(self.0, BITS_PCD);
        }
        self.0 = self.0 & !BITS_PCD;
    }

    /// Sets the cache-disable (`PCD`) bit to disable caching
    pub fn caching_disable(&mut self)
        ensures
            final(self)@ == old(self)@ | BITS_PCD,
            has_flag(final(self)@, BITS_PCD),
            final(self)@ & !BITS_PCD == old(self)@ & !BITS_PCD,
    {
        proof {
            lemma_mask_ops(self.0, BITS_PCD);
        }
        self.0 = self.0 | BITS_PCD;
    }

    /// Enables or disables caching by manipulating the cache-disable (`PCD`) bit
    pub fn set_caching(&mut self, enable: bool)
        ensures
            final(self)@ == (if !enable { old(self)@ | BITS_PCD } else { old(self)@ & !BITS_PCD }),
            has_flag(final(self)@, BITS_PCD) == !enable,
            final(self)@ & !BITS_PCD == old(self)@ & !BITS_PCD,
    {
        if enable {
            self.caching_enable();
        } else {
            self.caching_disable();
        }
    }

    /// Indicates whether this entry has been accessed by the MMU while translating virtual addresses
    pub fn is_accessed(&self) -> (r: bool)
        ensures
            r == has_flag(self@, BITS_A),
    {
        self.0 & BITS_A != 0
    }

    /// Determines whether the page has been written into
    pub fn is_dirty(&self) -> (r: bool)
        ensures
            r == has_flag(self@, BITS_D),
    {
        self.0 & BITS_D != 0
    }

    /// Indicates whether the page is global and will not be flushed when writing into `cr3`
    pub fn is_global(&self) -> (r: bool)
        ensures
            r == has_flag(self@, BITS_G),
    {
        self.0 & BITS_G != 0
    }

    /// Marks the page as global to not be flushed when writing into `cr3`
    pub fn make_global(&mut self)
        ensures
            final(self)@ == old(self)@ | BITS_G,
            has_flag(final(self)@, BITS_G),
            final(self)@ & !BITS_G == old(self)@ & !BITS_G,
    {
        proof {
            lemma_mask_ops(self.0, BITS_G);
        }
        self.0 = self.0 | BITS_G;
    }

    /// Disables the `G`lobal bit
    pub fn make_local(&mut self)
        ensures
            final(self)@ == old(self)@ & !BITS_G,
            !has_flag(final(self)@, BITS_G),
            final(self)@ & !BITS_G == old(self)@ & !BITS_G,
    {
        proof {
            lemma_mask_ops(self.0, BITS_G);
        }
        self.0 = self.0 & !BITS_G;
    }

    /// Reads the `PAT` bit
    pub fn get_pat(&self) -> (r: bool)
        ensures
            r == has_flag(self@, BITS_PAT),
    {
        self.0 & BITS_PAT != 0
    }

    /// Sets the `PAT` bit
    pub fn pat_enable(&mut self)
        ensures
            final(self)@ == old(self)@ | BITS_PAT,
            has_flag(final(self)@, BITS_PAT),
            final(self)@ & !BITS_PAT == old(self)@ & !BITS_PAT,
    {
        proof {
            lemma_mask_ops(self.0, BITS_PAT);
        }
        self.0 = self.0 | BITS_PAT;
    }

    /// Clears the `PAT` bit
    pub fn pat_disable(&mut self)
        ensures
            final(self)@ == old(self)@ & !BITS_PAT,
            !has_flag(final(self)@, BITS_PAT),
            final(self)@ & !BITS_PAT == old(self)@ & !BITS_PAT,
    {
        proof {
            lemma_mask_ops(self.0, BITS_PAT);
        }
        self.0 = self.0 & !BITS_PAT;
    }

    /// Returns the address of the page this entry is pointing to, `None` if it is null
    pub fn address(&self) -> (r: Option<u64>)
        ensures
            r == (if self@ & ADDRESS_MASK_1GB == 0 { None } else { Some(self@ & ADDRESS_MASK_1GB) }),
    {
        let a = self.0 & ADDRESS_MASK_1GB;
        if a == 0 {
            None
        } else {
            Some(a)
        }
    }

    /// Returns the address of the page this entry is pointing to
    pub fn address_raw(&self) -> (r: u64)
        ensures
            r == self@ & ADDRESS_MASK_1GB,
    {
        self.0 & ADDRESS_MASK_1GB
    }

    /// Returns the protection key (`PK` bits)
    pub fn protection_key(&self) -> (r: u8)
        ensures
            r == pk_of(self@),
    {
        ((self.0 >> 59u64) & 0xF) as u8
    }

    /// Sets the protection key (`PK` bits) to the low four bits of `pk`
    pub fn set_protection_key(&mut self, pk: u8)
        ensures
            final(self)@ == (old(self)@ & !BITS_PK) | (((pk as u64) << 59u64) & BITS_PK),
            pk_of(final(self)@) == pk & 0xF,
            final(self)@ & !BITS_PK == old(self)@ & !BITS_PK,
    {
        proof {
            lemma_pk_write(self.0, pk);
        }
        self.0 = self.0 & !BITS_PK;
        self.0 = self.0 | (((pk as u64) << 59u64) & BITS_PK);
    }

    /// Indicates whether the page is executable: the `XD` bit is clear
    pub fn is_executable(&self) -> (r: bool)
        ensures
            r == !has_flag(self@, BITS_XD),
    {
        self.0 & BITS_XD == 0
    }

    /// Clears the `XD` bit: the page becomes executable
    pub fn make_executable(&mut self)
        ensures
            final(self)@ == old(self)@ & !BITS_XD,
            !has_flag(final(self)@, BITS_XD),
            final(self)@ & !BITS_XD == old(self)@ & !BITS_XD,
    {
        proof {
            lemma_mask_ops(self.0, BITS_XD);
        }
        self.0 = self.0 & !BITS_XD;
    }

    /// Sets the `XD` bit: the page can no longer be executed
    pub fn disable_execute(&mut self)
        ensures
            final(self)@ == old(self)@ | BITS_XD,
            has_flag(final(self)@, BITS_XD),
            final(self)@ & !BITS_XD == old(self)@ & !BITS_XD,
    {
        proof {
            lemma_mask_ops(self.0, BITS_XD);
        }
        self.0 = self.0 | BITS_XD;
    }

    /// Makes the page executable when `exec` holds (clears the `XD` bit)
    /// and disables execution otherwise (sets it)
    pub fn set_executable(&mut self, exec: bool)
        ensures
            final(self)@ == (if exec { old(self)@ & !BITS_XD } else { old(self)@ | BITS_XD }),
            has_flag(final(self)@, BITS_XD) == !exec,
            final(self)@ & !BITS_XD == old(self)@ & !BITS_XD,
    {
        if exec {
            self.make_executable();
        } else {
            self.disable_execute();
        }
    }

}

} // verus!
