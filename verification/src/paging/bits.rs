//! Builders of page entries: each starts from the defaults and sets or clears one bit at a time
use vstd::prelude::*;
use super::flags::{has_flag, ADDRESS_MASK_2MB, ADDRESS_MASK_4KB, BITS_G, BITS_PRESENT, BITS_PS, BITS_RW, BITS_US, BITS_XD};
use super::entries::{PdRegularEntry, PdSizedEntry, PtEntry};

verus! {

/// Used to initialize any kernel regular page table entry
pub struct KernelBits(u64);

impl View for KernelBits {
    type V = u64;

    closed spec fn view(&self) -> u64 {
        self.0
    }
}

impl KernelBits {

    /// Gives the default bits of a kernel `PdRegularEntry`: present, read-only, accessible only from the kernel and **NOT** executable
    pub fn new() -> (r: Self)
        ensures
            r@ == BITS_PRESENT | BITS_XD,
    {
        Self(BITS_PRESENT | BITS_XD)
    }

    /// Returns the underlying bits as integer
    pub fn as_u64(&self) -> (r: u64)
        ensures
            r == self@,
    {
        self.0
    }

    /// Makes the entry not present
    pub fn unpresent(self) -> (r: Self)
        ensures
            r@ == self@ & !BITS_PRESENT,
    {
        Self(self.0 & !BITS_PRESENT)
    }

    /// Makes the entry executable
    pub fn executable(self) -> (r: Self)
        ensures
            r@ == self@ & !BITS_XD,
    {
        Self(self.0 & !BITS_XD)
    }

    /// Makes the page writeable
    pub fn writeable(self) -> (r: Self)
        ensures
            r@ == self@ | BITS_RW,
    {
        Self(self.0 | BITS_RW)
    }

    /// Sets the address of the entry
    pub fn address(self, a: usize) -> (r: Self)
        ensures
            r@ == self@ | ((a as u64) & ADDRESS_MASK_4KB),
    {
        Self(self.0 | ((a as u64) & ADDRESS_MASK_4KB))
    }
}

/// Used to initialize user `PdRegularEntry`
pub struct UserBits(u64);

impl View for UserBits {
    type V = u64;

    closed spec fn view(&self) -> u64 {
        self.0
    }
}

impl UserBits {

    /// Gives the default bits of a user `PdRegularEntry`: present, read-only, accessible from userspace and **NOT** executable
    pub fn new() -> (r: Self)
        ensures
            r@ == BITS_PRESENT | BITS_US | BITS_XD,
    {
        Self(BITS_PRESENT | BITS_US | BITS_XD)
    }

    /// Returns the underlying bits as integer
    pub fn as_u64(&self) -> (r: u64)
        ensures
            r == self@,
    {
        self.0
    }

    /// Makes the entry not present
    pub fn unpresent(self) -> (r: Self)
        ensures
            r@ == self@ & !BITS_PRESENT,
    {
        Self(self.0 & !BITS_PRESENT)
    }

    /// Makes the entry executable
    pub fn executable(self) -> (r: Self)
        ensures
            r@ == self@ & !BITS_XD,
    {
        Self(self.0 & !BITS_XD)
    }

    /// Makes the page writeable
    pub fn writeable(self) -> (r: Self)
        ensures
            r@ == self@ | BITS_RW,
    {
        Self(self.0 | BITS_RW)
    }

    /// Sets the address of the entry
    pub fn address(self, a: usize) -> (r: Self)
        ensures
            r@ == self@ | ((a as u64) & ADDRESS_MASK_4KB),
    {
        Self(self.0 | ((a as u64) & ADDRESS_MASK_4KB))
    }

    /// Sets the protection key
    pub fn protection_key(self, pk: u8) -> (r: Self)
        ensures
            r@ == self@ | (((pk as u64) & 0xF) << 59u64),
    {
        Self(self.0 | (((pk as u64) & 0xF) << 59u64))
    }
}

/// Used to initialize kernel `PdSizedEntry`
pub struct PdSizedKernelBits(u64);

impl View for PdSizedKernelBits {
    type V = u64;

    closed spec fn view(&self) -> u64 {
        self.0
    }
}

impl PdSizedKernelBits {

    /// Gives the default bits of a kernel `PdSizedEntry`: present, read-only, page-sized, accessible only by the kernel and **NOT** executable
    pub fn new() -> (r: Self)
        ensures
            r@ == BITS_PRESENT | BITS_PS | BITS_XD,
    {
        Self(BITS_PRESENT | BITS_PS | BITS_XD)
    }

    /// Returns the underlying bits as integer
    pub fn as_u64(&self) -> (r: u64)
        ensures
            r == self@,
    {
        self.0
    }

    /// Makes the entry not present
    pub fn unpresent(self) -> (r: Self)
        ensures
            r@ == self@ & !BITS_PRESENT,
    {
        Self(self.0 & !BITS_PRESENT)
    }

    /// Makes the entry executable
    pub fn executable(self) -> (r: Self)
        ensures
            r@ == self@ & !BITS_XD,
    {
        Self(self.0 & !BITS_XD)
    }

    /// Disables the `G`lobal bit
    pub fn local(self) -> (r: Self)
        ensures
            r@ == self@ & !BITS_G,
    {
        Self(self.0 & !BITS_G)
    }

    /// Makes the page writeable
    pub fn writeable(self) -> (r: Self)
        ensures
            r@ == self@ | BITS_RW,
    {
        Self(self.0 | BITS_RW)
    }

    /// Sets the address of the entry
    pub fn address(self, a: usize) -> (r: Self)
        ensures
            r@ == self@ | ((a as u64) & ADDRESS_MASK_2MB),
    {
        Self(self.0 | ((a as u64) & ADDRESS_MASK_2MB))
    }

    /// Converts into `PdSizedEntry`
    /// - Returns `None` if the entry is executable and writeable at the same time
    pub fn into_entry(self) -> (r: Option<PdSizedEntry>)
        ensures
            r is None <==> (!has_flag(self@, BITS_XD) && has_flag(self@, BITS_RW)),
            r matches Some(e) ==> e@ == self@,
    {
        if self.0 & BITS_XD == 0 && self.0 & BITS_RW != 0 {
            None
        } else {
            Some(PdSizedEntry::from_bits(self.0))
        }
    }
}

/// Used to initialize user `PdSizedEntry`
pub struct PdSizedUserBits(u64);

impl View for PdSizedUserBits {
    type V = u64;

    closed spec fn view(&self) -> u64 {
        self.0
    }
}

impl PdSizedUserBits {

    /// Gives the default bits of a user `PdSizedEntry`: present, read-only, page-sized, accessible from userspace and **NOT** executable
    pub fn new() -> (r: Self)
        ensures
            r@ == BITS_PRESENT | BITS_US | BITS_PS | BITS_XD,
    {
        Self(BITS_PRESENT | BITS_US | BITS_PS | BITS_XD)
    }

    /// Returns the underlying bits as integer
    pub fn as_u64(&self) -> (r: u64)
        ensures
            r == self@,
    {
        self.0
    }

    /// Makes the entry not present
    pub fn unpresent(self) -> (r: Self)
        ensures
            r@ == self@ & !BITS_PRESENT,
    {
        Self(self.0 & !BITS_PRESENT)
    }

    /// Makes the entry executable
    pub fn executable(self) -> (r: Self)
        ensures
            r@ == self@ & !BITS_XD,
    {
        Self(self.0 & !BITS_XD)
    }

    /// Disables the `G`lobal bit
    pub fn local(self) -> (r: Self)
        ensures
            r@ == self@ & !BITS_G,
    {
        Self(self.0 & !BITS_G)
    }

    /// Makes the page writeable
    pub fn writeable(self) -> (r: Self)
        ensures
            r@ == self@ | BITS_RW,
    {
        Self(self.0 | BITS_RW)
    }

    /// Sets the address of the entry
    pub fn address(self, a: usize) -> (r: Self)
        ensures
            r@ == self@ | ((a as u64) & ADDRESS_MASK_2MB),
    {
        Self(self.0 | ((a as u64) & ADDRESS_MASK_2MB))
    }

    /// Sets the protection key
    pub fn protection_key(self, pk: u8) -> (r: Self)
        ensures
            r@ == self@ | (((pk as u64) & 0xF) << 59u64),
    {
        Self(self.0 | (((pk as u64) & 0xF) << 59u64))
    }

    /// Converts into `PdSizedEntry`
    /// - Returns `None` if the entry is executable and writeable at the same time
    pub fn into_entry(self) -> (r: Option<PdSizedEntry>)
        ensures
            r is None <==> (!has_flag(self@, BITS_XD) && has_flag(self@, BITS_RW)),
            r matches Some(e) ==> e@ == self@,
    {
        if self.0 & BITS_XD == 0 && self.0 & BITS_RW != 0 {
            None
        } else {
            Some(PdSizedEntry::from_bits(self.0))
        }
    }
}

/// Used to initialize kernel `PtEntry`
pub struct PtKernelBits(u64);

impl View for PtKernelBits {
    type V = u64;

    closed spec fn view(&self) -> u64 {
        self.0
    }
}

impl PtKernelBits {

    /// Gives the default bits of a kernel `PtEntry`: present, global, read-only and **NOT** executable
    pub fn new() -> (r: Self)
        ensures
            r@ == BITS_PRESENT | BITS_G | BITS_XD,
    {
        Self(BITS_PRESENT | BITS_G | BITS_XD)
    }

    /// Returns the underlying bits as integer
    pub fn as_u64(&self) -> (r: u64)
        ensures
            r == self@,
    {
        self.0
    }

    /// Makes the entry not present
    pub fn unpresent(self) -> (r: Self)
        ensures
            r@ == self@ & !BITS_PRESENT,
    {
        Self(self.0 & !BITS_PRESENT)
    }

    /// Makes the entry executable
    pub fn executable(self) -> (r: Self)
        ensures
            r@ == self@ & !BITS_XD,
    {
        Self(self.0 & !BITS_XD)
    }

    /// Disables the `G`lobal bit
    pub fn local(self) -> (r: Self)
        ensures
            r@ == self@ & !BITS_G,
    {
        Self(self.0 & !BITS_G)
    }

    /// Makes the page writeable
    pub fn writeable(self) -> (r: Self)
        ensures
            r@ == self@ | BITS_RW,
    {
        Self(self.0 | BITS_RW)
    }

    /// Sets the address of the entry
    pub fn address(self, a: usize) -> (r: Self)
        ensures
            r@ == self@ | ((a as u64) & ADDRESS_MASK_4KB),
    {
        Self(self.0 | ((a as u64) & ADDRESS_MASK_4KB))
    }

    /// Converts into `PtEntry`
    /// - Returns `None` if the entry is executable and writeable at the same time
    pub fn into_entry(self) -> (r: Option<PtEntry>)
        ensures
            r is None <==> (!has_flag(self@, BITS_XD) && has_flag(self@, BITS_RW)),
            r matches Some(e) ==> e@ == self@,
    {
        if self.0 & BITS_XD == 0 && self.0 & BITS_RW != 0 {
            None
        } else {
            Some(PtEntry::from_bits(self.0))
        }
    }
}

/// Used to initialize user `PtEntry`
pub struct PtUserBits(u64);

impl View for PtUserBits {
    type V = u64;

    closed spec fn view(&self) -> u64 {
        self.0
    }
}

impl PtUserBits {

    /// Gives the default bits of a user `PtEntry`: present, read-only, accessible from userspace and **NOT** executable
    pub fn new() -> (r: Self)
        ensures
            r@ == BITS_PRESENT | BITS_US | BITS_XD,
    {
        Self(BITS_PRESENT | BITS_US | BITS_XD)
    }

    /// Returns the underlying bits as integer
    pub fn as_u64(&self) -> (r: u64)
        ensures
            r == self@,
    {
        self.0
    }

    /// Makes the entry not present
    pub fn unpresent(self) -> (r: Self)
        ensures
            r@ == self@ & !BITS_PRESENT,
    {
        Self(self.0 & !BITS_PRESENT)
    }

    /// Makes the entry executable
    pub fn executable(self) -> (r: Self)
        ensures
            r@ == self@ & !BITS_XD,
    {
        Self(self.0 & !BITS_XD)
    }

    /// Disables the `G`lobal bit
    pub fn local(self) -> (r: Self)
        ensures
            r@ == self@ & !BITS_G,
    {
        Self(self.0 & !BITS_G)
    }

    /// Makes the page writeable
    pub fn writeable(self) -> (r: Self)
        ensures
            r@ == self@ | BITS_RW,
    {
        Self(self.0 | BITS_RW)
    }

    /// Sets the address of the entry
    pub fn address(self, a: usize) -> (r: Self)
        ensures
            r@ == self@ | ((a as u64) & ADDRESS_MASK_4KB),
    {
        Self(self.0 | ((a as u64) & ADDRESS_MASK_4KB))
    }

    /// Sets the protection key
    pub fn protection_key(self, pk: u8) -> (r: Self)
        ensures
            r@ == self@ | (((pk as u64) & 0xF) << 59u64),
    {
        Self(self.0 | (((pk as u64) & 0xF) << 59u64))
    }

    /// Converts into `PtEntry`
    /// - Returns `None` if the entry is executable and writeable at the same time
    pub fn into_entry(self) -> (r: Option<PtEntry>)
        ensures
            r is None <==> (!has_flag(self@, BITS_XD) && has_flag(self@, BITS_RW)),
            r matches Some(e) ==> e@ == self@,
    {
        if self.0 & BITS_XD == 0 && self.0 & BITS_RW != 0 {
            None
        } else {
            Some(PtEntry::from_bits(self.0))
        }
    }
}

/// Used to initialize regular kernel pd entries
pub struct PdKernelBits(u64);

impl View for PdKernelBits {
    type V = u64;

    closed spec fn view(&self) -> u64 {
        self.0
    }
}

impl PdKernelBits {

    /// Returns the underlying bits as integer
    pub fn as_u64(&self) -> (r: u64)
        ensures
            r == self@,
    {
        self.0
    }

    /// Makes the entry not present
    pub fn unpresent(self) -> (r: Self)
        ensures
            r@ == self@ & !BITS_PRESENT,
    {
        Self(self.0 & !BITS_PRESENT)
    }

    /// Makes the entry executable
    pub fn executable(self) -> (r: Self)
        ensures
            r@ == self@ & !BITS_XD,
    {
        Self(self.0 & !BITS_XD)
    }

    /// Makes the page writeable
    pub fn writeable(self) -> (r: Self)
        ensures
            r@ == self@ | BITS_RW,
    {
        Self(self.0 | BITS_RW)
    }

    /// Sets the address of the entry
    pub fn address(self, a: usize) -> (r: Self)
        ensures
            r@ == self@ | ((a as u64) & ADDRESS_MASK_4KB),
    {
        Self(self.0 | ((a as u64) & ADDRESS_MASK_4KB))
    }

    /// Converts into `PdRegularEntry`
    /// - Returns `None` if the entry is executable and writeable at the same time
    pub fn into_entry(self) -> (r: Option<PdRegularEntry>)
        ensures
            r is None <==> (!has_flag(self@, BITS_XD) && has_flag(self@, BITS_RW)),
            r matches Some(e) ==> e@ == self@,
    {
        if self.0 & BITS_XD == 0 && self.0 & BITS_RW != 0 {
            None
        } else {
            Some(PdRegularEntry::from_bits(self.0))
        }
    }
}

/// Used to initialize regular user pd entries
pub struct PdUserBits(u64);

impl View for PdUserBits {
    type V = u64;

    closed spec fn view(&self) -> u64 {
        self.0
    }
}

impl PdUserBits {

    /// Returns the underlying bits as integer
    pub fn as_u64(&self) -> (r: u64)
        ensures
            r == self@,
    {
        self.0
    }

    /// Makes the entry not present
    pub fn unpresent(self) -> (r: Self)
        ensures
            r@ == self@ & !BITS_PRESENT,
    {
        Self(self.0 & !BITS_PRESENT)
    }

    /// Makes the entry executable
    pub fn executable(self) -> (r: Self)
        ensures
            r@ == self@ & !BITS_XD,
    {
        Self(self.0 & !BITS_XD)
    }

    /// Makes the page writeable
    pub fn writeable(self) -> (r: Self)
        ensures
            r@ == self@ | BITS_RW,
    {
        Self(self.0 | BITS_RW)
    }

    /// Sets the address of the entry
    pub fn address(self, a: usize) -> (r: Self)
        ensures
            r@ == self@ | ((a as u64) & ADDRESS_MASK_4KB),
    {
        Self(self.0 | ((a as u64) & ADDRESS_MASK_4KB))
    }

    /// Sets the protection key
    pub fn protection_key(self, pk: u8) -> (r: Self)
        ensures
            r@ == self@ | (((pk as u64) & 0xF) << 59u64),
    {
        Self(self.0 | (((pk as u64) & 0xF) << 59u64))
    }

    /// Converts into `PdRegularEntry`
    /// - Returns `None` if the entry is executable and writeable at the same time
    pub fn into_entry(self) -> (r: Option<PdRegularEntry>)
        ensures
            r is None <==> (!has_flag(self@, BITS_XD) && has_flag(self@, BITS_RW)),
            r matches Some(e) ==> e@ == self@,
    {
        if self.0 & BITS_XD == 0 && self.0 & BITS_RW != 0 {
            None
        } else {
            Some(PdRegularEntry::from_bits(self.0))
        }
    }
}

} // verus!
