//! Virtual addresses of the x86_64 four-level paging and the table indices they hold
use vstd::prelude::*;
use crate::misc::PAGE_TABLE_ENTRY_COUNT;

verus! {

/// The highest 16 bits of an address, set in kernel addresses
pub const HIGH_BITS: u64 = 0xFFFF_0000_0000_0000;

/// The lowest 48 bits of an address, which the page tables translate
pub const LOW_BITS: u64 = 0xFFFF_FFFF_FFFF;

/// Mask of the offset within the page
pub const OFFSET_MASK: u64 = 0xFFF;

/// Mask of one table index
pub const NINE_BIT_MASK: u64 = 0x1FF;

/// The shift of the `PT` table index
pub const PT_SHIFT: u64 = 12;

/// The shift of the `PD` table index
pub const PD_SHIFT: u64 = 21;

/// The shift of the `PDPT` table index
pub const PDPT_SHIFT: u64 = 30;

/// The shift of the `PML4` table index
pub const PML4_SHIFT: u64 = 39;

/// Mask of the `PT` table index
pub const PT_MASK: u64 = 0x1F_F000;

/// Mask of the `PD` table index
pub const PD_MASK: u64 = 0x3FE0_0000;

/// Mask of the `PDPT` table index
pub const PDPT_MASK: u64 = 0x7F_C000_0000;

/// Mask of the `PML4` table index
pub const PML4_MASK: u64 = 0xFF80_0000_0000;

/// The offset within the page held in the address `x`
pub open spec fn va_offset(x: u64) -> u16 {
    (x & 0xFFF) as u16
}

/// The nine-bit table index held at `shift` in the address `x`
pub open spec fn va_index(x: u64, shift: u64) -> u16 {
    ((x >> shift) & 0x1FF) as u16
}

/// The highest 16 bits of the address `x` are all set
pub open spec fn va_is_kernel(x: u64) -> bool {
    (x >> 48u64) as u16 == 0xFFFF
}

/// The low 48 bits `low` advanced by `inc`, saturated to the largest 48-bit value
pub open spec fn low_add(low: u64, inc: int) -> u64 {
    if low + inc > LOW_BITS {
        LOW_BITS
    } else {
        (low + inc) as u64
    }
}

/// The low 48 bits `low` moved back by `dec`, saturated to zero
pub open spec fn low_sub(low: u64, dec: int) -> u64 {
    if dec > low {
        0
    } else {
        (low - dec) as u64
    }
}

/// Writing a field of the address stores the field and keeps all other bits
proof fn lemma_va_writes(x: u64, v: u16)
    by (bit_vector)
    ensures
        va_offset((x & !0xFFFu64) | ((v as u64) & 0xFFF)) == v & 0xFFF,
        ((x & !0xFFFu64) | ((v as u64) & 0xFFF)) & !0xFFFu64 == x & !0xFFFu64,
        va_index((x & !0x1F_F000u64) | (((v as u64) & 0x1FF) << 12u64), 12u64) == v & 0x1FF,
        ((x & !0x1F_F000u64) | (((v as u64) & 0x1FF) << 12u64)) & !0x1F_F000u64 == x & !0x1F_F000u64,
        ((x >> 12u64) & 0x1FF) < 512,
        va_index((x & !0x3FE0_0000u64) | (((v as u64) & 0x1FF) << 21u64), 21u64) == v & 0x1FF,
        ((x & !0x3FE0_0000u64) | (((v as u64) & 0x1FF) << 21u64)) & !0x3FE0_0000u64 == x & !0x3FE0_0000u64,
        ((x >> 21u64) & 0x1FF) < 512,
        va_index((x & !0x7F_C000_0000u64) | (((v as u64) & 0x1FF) << 30u64), 30u64) == v & 0x1FF,
        ((x & !0x7F_C000_0000u64) | (((v as u64) & 0x1FF) << 30u64)) & !0x7F_C000_0000u64 == x & !0x7F_C000_0000u64,
        ((x >> 30u64) & 0x1FF) < 512,
        va_index((x & !0xFF80_0000_0000u64) | (((v as u64) & 0x1FF) << 39u64), 39u64) == v & 0x1FF,
        ((x & !0xFF80_0000_0000u64) | (((v as u64) & 0x1FF) << 39u64)) & !0xFF80_0000_0000u64 == x & !0xFF80_0000_0000u64,
        ((x >> 39u64) & 0x1FF) < 512,
{
}

/// Addresses that agree in their low 48 bits hold the same offset and the same table indices
proof fn lemma_va_low_determines(x: u64, y: u64)
    by (bit_vector)
    requires
        x & 0xFFFF_FFFF_FFFFu64 == y & 0xFFFF_FFFF_FFFFu64,
    ensures
        va_offset(x) == va_offset(y),
        va_index(x, 12) == va_index(y, 12),
        va_index(x, 21) == va_index(y, 21),
        va_index(x, 30) == va_index(y, 30),
        va_index(x, 39) == va_index(y, 39),
{
}

/// Setting or clearing the high 16 bits marks the address as a kernel or a user address
/// and keeps its low 48 bits
proof fn lemma_va_high(x: u64)
    by (bit_vector)
    ensures
        va_is_kernel(x | 0xFFFF_0000_0000_0000u64),
        !va_is_kernel(x & !0xFFFF_0000_0000_0000u64),
        (x | 0xFFFF_0000_0000_0000u64) & 0xFFFF_FFFF_FFFFu64 == x & 0xFFFF_FFFF_FFFFu64,
        (x & !0xFFFF_0000_0000_0000u64) & 0xFFFF_FFFF_FFFFu64 == x & 0xFFFF_FFFF_FFFFu64,
{
}

/// An address is made of its low 48 bits and its high 16 bits
proof fn lemma_va_parts(x: u64, l: u64, e: u64)
    by (bit_vector)
    ensures
        x & 0xFFFF_FFFF_FFFFu64 <= 0xFFFF_FFFF_FFFFu64,
        (x & 0xFFFF_FFFF_FFFFu64) | (x & 0xFFFF_0000_0000_0000u64) == x,
        x & !0xFFFF_0000_0000_0000u64 == x & 0xFFFF_FFFF_FFFFu64,
        l <= 0xFFFF_FFFF_FFFFu64 ==> (l | (x & 0xFFFF_0000_0000_0000u64)) & 0xFFFF_FFFF_FFFFu64 == l,
        l <= 0xFFFF_FFFF_FFFFu64 ==> (l | (x & 0xFFFF_0000_0000_0000u64)) & 0xFFFF_0000_0000_0000u64
            == x & 0xFFFF_0000_0000_0000u64,
        (e & 0xFFFF_FFFF_FFFFu64) << 0u64 == (e % 0x1_0000_0000_0000) * 1,
        (e & 0xF_FFFF_FFFFu64) << 12u64 == (e % 0x10_0000_0000) * 0x1000,
        (e & 0x7FF_FFFFu64) << 21u64 == (e % 0x800_0000) * 0x20_0000,
        (e & 0x3_FFFFu64) << 30u64 == (e % 0x4_0000) * 0x4000_0000,
        (e & 0x1FFu64) << 39u64 == (e % 0x200) * 0x80_0000_0000,
        (e & 0xF_FFFF_FFFF_FFFFu64) << 12u64 == (e % 0x10_0000_0000_0000) * 0x1000,
        (e & 0x7FF_FFFF_FFFFu64) << 21u64 == (e % 0x800_0000_0000) * 0x20_0000,
        (e & 0x3_FFFF_FFFFu64) << 30u64 == (e % 0x4_0000_0000) * 0x4000_0000,
        (e & 0x1FF_FFFFu64) << 39u64 == (e % 0x200_0000) * 0x80_0000_0000,
{
}

/// An address made of its parts holds its offset, its four table indices and its kernel mark
proof fn lemma_va_compose(kernel: bool, pml4: u16, pdpt: u16, pd: u16, pt: u16, offset: u16)
    by (bit_vector)
    ensures
        ({
            let x = ((offset as u64) & 0xFFF) | (((pt as u64) & 0x1FF) << 12u64) | (((pd as u64) & 0x1FF) << 21u64)
                | (((pdpt as u64) & 0x1FF) << 30u64) | (((pml4 as u64) & 0x1FF) << 39u64) | (if kernel {
                0xFFFF_0000_0000_0000u64
            } else {
                0u64
            });
            &&& va_offset(x) == offset & 0xFFF
            &&& va_index(x, 12) == pt & 0x1FF
            &&& va_index(x, 21) == pd & 0x1FF
            &&& va_index(x, 30) == pdpt & 0x1FF
            &&& va_index(x, 39) == pml4 & 0x1FF
            &&& va_is_kernel(x) == kernel
        }),
{
}

/// Moving the low 48 bits forward and then back by the same amount gives them back,
/// as long as the forward move does not saturate
pub proof fn lemma_add_then_sub(low: u64, inc: int)
    requires
        low <= LOW_BITS,
        0 <= inc,
        low + inc <= LOW_BITS,
    ensures
        low_add(low, inc) == low + inc,
        low_sub(low_add(low, inc), inc) == low,
{
}

/// The `PML4` index held in the address `x`, told apart by the half of the table it falls in
pub open spec fn pml4_indexer_of(x: u64) -> Pml4Indexer {
    let i = va_index(x, 39);
    if i >= 256 {
        Pml4Indexer::Kernel((i - 256) as u8)
    } else {
        Pml4Indexer::User(i as u8)
    }
}

/// A representation of virtual address
#[derive(Clone, Copy)]
pub struct VirtualAddress(u64);

impl View for VirtualAddress {
    type V = u64;

    closed spec fn view(&self) -> u64 {
        self.0
    }
}

impl VirtualAddress {
    /// Constructs the `VirtualAddress` from the raw address
    pub fn from_u64(raw: u64) -> (r: Self)
        ensures
            r@ == raw,
    {
        VirtualAddress(raw)
    }

    /// Returns the raw address
    pub fn as_u64(&self) -> (r: u64)
        ensures
            r == self@,
    {
        self.0
    }

    /// Constructs the `VirtualAddress` from the raw parts
    pub fn from_parts(kernel: bool, pml4: u16, pdpt: u16, pd: u16, pt: u16, offset: u16) -> (r: Self)
        ensures
            r@ == ((offset as u64) & 0xFFF) | (((pt as u64) & 0x1FF) << 12u64) | (((pd as u64) & 0x1FF) << 21u64)
                | (((pdpt as u64) & 0x1FF) << 30u64) | (((pml4 as u64) & 0x1FF) << 39u64) | (if kernel {
                HIGH_BITS
            } else {
                0
            }),
            va_offset(r@) == offset & 0xFFF,
            va_index(r@, 12) == pt & 0x1FF,
            va_index(r@, 21) == pd & 0x1FF,
            va_index(r@, 30) == pdpt & 0x1FF,
            va_index(r@, 39) == pml4 & 0x1FF,
            va_is_kernel(r@) == kernel,
    {
        proof {
            lemma_va_compose(kernel, pml4, pdpt, pd, pt, offset);
        }
        let high: u64 = if kernel {
            HIGH_BITS
        } else {
            0
        };
        let inner = ((offset as u64) & OFFSET_MASK) | (((pt as u64) & NINE_BIT_MASK) << PT_SHIFT) | (((pd as u64)
            & NINE_BIT_MASK) << PD_SHIFT) | (((pdpt as u64) & NINE_BIT_MASK) << PDPT_SHIFT) | (((pml4 as u64)
            & NINE_BIT_MASK) << PML4_SHIFT) | high;
        VirtualAddress(inner)
    }

    /// Indicates whether the address is null
    pub fn is_null(&self) -> (r: bool)
        ensures
            r == (self@ == 0),
    {
        self.0 == 0
    }

    /// Returns the offset within the page
    pub fn offset(&self) -> (r: u16)
        ensures
            r == va_offset(self@),
    {
        (self.0 & OFFSET_MASK) as u16
    }

    /// Sets the offset of this address to the low 12 bits of `offset`
    pub fn set_offset(&mut self, offset: u16)
        ensures
            final(self)@ == (old(self)@ & !OFFSET_MASK) | ((offset as u64) & OFFSET_MASK),
            va_offset(final(self)@) == offset & 0xFFF,
            final(self)@ & !OFFSET_MASK == old(self)@ & !OFFSET_MASK,
    {
        proof {
            lemma_va_writes(self.0, offset);
        }
        self.0 = (self.0 & !OFFSET_MASK) | ((offset as u64) & OFFSET_MASK);
    }

    /// Returns the index of the `PT` table
    pub fn pt_index(&self) -> (r: PtIndexer)
        ensures
            r.index_spec() == va_index(self@, 12),
    {
        proof {
            lemma_va_writes(self.0, 0);
        }
        let idx = ((self.0 >> PT_SHIFT) & NINE_BIT_MASK) as u16;
        PtIndexer::new_unchecked(idx)
    }

    /// Sets the `PT` table index to the low nine bits of `pt`
    pub fn set_pt(&mut self, pt: u16)
        ensures
            final(self)@ == (old(self)@ & !PT_MASK) | (((pt as u64) & NINE_BIT_MASK) << PT_SHIFT),
            va_index(final(self)@, 12) == pt & 0x1FF,
            final(self)@ & !PT_MASK == old(self)@ & !PT_MASK,
    {
        proof {
            lemma_va_writes(self.0, pt);
        }
        self.0 = (self.0 & !PT_MASK) | (((pt as u64) & NINE_BIT_MASK) << PT_SHIFT);
    }

    /// Returns the index of the `PT` table as integer
    pub fn index_pt(&self) -> (r: u16)
        ensures
            r == va_index(self@, 12),
    {
        ((self.0 >> PT_SHIFT) & NINE_BIT_MASK) as u16
    }

    /// Returns the index of the `PD` table
    pub fn pd_index(&self) -> (r: PdIndexer)
        ensures
            r.index_spec() == va_index(self@, 21),
    {
        proof {
            lemma_va_writes(self.0, 0);
        }
        let idx = ((self.0 >> PD_SHIFT) & NINE_BIT_MASK) as u16;
        PdIndexer::new_unchecked(idx)
    }

    /// Sets the `PD` table index to the low nine bits of `pd`
    pub fn set_pd(&mut self, pd: u16)
        ensures
            final(self)@ == (old(self)@ & !PD_MASK) | (((pd as u64) & NINE_BIT_MASK) << PD_SHIFT),
            va_index(final(self)@, 21) == pd & 0x1FF,
            final(self)@ & !PD_MASK == old(self)@ & !PD_MASK,
    {
        proof {
            lemma_va_writes(self.0, pd);
        }
        self.0 = (self.0 & !PD_MASK) | (((pd as u64) & NINE_BIT_MASK) << PD_SHIFT);
    }

    /// Returns the index of the `PD` table as integer
    pub fn index_pd(&self) -> (r: u16)
        ensures
            r == va_index(self@, 21),
    {
        ((self.0 >> PD_SHIFT) & NINE_BIT_MASK) as u16
    }

    /// Returns the index of the `PDPT` table
    pub fn pdpt_index(&self) -> (r: PdPtIndexer)
        ensures
            r.index_spec() == va_index(self@, 30),
    {
        proof {
            lemma_va_writes(self.0, 0);
        }
        let idx = ((self.0 >> PDPT_SHIFT) & NINE_BIT_MASK) as u16;
        PdPtIndexer::new_unchecked(idx)
    }

    /// Sets the `PDPT` table index to the low nine bits of `pdpt`
    pub fn set_pdpt(&mut self, pdpt: u16)
        ensures
            final(self)@ == (old(self)@ & !PDPT_MASK) | (((pdpt as u64) & NINE_BIT_MASK) << PDPT_SHIFT),
            va_index(final(self)@, 30) == pdpt & 0x1FF,
            final(self)@ & !PDPT_MASK == old(self)@ & !PDPT_MASK,
    {
        proof {
            lemma_va_writes(self.0, pdpt);
        }
        self.0 = (self.0 & !PDPT_MASK) | (((pdpt as u64) & NINE_BIT_MASK) << PDPT_SHIFT);
    }

    /// Returns the index of the `PDPT` table as integer
    pub fn index_pdpt(&self) -> (r: u16)
        ensures
            r == va_index(self@, 30),
    {
        ((self.0 >> PDPT_SHIFT) & NINE_BIT_MASK) as u16
    }

    /// Sets the `PML4` table index to the low nine bits of `pml4`
    pub fn set_pml4(&mut self, pml4: u16)
        ensures
            final(self)@ == (old(self)@ & !PML4_MASK) | (((pml4 as u64) & NINE_BIT_MASK) << PML4_SHIFT),
            va_index(final(self)@, 39) == pml4 & 0x1FF,
            final(self)@ & !PML4_MASK == old(self)@ & !PML4_MASK,
    {
        proof {
            lemma_va_writes(self.0, pml4);
        }
        self.0 = (self.0 & !PML4_MASK) | (((pml4 as u64) & NINE_BIT_MASK) << PML4_SHIFT);
    }

    /// Returns the index of the `PML4` table as integer
    pub fn index_pml4(&self) -> (r: u16)
        ensures
            r == va_index(self@, 39),
    {
        ((self.0 >> PML4_SHIFT) & NINE_BIT_MASK) as u16
    }

    /// Returns the index of the `PML4` table: the higher 256 entries
    /// belong to the kernel half, the lower 256 to the user half
    pub fn pml4_index(&self) -> (r: Pml4Indexer)
        ensures
            r == pml4_indexer_of(self@),
    {
        proof {
            lemma_va_writes(self.0, 0);
        }
        let raw_idx = (self.0 >> PML4_SHIFT) & NINE_BIT_MASK;
        if raw_idx >= 256 {
            Pml4Indexer::Kernel((raw_idx - 256) as u8)
        } else {
            Pml4Indexer::User(raw_idx as u8)
        }
    }

    /// Returns the highest unused bits
    pub fn unused_bits(&self) -> (r: u16)
        ensures
            r == (self@ >> 48u64) as u16,
    {
        (self.0 >> 48u64) as u16
    }

    /// Checks the high bits of the address and returns
    /// whether the address belongs to the kernel
    pub fn is_kernel_address(&self) -> (r: bool)
        ensures
            r == va_is_kernel(self@),
    {
        (self.0 >> 48u64) as u16 == u16::MAX
    }

    /// Checks the high bits of the address and returns
    /// whether the address belongs to userspace
    pub fn is_user_address(&self) -> (r: bool)
        ensures
            r == !va_is_kernel(self@),
    {
        (self.0 >> 48u64) as u16 != u16::MAX
    }

    /// The address will belong to the kernel; its offset and table indices are kept
    pub fn make_kernel(&mut self)
        ensures
            final(self)@ == old(self)@ | HIGH_BITS,
            va_is_kernel(final(self)@),
            final(self)@ & LOW_BITS == old(self)@ & LOW_BITS,
            va_offset(final(self)@) == va_offset(old(self)@),
            va_index(final(self)@, 12) == va_index(old(self)@, 12),
            va_index(final(self)@, 21) == va_index(old(self)@, 21),
            va_index(final(self)@, 30) == va_index(old(self)@, 30),
            va_index(final(self)@, 39) == va_index(old(self)@, 39),
            pml4_indexer_of(final(self)@) == pml4_indexer_of(old(self)@),
    {
        proof {
            lemma_va_high(self.0);
            lemma_va_low_determines(self.0 | HIGH_BITS, self.0);
        }
        self.0 = self.0 | HIGH_BITS;
    }

    /// The address will belong to the user; its offset and table indices are kept
    pub fn make_user(&mut self)
        ensures
            final(self)@ == old(self)@ & !HIGH_BITS,
            !va_is_kernel(final(self)@),
            final(self)@ & LOW_BITS == old(self)@ & LOW_BITS,
            va_offset(final(self)@) == va_offset(old(self)@),
            va_index(final(self)@, 12) == va_index(old(self)@, 12),
            va_index(final(self)@, 21) == va_index(old(self)@, 21),
            va_index(final(self)@, 30) == va_index(old(self)@, 30),
            va_index(final(self)@, 39) == va_index(old(self)@, 39),
            pml4_indexer_of(final(self)@) == pml4_indexer_of(old(self)@),
    {
        proof {
            lemma_va_high(self.0);
            lemma_va_low_determines(self.0 & !HIGH_BITS, self.0);
        }
        self.0 = self.0 & !HIGH_BITS;
    }

    /// Adds the given offset/bytes to the virtual address
    /// - Keeps the highest 16 bits intact
    /// - The low 48 bits saturate instead of overflowing
    pub fn add_offset(&mut self, count: usize)
        ensures
            final(self)@ & HIGH_BITS == old(self)@ & HIGH_BITS,
            final(self)@ & LOW_BITS == low_add(old(self)@ & LOW_BITS, (count as int % 0x1_0000_0000_0000) * 1),
    {
        proof {
            lemma_va_parts(self.0, 0, count as u64);
        }
        let high = self.0 & HIGH_BITS;
        let low = self.0 & LOW_BITS;
        let inc = ((count as u64) & 0xFFFF_FFFF_FFFF) << 0u64;
        let new_low = if inc > LOW_BITS - low {
            LOW_BITS
        } else {
            low + inc
        };
        proof {
            lemma_va_parts(self.0, new_low, count as u64);
        }
        self.0 = new_low | high;
    }

    /// Subtracts the given offset/bytes from the virtual address
    /// - Keeps the highest 16 bits intact
    /// - The low 48 bits saturate to zero instead of wrapping
    pub fn sub_offset(&mut self, count: usize)
        ensures
            final(self)@ & HIGH_BITS == old(self)@ & HIGH_BITS,
            final(self)@ & LOW_BITS == low_sub(old(self)@ & LOW_BITS, count as int),
    {
        proof {
            lemma_va_parts(self.0, 0, count as u64);
        }
        let high = self.0 & HIGH_BITS;
        let low = self.0 & !HIGH_BITS;
        let dec = count as u64;
        let new_low = if dec > low {
            0
        } else {
            low - dec
        };
        proof {
            lemma_va_parts(self.0, new_low, count as u64);
        }
        self.0 = new_low | high;
    }

    /// Adds the given `PT` entries to the virtual address
    /// - Keeps the highest 16 bits intact
    /// - The low 48 bits saturate instead of overflowing
    pub fn add_pt(&mut self, count: usize)
        ensures
            final(self)@ & HIGH_BITS == old(self)@ & HIGH_BITS,
            final(self)@ & LOW_BITS == low_add(old(self)@ & LOW_BITS, (count as int % 0x10_0000_0000) * 0x1000),
    {
        proof {
            lemma_va_parts(self.0, 0, count as u64);
        }
        let high = self.0 & HIGH_BITS;
        let low = self.0 & LOW_BITS;
        let inc = ((count as u64) & 0xF_FFFF_FFFF) << 12u64;
        let new_low = if inc > LOW_BITS - low {
            LOW_BITS
        } else {
            low + inc
        };
        proof {
            lemma_va_parts(self.0, new_low, count as u64);
        }
        self.0 = new_low | high;
    }

    /// Subtracts the given `PT` entries from the virtual address
    /// - Keeps the highest 16 bits intact
    /// - The low 48 bits saturate to zero instead of wrapping
    pub fn sub_pt(&mut self, count: usize)
        ensures
            final(self)@ & HIGH_BITS == old(self)@ & HIGH_BITS,
            final(self)@ & LOW_BITS == low_sub(old(self)@ & LOW_BITS, (count as int % 0x10_0000_0000_0000) * 0x1000),
    {
        proof {
            lemma_va_parts(self.0, 0, count as u64);
        }
        let high = self.0 & HIGH_BITS;
        let low = self.0 & !HIGH_BITS;
        let dec = ((count as u64) & 0xF_FFFF_FFFF_FFFF) << 12u64;
        let new_low = if dec > low {
            0
        } else {
            low - dec
        };
        proof {
            lemma_va_parts(self.0, new_low, count as u64);
        }
        self.0 = new_low | high;
    }

    /// Adds the given `PD` entries to the virtual address
    /// - Keeps the highest 16 bits intact
    /// - The low 48 bits saturate instead of overflowing
    pub fn add_pd(&mut self, count: usize)
        ensures
            final(self)@ & HIGH_BITS == old(self)@ & HIGH_BITS,
            final(self)@ & LOW_BITS == low_add(old(self)@ & LOW_BITS, (count as int % 0x800_0000) * 0x20_0000),
    {
        proof {
            lemma_va_parts(self.0, 0, count as u64);
        }
        let high = self.0 & HIGH_BITS;
        let low = self.0 & LOW_BITS;
        let inc = ((count as u64) & 0x7FF_FFFF) << 21u64;
        let new_low = if inc > LOW_BITS - low {
            LOW_BITS
        } else {
            low + inc
        };
        proof {
            lemma_va_parts(self.0, new_low, count as u64);
        }
        self.0 = new_low | high;
    }

    /// Subtracts the given `PD` entries from the virtual address
    /// - Keeps the highest 16 bits intact
    /// - The low 48 bits saturate to zero instead of wrapping
    pub fn sub_pd(&mut self, count: usize)
        ensures
            final(self)@ & HIGH_BITS == old(self)@ & HIGH_BITS,
            final(self)@ & LOW_BITS == low_sub(old(self)@ & LOW_BITS, (count as int % 0x800_0000_0000) * 0x20_0000),
    {
        proof {
            lemma_va_parts(self.0, 0, count as u64);
        }
        let high = self.0 & HIGH_BITS;
        let low = self.0 & !HIGH_BITS;
        let dec = ((count as u64) & 0x7FF_FFFF_FFFF) << 21u64;
        let new_low = if dec > low {
            0
        } else {
            low - dec
        };
        proof {
            lemma_va_parts(self.0, new_low, count as u64);
        }
        self.0 = new_low | high;
    }

    /// Adds the given `PDPT` entries to the virtual address
    /// - Keeps the highest 16 bits intact
    /// - The low 48 bits saturate instead of overflowing
    pub fn add_pdpt(&mut self, count: usize)
        ensures
            final(self)@ & HIGH_BITS == old(self)@ & HIGH_BITS,
            final(self)@ & LOW_BITS == low_add(old(self)@ & LOW_BITS, (count as int % 0x4_0000) * 0x4000_0000),
    {
        proof {
            lemma_va_parts(self.0, 0, count as u64);
        }
        let high = self.0 & HIGH_BITS;
        let low = self.0 & LOW_BITS;
        let inc = ((count as u64) & 0x3_FFFF) << 30u64;
        let new_low = if inc > LOW_BITS - low {
            LOW_BITS
        } else {
            low + inc
        };
        proof {
            lemma_va_parts(self.0, new_low, count as u64);
        }
        self.0 = new_low | high;
    }

    /// Subtracts the given `PDPT` entries from the virtual address
    /// - Keeps the highest 16 bits intact
    /// - The low 48 bits saturate to zero instead of wrapping
    pub fn sub_pdpt(&mut self, count: usize)
        ensures
            final(self)@ & HIGH_BITS == old(self)@ & HIGH_BITS,
            final(self)@ & LOW_BITS == low_sub(old(self)@ & LOW_BITS, (count as int % 0x4_0000_0000) * 0x4000_0000),
    {
        proof {
            lemma_va_parts(self.0, 0, count as u64);
        }
        let high = self.0 & HIGH_BITS;
        let low = self.0 & !HIGH_BITS;
        let dec = ((count as u64) & 0x3_FFFF_FFFF) << 30u64;
        let new_low = if dec > low {
            0
        } else {
            low - dec
        };
        proof {
            lemma_va_parts(self.0, new_low, count as u64);
        }
        self.0 = new_low | high;
    }

    /// Adds the given `PML4` entries to the virtual address
    /// - Keeps the highest 16 bits intact
    /// - The low 48 bits saturate instead of overflowing
    pub fn add_pml4(&mut self, count: usize)
        ensures
            final(self)@ & HIGH_BITS == old(self)@ & HIGH_BITS,
            final(self)@ & LOW_BITS == low_add(old(self)@ & LOW_BITS, (count as int % 0x200) * 0x80_0000_0000),
    {
        proof {
            lemma_va_parts(self.0, 0, count as u64);
        }
        let high = self.0 & HIGH_BITS;
        let low = self.0 & LOW_BITS;
        let inc = ((count as u64) & 0x1FF) << 39u64;
        let new_low = if inc > LOW_BITS - low {
            LOW_BITS
        } else {
            low + inc
        };
        proof {
            lemma_va_parts(self.0, new_low, count as u64);
        }
        self.0 = new_low | high;
    }

    /// Subtracts the given `PML4` entries from the virtual address
    /// - Keeps the highest 16 bits intact
    /// - The low 48 bits saturate to zero instead of wrapping
    pub fn sub_pml4(&mut self, count: usize)
        ensures
            final(self)@ & HIGH_BITS == old(self)@ & HIGH_BITS,
            final(self)@ & LOW_BITS == low_sub(old(self)@ & LOW_BITS, (count as int % 0x200_0000) * 0x80_0000_0000),
    {
        proof {
            lemma_va_parts(self.0, 0, count as u64);
        }
        let high = self.0 & HIGH_BITS;
        let low = self.0 & !HIGH_BITS;
        let dec = ((count as u64) & 0x1FF_FFFF) << 39u64;
        let new_low = if dec > low {
            0
        } else {
            low - dec
        };
        proof {
            lemma_va_parts(self.0, new_low, count as u64);
        }
        self.0 = new_low | high;
    }
}

/// The PML4 table is split into two halves:
/// - The userspace (lower 256 entries)
/// - The kernelspace (higher 256 entries)
pub enum Pml4Indexer {
    /// An index into the userspace half
    User(u8),
    /// An index into the kernelspace half
    Kernel(u8),
}

impl Pml4Indexer {
    /// Returns the index, whichever half it belongs to
    pub fn unwrap(self) -> (r: u8)
        ensures
            r == (match self {
                Pml4Indexer::User(i) => i,
                Pml4Indexer::Kernel(i) => i,
            }),
    {
        match self {
            Pml4Indexer::Kernel(idx) => idx,
            Pml4Indexer::User(idx) => idx,
        }
    }

    /// Returns the index into the whole `PML4` table: the kernel half
    /// starts at entry 256
    pub fn into_u16(self) -> (r: u16)
        ensures
            r == (match self {
                Pml4Indexer::User(i) => i as u16,
                Pml4Indexer::Kernel(i) => (256 + i) as u16,
            }),
    {
        match self {
            Pml4Indexer::Kernel(idx) => 256 + idx as u16,
            Pml4Indexer::User(idx) => idx as u16,
        }
    }
}

/// Marks all page table indices. All marked indices
/// must hold one invariant: their value must be less
/// than the `PAGE_TABLE_ENTRY_COUNT` constant
pub trait TableIndexer: Sized {
    /// The index
    spec fn index_spec(&self) -> u16;

    /// Constructs a new table index without checking the number
    fn new_unchecked(index: u16) -> (r: Self)
        requires
            index < PAGE_TABLE_ENTRY_COUNT,
        ensures
            r.index_spec() == index,
    ;

    /// Returns the index
    fn as_u16(&self) -> (r: u16)
        ensures
            r == self.index_spec(),
            r < PAGE_TABLE_ENTRY_COUNT,
    ;

    /// Constructs a new table index
    /// - Returns `None` if the `index` is greater than
    /// or equal to the `PAGE_TABLE_ENTRY_COUNT` constant
    fn new(index: u16) -> (r: Option<Self>)
        ensures
            r is Some <==> index < PAGE_TABLE_ENTRY_COUNT,
            r matches Some(i) ==> i.index_spec() == index,
    {
        if (index as usize) < PAGE_TABLE_ENTRY_COUNT {
            Some(Self::new_unchecked(index))
        } else {
            None
        }
    }
}

/// Indexes `PDPT` layer tables
#[derive(Clone, Copy)]
pub struct PdPtIndexer(u16);

impl PdPtIndexer {
    #[verifier::type_invariant]
    spec fn in_table(self) -> bool {
        self.0 < PAGE_TABLE_ENTRY_COUNT
    }
}

impl TableIndexer for PdPtIndexer {
    closed spec fn index_spec(&self) -> u16 {
        self.0
    }

    fn new_unchecked(index: u16) -> (r: Self) {
        PdPtIndexer(index)
    }

    fn as_u16(&self) -> (r: u16) {
        proof {
            use_type_invariant(self);
        }
        self.0
    }
}

/// Indexes `PD` layer tables
#[derive(Clone, Copy)]
pub struct PdIndexer(u16);

impl PdIndexer {
    #[verifier::type_invariant]
    spec fn in_table(self) -> bool {
        self.0 < PAGE_TABLE_ENTRY_COUNT
    }
}

impl TableIndexer for PdIndexer {
    closed spec fn index_spec(&self) -> u16 {
        self.0
    }

    fn new_unchecked(index: u16) -> (r: Self) {
        PdIndexer(index)
    }

    fn as_u16(&self) -> (r: u16) {
        proof {
            use_type_invariant(self);
        }
        self.0
    }
}

/// Indexes `PT` layer tables
#[derive(Clone, Copy)]
pub struct PtIndexer(u16);

impl PtIndexer {
    #[verifier::type_invariant]
    spec fn in_table(self) -> bool {
        self.0 < PAGE_TABLE_ENTRY_COUNT
    }
}

impl TableIndexer for PtIndexer {
    closed spec fn index_spec(&self) -> u16 {
        self.0
    }

    fn new_unchecked(index: u16) -> (r: Self) {
        PtIndexer(index)
    }

    fn as_u16(&self) -> (r: u16) {
        proof {
            use_type_invariant(self);
        }
        self.0
    }
}

} // verus!
