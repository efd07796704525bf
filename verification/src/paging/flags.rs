//! Bit masks shared by the x86_64 page entries and the facts about them
use vstd::prelude::*;

verus! {

/// The `P`resent bit: the page is loaded in memory
pub const BITS_PRESENT: u64 = 0b1;

/// The **R**ead/**W**rite bit: the page can be written to
pub const BITS_RW: u64 = 0x2;

/// The **U**ser/**S**upervisor bit: the page can be accessed from userspace
pub const BITS_US: u64 = 0x4;

/// The `PWT` bit: write-back caching is used for the page
pub const BITS_PWT: u64 = 0x8;

/// The cache-disable (`PCD`) bit: caching is disabled for the page
pub const BITS_PCD: u64 = 0x10;

/// The `A`ccessed bit, set by the CPU when the MMU reads the entry
pub const BITS_A: u64 = 0x20;

/// The `D`irty bit, set by the CPU when the page is written to
pub const BITS_D: u64 = 0x40;

/// The **P**age **S**ize bit: the entry points to a memory page
pub const BITS_PS: u64 = 0x80;

/// The `G`lobal bit: the TLB entry is not flushed when `cr3` is written
pub const BITS_G: u64 = 0x100;

/// The **P**age **A**ttribute **T**able bit of page-sized entries
pub const BITS_PAT: u64 = 0x1000;

/// The four **P**rotection **K**ey bits
pub const BITS_PK: u64 = 0x7800_0000_0000_0000;

/// The **E**xecute **D**isable bit: instructions cannot be executed from the page
pub const BITS_XD: u64 = 0x8000_0000_0000_0000;

/// The physical address bits of an entry pointing to a 4KB aligned table or page
pub const ADDRESS_MASK_4KB: u64 = 0xFFFFFFFFF000;

/// The physical address bits of an entry pointing to a 2MB page
pub const ADDRESS_MASK_2MB: u64 = 0xFFFFFFE00000;

/// The physical address bits of an entry pointing to a 1GB page
pub const ADDRESS_MASK_1GB: u64 = 0xFFFFC0000000;

/// Some bit of the mask `m` is set in `x`
pub open spec fn has_flag(x: u64, m: u64) -> bool {
    x & m != 0
}

/// The protection key held in bits 59 to 62 of `x`
pub open spec fn pk_of(x: u64) -> u8 {
    (((x >> 59u64) & 0xF) as u8)
}

/// Setting or clearing the bits of a mask does what it says and keeps all other bits
pub proof fn lemma_mask_ops(x: u64, m: u64)
    ensures
        (x | m) & m == m,
        (x & !m) & m == 0,
        (x | m) & !m == x & !m,
        (x & !m) & !m == x & !m,
{
    assert((x | m) & m == m && (x & !m) & m == 0 && (x | m) & !m == x & !m && (x & !m) & !m == x & !m)
        by (bit_vector);
}

/// Two values that agree outside the mask `m` agree on every flag `f` outside `m`
pub proof fn lemma_flag_kept(x: u64, y: u64, m: u64, f: u64)
    requires
        x & !m == y & !m,
        f & m == 0,
    ensures
        x & f == y & f,
{
    assert(x & f == y & f) by (bit_vector)
        requires
            x & !m == y & !m,
            f & m == 0,
    ;
}

/// Writing a protection key stores its low four bits and keeps all other bits
pub proof fn lemma_pk_write(x: u64, pk: u8)
    ensures
        pk_of((x & !BITS_PK) | (((pk as u64) << 59u64) & BITS_PK)) == pk & 0xF,
        ((x & !BITS_PK) | (((pk as u64) << 59u64) & BITS_PK)) & !BITS_PK == x & !BITS_PK,
{
    assert(pk_of((x & !0x7800000000000000u64) | (((pk as u64) << 59u64) & 0x7800000000000000u64)) == pk & 0xF)
        by (bit_vector);
    assert(((x & !0x7800000000000000u64) | (((pk as u64) << 59u64) & 0x7800000000000000u64))
        & !0x7800000000000000u64 == x & !0x7800000000000000u64) by (bit_vector);
}

} // verus!
