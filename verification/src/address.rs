//! Integer addresses and addresses that are guaranteed to be aligned
use vstd::prelude::*;
use crate::misc::{
    Alignment, PageAlignment, is_power_of_two, align_down_spec, align_up_spec,
    lemma_power_of_two_facts, PAGE_SIZE,
};

verus! {

/// `v` clamped into `[lo, hi]`
pub open spec fn clamp(v: int, lo: int, hi: int) -> int {
    if v < lo {
        lo
    } else if v > hi {
        hi
    } else {
        v
    }
}

/// The byte distance of `pages` pages of `align` bytes, saturated to the range of `isize`
pub open spec fn signed_page_distance(pages: int, align: int) -> int {
    clamp(pages * align, isize::MIN as int, isize::MAX as int)
}

/// `pages * align`, saturated to `usize::MAX`
pub fn saturating_mul_usize(pages: usize, align: usize) -> (r: usize)
    ensures
        r == clamp(pages * align, 0, usize::MAX as int),
{
    match pages.checked_mul(align) {
        Some(v) => v,
        None => usize::MAX,
    }
}

/// `pages * align`, saturated to the range of `isize`
pub fn saturating_mul_isize(pages: isize, align: isize) -> (r: isize)
    requires
        align > 0,
    ensures
        r == signed_page_distance(pages as int, align as int),
{
    match pages.checked_mul(align) {
        Some(v) => v,
        None => {
            if pages < 0 {
                assert(pages * align < 0) by (nonlinear_arith)
                    requires
                        pages < 0,
                        align > 0,
                ;
                isize::MIN
            } else {
                assert(pages * align >= 0) by (nonlinear_arith)
                    requires
                        pages >= 0,
                        align > 0,
                ;
                isize::MAX
            }
        },
    }
}

/// Integer addresses that can be moved by whole pages
pub trait Address: PageAlignment {
    /// Adds `pages` pages of `align` bytes to the address
    /// - The result is saturated on overflow
    fn aligned_add(self, pages: usize, align: usize) -> (r: Self)
        ensures
            r.value() == clamp(self.value() + pages * align, 0, Self::max_value()),
    ;

    /// Moves the address by `pages` pages of `align` bytes in either direction
    /// - The page distance is saturated to the range of `isize`,
    ///   the result is saturated to the range of the address type
    fn aligned_offset(self, pages: isize, align: usize) -> (r: Self)
        requires
            0 < align <= isize::MAX,
        ensures
            r.value() == clamp(
                self.value() + signed_page_distance(pages as int, align as int),
                0,
                Self::max_value(),
            ),
    ;
}

impl Address for usize {
    fn aligned_add(self, pages: usize, align: usize) -> (r: usize) {
        self.saturating_add(saturating_mul_usize(pages, align))
    }

    fn aligned_offset(self, pages: isize, align: usize) -> (r: usize) {
        let step = saturating_mul_isize(pages, align as isize);
        if step >= 0 {
            self.saturating_add(step as usize)
        } else {
            let back = (-(step + 1)) as usize + 1;
            self.saturating_sub(back)
        }
    }
}

impl Address for u64 {
    fn aligned_add(self, pages: usize, align: usize) -> (r: u64) {
        let step = match (pages as u64).checked_mul(align as u64) {
            Some(v) => v,
            None => u64::MAX,
        };
        self.saturating_add(step)
    }

    fn aligned_offset(self, pages: isize, align: usize) -> (r: u64) {
        let step = saturating_mul_isize(pages, align as isize) as i64;
        if step >= 0 {
            self.saturating_add(step as u64)
        } else {
            let back = (-(step + 1)) as u64 + 1;
            self.saturating_sub(back)
        }
    }
}

/// An address that is guaranteed to be aligned to a specific boundary
///
/// This type typically stores a `u64` or `usize` physical address;
/// `ALIGN` must be a power of two
#[derive(Copy, Clone)]
pub struct AlignedAddress<Addr: Address, const ALIGN: usize>(Addr);

impl<Addr: Address, const ALIGN: usize> View for AlignedAddress<Addr, ALIGN> {
    type V = int;

    closed spec fn view(&self) -> int {
        self.0.value()
    }
}

impl<Addr: Address, const ALIGN: usize> AlignedAddress<Addr, ALIGN> {
    /// The boundary is a power of two that the address type can hold
    pub open spec fn valid_align() -> bool {
        is_power_of_two(ALIGN as int) && ALIGN as int <= Addr::max_value()
    }

    /// Constructs a new `AlignedAddress` if the given address is aligned to a certain boundary
    pub fn new(address: Addr) -> (r: Option<Self>)
        requires
            Self::valid_align(),
        ensures
            r is Some <==> address.value() % ALIGN as int == 0,
            r matches Some(a) ==> a@ == address.value(),
    {
        if address.is_aligned_to(ALIGN) {
            Some(AlignedAddress(address))
        } else {
            None
        }
    }

    /// Constructs a new `AlignedAddress` without checking the alignment;
    /// the caller guarantees that `address` is aligned to the boundary
    pub fn new_unchecked(address: Addr) -> (r: Self)
        requires
            address.value() % ALIGN as int == 0,
        ensures
            r@ == address.value(),
    {
        AlignedAddress(address)
    }

    /// Creates a new `AlignedAddress` by aligning the given `address` down to the boundary
    pub fn new_down(address: Addr) -> (r: Self)
        requires
            Self::valid_align(),
        ensures
            r@ == align_down_spec(address.value(), ALIGN as int),
    {
        AlignedAddress(address.align_down(ALIGN))
    }

    /// Creates a new `AlignedAddress` by aligning the given `address` up to the boundary
    pub fn new_up(address: Addr) -> (r: Self)
        requires
            Self::valid_align(),
        ensures
            r@ == align_up_spec(address.value(), ALIGN as int, Addr::max_value()),
    {
        AlignedAddress(address.align_up(ALIGN))
    }

    /// Offsets the address by a specified page count
    ///
    /// The result is saturated on overflow and then aligned down, so
    /// that an overflowing addition never yields a misaligned address
    pub fn aligned_add(self, pages: usize) -> (r: Self)
        requires
            Self::valid_align(),
        ensures
            r@ == align_down_spec(
                clamp(self@ + pages * ALIGN, 0, Addr::max_value()),
                ALIGN as int,
            ),
    {
        AlignedAddress(self.0.aligned_add(pages, ALIGN).align_down(ALIGN))
    }

    /// Moves the address by the given page count in either direction
    /// - The result is saturated on overflow and then aligned down, so
    ///   that it stays aligned
    pub fn aligned_offset(self, pages: isize) -> (r: Self)
        requires
            Self::valid_align(),
            ALIGN <= isize::MAX,
        ensures
            r@ == align_down_spec(
                clamp(self@ + signed_page_distance(pages as int, ALIGN as int), 0, Addr::max_value()),
                ALIGN as int,
            ),
    {
        proof {
            lemma_power_of_two_facts(ALIGN as int);
        }
        AlignedAddress(self.0.aligned_offset(pages, ALIGN).align_down(ALIGN))
    }

    /// Returns the inner address
    pub fn get(&self) -> (r: Addr)
        ensures
            r.value() == self@,
    {
        self.0
    }
}

impl<Addr: Address, const ALIGN: usize> core::ops::Deref for AlignedAddress<Addr, ALIGN> {
    type Target = Addr;

    fn deref(&self) -> (r: &Addr)
        ensures
            r.value() == self@,
    {
        &self.0
    }
}

} // verus!
