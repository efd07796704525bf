//! Nonzero 64-bit addresses aligned to a page boundary
use vstd::prelude::*;
use crate::misc::{
    Alignment, is_power_of_two, align_down_spec, align_up_spec, is_lowest_set_bit,
    lemma_power_of_two_facts, lowest_one, lowest_set_bit_u64,
};
use crate::address::{Address, clamp, signed_page_distance};

verus! {

/// A nonzero 64-bit address aligned to the `ALIGN` boundary on construction
///
/// `ALIGN` must be a power of two. The address never becomes zero; page
/// arithmetic saturates at the end of the address space, where the
/// alignment is not kept
#[derive(Copy, Clone, PartialEq, Eq, Debug)]
pub struct AlignedNonNull<const ALIGN: usize>(u64);

impl<const ALIGN: usize> View for AlignedNonNull<ALIGN> {
    type V = u64;

    closed spec fn view(&self) -> u64 {
        self.0
    }
}

impl<const ALIGN: usize> AlignedNonNull<ALIGN> {
    #[verifier::type_invariant]
    spec fn nonzero(self) -> bool {
        self.0 != 0
    }

    /// The boundary is a power of two
    pub open spec fn valid_align() -> bool {
        is_power_of_two(ALIGN as int)
    }

    /// Constructs a new `AlignedNonNull` if the given nonzero
    /// `address` is aligned to the boundary
    pub fn new(address: u64) -> (r: Option<Self>)
        requires
            Self::valid_align(),
            address != 0,
        ensures
            r is Some <==> address as int % ALIGN as int == 0,
            r matches Some(a) ==> a@ == address,
    {
        proof {
            lemma_power_of_two_facts(ALIGN as int);
        }
        if address.is_aligned_to(ALIGN) {
            Some(AlignedNonNull(address))
        } else {
            None
        }
    }

    /// Constructs a new `AlignedNonNull` without checking the alignment;
    /// the caller guarantees that `address` is aligned to the boundary
    pub fn new_unchecked(address: u64) -> (r: Self)
        requires
            address != 0,
            address as int % ALIGN as int == 0,
        ensures
            r@ == address,
    {
        AlignedNonNull(address)
    }

    /// Aligns the nonzero `address` down to the boundary
    /// - Returns `None` if the result would be zero
    pub fn new_down(address: u64) -> (r: Option<Self>)
        requires
            Self::valid_align(),
            address != 0,
        ensures
            r is None <==> align_down_spec(address as int, ALIGN as int) == 0,
            r matches Some(a) ==> a@ == align_down_spec(address as int, ALIGN as int),
    {
        proof {
            lemma_power_of_two_facts(ALIGN as int);
        }
        let down = address.align_down(ALIGN);
        if down == 0 {
            None
        } else {
            Some(AlignedNonNull(down))
        }
    }

    /// Aligns the nonzero `address` up to the boundary
    pub fn new_up(address: u64) -> (r: Self)
        requires
            Self::valid_align(),
            address != 0,
        ensures
            r@ == align_up_spec(address as int, ALIGN as int, u64::MAX as int),
    {
        proof {
            lemma_power_of_two_facts(ALIGN as int);
            crate::misc::lemma_u64_max_multiple(ALIGN as int);
        }
        let up = address.align_up(ALIGN);
        proof {
            if up == 0 {
                // only the saturated case can drop below the address, and it stays positive
                assert(u64::MAX as int % ALIGN as int == ALIGN - 1) by {
                    vstd::arithmetic::div_mod::lemma_fundamental_div_mod(u64::MAX as int + 1, ALIGN as int);
                    vstd::arithmetic::div_mod::lemma_fundamental_div_mod_converse(
                        u64::MAX as int,
                        ALIGN as int,
                        (u64::MAX as int + 1) / ALIGN as int - 1,
                        ALIGN - 1,
                    );
                }
                assert(false);
            }
        }
        AlignedNonNull(up)
    }

    /// Adds the page count to the address
    /// - The result is saturated on overflow
    pub fn aligned_add(self, pages: usize) -> (r: Self)
        ensures
            r@ == clamp(self@ + pages * ALIGN, 0, u64::MAX as int),
    {
        proof {
            use_type_invariant(self);
        }
        AlignedNonNull(self.0.aligned_add(pages, ALIGN))
    }

    /// Adds a 64-bit page count to the address
    /// - The result is saturated on overflow
    pub fn add_pages(self, pages: u64) -> (r: Self)
        ensures
            r@ == clamp(self@ + pages * ALIGN, 0, u64::MAX as int),
    {
        proof {
            use_type_invariant(self);
        }
        let step = match pages.checked_mul(ALIGN as u64) {
            Some(v) => v,
            None => u64::MAX,
        };
        AlignedNonNull(self.0.saturating_add(step))
    }

    /// Moves the address by the given page count in either direction
    /// - The result is saturated on overflow
    /// - Returns `None` if the result would be zero
    pub fn aligned_offset(self, pages: isize) -> (r: Option<Self>)
        requires
            Self::valid_align(),
            ALIGN <= isize::MAX,
        ensures
            r is None <==> clamp(
                self@ + signed_page_distance(pages as int, ALIGN as int),
                0,
                u64::MAX as int,
            ) == 0,
            r matches Some(a) ==> a@ == clamp(
                self@ + signed_page_distance(pages as int, ALIGN as int),
                0,
                u64::MAX as int,
            ),
    {
        proof {
            lemma_power_of_two_facts(ALIGN as int);
        }
        let moved = self.0.aligned_offset(pages, ALIGN);
        if moved == 0 {
            None
        } else {
            Some(AlignedNonNull(moved))
        }
    }

    /// Returns the inner address
    pub fn as_inner(&self) -> (r: u64)
        ensures
            r == self@,
            r != 0,
    {
        proof {
            use_type_invariant(self);
        }
        self.0
    }

    /// Returns the inner address
    pub fn get(&self) -> (r: u64)
        ensures
            r == self@,
            r != 0,
    {
        proof {
            use_type_invariant(self);
        }
        self.0
    }

    /// Calculates the alignment of this address: its lowest set bit
    pub fn get_align(&self) -> (r: u64)
        ensures
            is_lowest_set_bit(self@ as int, r as int),
            r == lowest_one(self@),
            r != 0,
    {
        proof {
            use_type_invariant(self);
        }
        let r = lowest_set_bit_u64(self.0);
        proof {
            lemma_power_of_two_facts(r as int);
        }
        r
    }
}

impl<const ALIGN: usize> core::ops::Deref for AlignedNonNull<ALIGN> {
    type Target = u64;

    fn deref(&self) -> (r: &u64)
        ensures
            *r == self@,
    {
        &self.0
    }
}

} // verus!
