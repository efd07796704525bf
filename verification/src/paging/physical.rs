//! Physical extents and the layout used to allocate contiguous physical frames
use vstd::prelude::*;
use crate::misc::{align_down_spec, align_up_spec, is_power_of_two, Alignment, PAGE_SIZE, PAGE_TABLE_ENTRY_COUNT};
use crate::non_null::AlignedNonNull;
use crate::extent_alloc::extent::{Extent, RawExtent};
use crate::extent_alloc::layout::{IntegerOverflow, LayoutDescriptor};
use crate::extent_alloc::cached_alloc::CachedExtentAllocator;

verus! {

/// Mask of the 1GB page counter
pub const MASK_1GB: u64 = 0xF_FFFF_FFFC_0000;

/// Mask of the 2MB page counter
pub const MASK_2MB: u64 = 0x3_FE00;

/// Mask of the 4KB page counter
pub const MASK_4KB: u64 = 0x1FF;

/// Mask of all counters combined: the largest page count any `PhysicalLayout` can hold
pub const MASK_COMBINED: u64 = 0xF_FFFF_FFFF_FFFF;

/// Where the alignment shift is stored
pub const SHIFT_ALIGN: u64 = 52;

/// The alignment shift of a page count: 4KB pages up to the 4KB counter's
/// range, 2MB pages up to the 2MB counter's range, 1GB pages above it
pub open spec fn align_shift(count: u64) -> u64 {
    if count > MASK_2MB {
        30
    } else if count > MASK_4KB {
        21
    } else {
        12
    }
}

/// The page count of the piece that `PhysicalLayout::split` cuts off a layout of `count` pages:
/// half of it rounded down to whole page tables, else rounded up if that stays
/// below `count`, else the plain half
pub open spec fn split_piece(count: u64) -> u64 {
    let half = count / 2;
    let down = align_down_spec(half as int, PAGE_TABLE_ENTRY_COUNT as int);
    if down != 0 {
        down as u64
    } else {
        let up = align_up_spec(half as int, PAGE_TABLE_ENTRY_COUNT as int, u64::MAX as int);
        if up >= count {
            half
        } else {
            up as u64
        }
    }
}

/// The layout bits keep the page count and the alignment shift apart
proof fn lemma_layout_bits(count: u64, a: u64)
    by (bit_vector)
    ensures
        count & 0xF_FFFF_FFFF_FFFFu64 <= 0xF_FFFF_FFFF_FFFFu64,
        count <= 0xF_FFFF_FFFF_FFFFu64 ==> count & 0xF_FFFF_FFFF_FFFFu64 == count,
        count <= 0xF_FFFF_FFFF_FFFFu64 ==> count >> 52u64 == 0,
        count <= 0xF_FFFF_FFFF_FFFFu64 && a < 4096 ==> (count | (a << 52u64)) & 0xF_FFFF_FFFF_FFFFu64 == count,
        count <= 0xF_FFFF_FFFF_FFFFu64 && a < 4096 ==> (count | (a << 52u64)) >> 52u64 == a,
        1u64 << 0u64 == 1,
        1u64 << 12u64 == 0x1000,
        1u64 << 21u64 == 0x20_0000,
        1u64 << 30u64 == 0x4000_0000,
{
}

/// The alignment of a layout made from a page count: 4KB for up to 0x1FF pages,
/// 2MB from 0x200 to 0x3FE00 pages, 1GB from 0x3FE01 pages on
pub proof fn lemma_layout_alignment(count: u64)
    ensures
        count <= 0x1FF ==> 1u64 << align_shift(count) == 0x1000,
        0x200 <= count <= 0x3_FE00 ==> 1u64 << align_shift(count) == 0x20_0000,
        0x3_FE01 <= count ==> 1u64 << align_shift(count) == 0x4000_0000,
{
    lemma_layout_bits(count, 0);
}

/// A page table holds a power of two of entries
proof fn lemma_entry_count_is_power_of_two()
    ensures
        is_power_of_two(PAGE_TABLE_ENTRY_COUNT as int),
{
    vstd::arithmetic::power2::lemma2_to64();
    assert(vstd::arithmetic::power2::pow2(9) == PAGE_TABLE_ENTRY_COUNT);
}

/// Used by the physical allocator to allocate contiguous physical frames
/// - Automatically calculates alignment of the physical frame
#[derive(Clone, Copy)]
pub struct PhysicalLayout(u64);

impl View for PhysicalLayout {
    type V = u64;

    closed spec fn view(&self) -> u64 {
        self.0
    }
}

impl PhysicalLayout {
    #[verifier::type_invariant]
    spec fn well_formed(self) -> bool {
        &&& self.0 & MASK_COMBINED != 0
        &&& (self.0 >> SHIFT_ALIGN == 0 || self.0 >> SHIFT_ALIGN == 12 || self.0 >> SHIFT_ALIGN == 21
            || self.0 >> SHIFT_ALIGN == 30)
    }

    /// Used to get the alignment shift for a page count
    pub fn get_align(count: u64) -> (r: u64)
        ensures
            r == align_shift(count),
    {
        if count > MASK_2MB {
            30
        } else if count > MASK_4KB {
            21
        } else {
            12
        }
    }
}

impl LayoutDescriptor<PAGE_SIZE> for PhysicalLayout {
    type Err = IntegerOverflow;

    open spec fn max_page_count() -> u64 {
        MASK_COMBINED
    }

    closed spec fn size_spec(&self) -> u64 {
        self.0 & MASK_COMBINED
    }

    closed spec fn align_spec(&self) -> u64 {
        1u64 << (self.0 >> SHIFT_ALIGN)
    }

    open spec fn align_for(count: u64) -> u64 {
        1u64 << align_shift(count)
    }

    /// `split_piece` pages are cut off, the rest remains; both parts carry the
    /// alignment of their own page count
    closed spec fn split_spec(&self) -> Option<(Self, Self)> {
        let count = self.0 & MASK_COMBINED;
        let piece = split_piece(count);
        if piece == 0 {
            None
        } else {
            let rest = (count - piece) as u64;
            Some((
                PhysicalLayout(piece | (align_shift(piece) << SHIFT_ALIGN)),
                PhysicalLayout(rest | (align_shift(rest) << SHIFT_ALIGN)),
            ))
        }
    }

    /// A physical layout aligns to the pages it counts, and may not split
    open spec fn page_granular() -> bool {
        false
    }

    proof fn lemma_page_granular(&self) {
    }

    fn max_pages() -> (r: u64) {
        MASK_COMBINED
    }

    fn size(&self) -> (r: u64) {
        proof {
            use_type_invariant(self);
        }
        self.0 & MASK_COMBINED
    }

    /// The layout of `count` pages, aligned as `align_shift` says
    fn from_pages(count: u64) -> (r: Result<Self, IntegerOverflow>)
        ensures
            r matches Ok(l) ==> l@ == count | (align_shift(count) << SHIFT_ALIGN)
                && l.align_spec() == 1u64 << align_shift(count),
    {
        if count > MASK_COMBINED {
            Err(IntegerOverflow)
        } else {
            let shift = Self::get_align(count);
            proof {
                lemma_layout_bits(count, shift);
            }
            Ok(PhysicalLayout(count | (shift << SHIFT_ALIGN)))
        }
    }

    /// The layout of `count` pages, aligned as `align_shift` says, as `from_pages` builds it
    fn from_pages_unchecked(count: u64) -> (r: Self)
        ensures
            r@ == count | (align_shift(count) << SHIFT_ALIGN),
            r.align_spec() == 1u64 << align_shift(count),
    {
        let shift = Self::get_align(count);
        proof {
            lemma_layout_bits(count, shift);
        }
        PhysicalLayout(count | (shift << SHIFT_ALIGN))
    }

    fn align(&self) -> (r: u64) {
        proof {
            use_type_invariant(self);
            lemma_layout_bits(0, 0);
        }
        1u64 << (self.0 >> SHIFT_ALIGN)
    }

    /// Cuts `split_piece` pages off the layout; both parts then carry the
    /// alignment of their own page count
    fn split(&mut self) -> (r: Option<Self>)
        ensures
            r is None <==> split_piece(old(self).size_spec()) == 0,
            r is None ==> *final(self) == *old(self),
            r matches Some(piece) ==> {
                &&& piece.size_spec() == split_piece(old(self).size_spec())
                &&& final(self).size_spec() == old(self).size_spec() - split_piece(old(self).size_spec())
                &&& piece.align_spec() == 1u64 << align_shift(piece.size_spec())
                &&& final(self).align_spec() == 1u64 << align_shift(final(self).size_spec())
            },
    {
        let count = self.size();
        let half = count / 2;
        proof {
            lemma_layout_bits(self.0, 0);
            lemma_entry_count_is_power_of_two();
        }
        let down = half.align_down(PAGE_TABLE_ENTRY_COUNT);
        let aligned = if down == 0 {
            let up = half.align_up(PAGE_TABLE_ENTRY_COUNT);
            if up >= count {
                half
            } else {
                up
            }
        } else {
            down
        };
        if aligned == 0 {
            return None;
        }
        proof {
            assert(aligned < count);
        }
        *self = Self::from_pages_unchecked(count - aligned);
        Some(Self::from_pages_unchecked(aligned))
    }
}

/// An extent allocated by the `PhysicalAllocator`
#[derive(Clone, Copy)]
pub struct PhysicalExtent<const ALIGN: usize> {
    start: AlignedNonNull<ALIGN>,
    size: u64,
}

impl<const ALIGN: usize> PhysicalExtent<ALIGN> {
    #[verifier::type_invariant]
    spec fn nonempty(self) -> bool {
        self.size != 0
    }
}

impl<const ALIGN: usize> Extent<ALIGN> for PhysicalExtent<ALIGN> {
    closed spec fn start_spec(&self) -> u64 {
        self.start@
    }

    closed spec fn size_spec(&self) -> u64 {
        self.size
    }

    fn address(&self) -> (r: AlignedNonNull<ALIGN>) {
        self.start
    }

    fn size(&self) -> (r: u64) {
        proof {
            use_type_invariant(self);
        }
        self.size
    }
}

impl<const ALIGN: usize> RawExtent<ALIGN> for PhysicalExtent<ALIGN> {
    fn new(address: AlignedNonNull<ALIGN>, pages: u64) -> (r: Self) {
        PhysicalExtent { start: address, size: pages }
    }
}

/// The allocator of physical frames: an extent allocator of whole pages
pub struct PhysicalAllocator<Ext: Extent<PAGE_SIZE> + RawExtent<PAGE_SIZE> = PhysicalExtent<PAGE_SIZE>>(
    pub CachedExtentAllocator<PAGE_SIZE, Ext, PhysicalLayout>,
);

} // verus!
