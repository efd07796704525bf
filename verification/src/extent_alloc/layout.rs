//! Layout descriptors: how many pages to allocate and how to align them
use vstd::prelude::*;

verus! {

/// Marks all memory layout descriptors to work with the extent allocators
pub trait LayoutDescriptor<const ALIGN: usize>: Sized {
    /// An error type used by the `from_pages()` function
    type Err;

    /// Maximum possible amount of pages that the descriptor can hold
    spec fn max_page_count() -> u64;

    /// Size in pages
    spec fn size_spec(&self) -> u64;

    /// Required alignment of the allocated address
    spec fn align_spec(&self) -> u64;

    /// What `split` makes of the layout: the piece it cuts off and the layout that
    /// remains, or `None` if it cannot be split
    spec fn split_spec(&self) -> Option<(Self, Self)>;

    /// The alignment of the layout that `from_pages` makes of `count` pages
    spec fn align_for(count: u64) -> u64;

    /// Every layout of the type asks for an alignment of a single byte, and any
    /// layout of two or more pages can be split
    spec fn page_granular() -> bool;

    /// A layout of a page-granular type asks for an alignment of a single byte
    proof fn lemma_page_granular(&self)
        ensures
            Self::page_granular() ==> self.align_spec() == 1,
    ;

    /// Maximum possible amount of pages that the descriptor can hold
    fn max_pages() -> (r: u64)
        ensures
            r == Self::max_page_count(),
    ;

    /// Size (in pages) of the extent to allocate
    fn size(&self) -> (r: u64)
        ensures
            r == self.size_spec(),
            r != 0,
    ;

    /// Constructs the descriptor from a count of pages
    fn from_pages(count: u64) -> (r: Result<Self, Self::Err>)
        requires
            count != 0,
        ensures
            r is Ok <==> count <= Self::max_page_count(),
            r matches Ok(l) ==> l.size_spec() == count && l.align_spec() == Self::align_for(count),
    ;

    /// Constructs the descriptor without checking the page count, which the
    /// caller guarantees to be in range
    fn from_pages_unchecked(count: u64) -> (r: Self)
        requires
            count != 0,
            count <= Self::max_page_count(),
        ensures
            r.size_spec() == count,
    ;

    /// Returns the alignment requirements of the allocated extent
    fn align(&self) -> (r: u64)
        ensures
            r == self.align_spec(),
            r != 0,
    ;

    /// Splits a bigger layout into smaller pieces if it cannot be allocated
    ///
    /// `split()` searches for a valid size that is smaller than `self`. If
    /// found, it shrinks `self` by that size and returns the newly created layout
    /// - Returns `None` if the smaller size cannot be found; `self` is then unchanged
    fn split(&mut self) -> (r: Option<Self>)
        ensures
            r is None ==> final(self).size_spec() == old(self).size_spec(),
            r matches Some(piece) ==> piece.size_spec() + final(self).size_spec()
                == old(self).size_spec(),
            Self::page_granular() && old(self).size_spec() >= 2 ==> r is Some,
            r is None <==> old(self).split_spec() is None,
            r matches Some(piece) ==> old(self).split_spec() == Some((piece, *final(self))),
    ;
}

/// An error returned by `LayoutDescriptor::from_pages()` by default
pub struct IntegerOverflow;

/// Largest page count of an `ExtentLayout`
pub const EXTENT_LAYOUT_MAX_PAGES: u64 = 0xF_FFFF_FFFF_FFFF;

/// Describes a contiguous extent of pages; the alignment is always 1
#[derive(Clone, Copy)]
pub struct ExtentLayout<const ALIGN: usize>(u64);

impl<const ALIGN: usize> ExtentLayout<ALIGN> {
    #[verifier::type_invariant]
    spec fn nonempty(self) -> bool {
        self.0 != 0
    }
}

impl<const ALIGN: usize> LayoutDescriptor<ALIGN> for ExtentLayout<ALIGN> {
    type Err = IntegerOverflow;

    open spec fn max_page_count() -> u64 {
        EXTENT_LAYOUT_MAX_PAGES
    }

    closed spec fn size_spec(&self) -> u64 {
        self.0
    }

    open spec fn align_spec(&self) -> u64 {
        1
    }

    open spec fn align_for(count: u64) -> u64 {
        1
    }

    /// The rounded-down half is cut off, the rest remains
    closed spec fn split_spec(&self) -> Option<(Self, Self)> {
        if self.0 / 2 == 0 {
            None
        } else {
            Some((ExtentLayout(self.0 / 2), ExtentLayout((self.0 - self.0 / 2) as u64)))
        }
    }

    open spec fn page_granular() -> bool {
        true
    }

    proof fn lemma_page_granular(&self) {
    }

    fn max_pages() -> (r: u64) {
        EXTENT_LAYOUT_MAX_PAGES
    }

    fn size(&self) -> (r: u64) {
        proof {
            use_type_invariant(self);
        }
        self.0
    }

    fn from_pages(count: u64) -> (r: Result<Self, IntegerOverflow>) {
        if count <= EXTENT_LAYOUT_MAX_PAGES {
            Ok(ExtentLayout(count))
        } else {
            Err(IntegerOverflow)
        }
    }

    fn from_pages_unchecked(count: u64) -> (r: Self) {
        ExtentLayout(count)
    }

    fn align(&self) -> (r: u64) {
        1
    }

    /// Halves the layout: the returned piece holds the rounded-down
    /// half, `self` keeps the rest
    fn split(&mut self) -> (r: Option<Self>)
        ensures
            r is None <==> old(self).size_spec() / 2 == 0,
            r matches Some(piece) ==> piece.size_spec() == old(self).size_spec() / 2
                && final(self).size_spec() == old(self).size_spec() - old(self).size_spec() / 2,
    {
        proof {
            use_type_invariant(&*self);
        }
        let half = self.0 / 2;
        if half == 0 {
            None
        } else {
            *self = ExtentLayout(self.0 - half);
            Some(ExtentLayout(half))
        }
    }
}

} // verus!
