//! Extents: chunks of memory described by a starting address and a page count
use vstd::prelude::*;
use core::marker::PhantomData;
use crate::misc::is_power_of_two;
use crate::address::clamp;
use crate::non_null::AlignedNonNull;
use super::ExtentAlloc;

verus! {

/// The address right behind `size` pages of `align` bytes starting at `address`,
/// saturated to the end of the 64-bit address space
pub open spec fn extent_end(address: int, size: int, align: int) -> int {
    clamp(address + size * align, 0, u64::MAX as int)
}

/// An extent describes a chunk of memory by its starting address and its size in pages
pub trait Extent<const ALIGN: usize>: Sized {
    /// The starting address
    spec fn start_spec(&self) -> u64;

    /// The size in pages
    spec fn size_spec(&self) -> u64;

    /// Returns the starting address of the extent
    fn address(&self) -> (r: AlignedNonNull<ALIGN>)
        ensures
            r@ == self.start_spec(),
    ;

    /// Returns the size in pages
    fn size(&self) -> (r: u64)
        ensures
            r == self.size_spec(),
            r != 0,
    ;

    /// Calculates the ending address of the extent
    fn end_address(&self) -> (r: AlignedNonNull<ALIGN>)
        ensures
            r@ == extent_end(self.start_spec() as int, self.size_spec() as int, ALIGN as int),
    {
        self.address().add_pages(self.size())
    }

    /// Indicates whether `self` and `other` are right next to each
    /// other and are then "touching" each other
    fn is_touching(&self, other: &Self) -> (r: bool)
        ensures
            r == (extent_end(self.start_spec() as int, self.size_spec() as int, ALIGN as int)
                == other.start_spec() || self.start_spec() == extent_end(
                other.start_spec() as int,
                other.size_spec() as int,
                ALIGN as int,
            )),
    {
        self.end_address().as_inner() == other.address().as_inner()
            || self.address().as_inner() == other.end_address().as_inner()
    }

    /// Indicates whether `self` fits into `other`
    /// - Returns `true` if the extents are equivalent
    fn fits_into(&self, other: &Self) -> (r: bool)
        ensures
            r == (self.start_spec() >= other.start_spec() && extent_end(
                self.start_spec() as int,
                self.size_spec() as int,
                ALIGN as int,
            ) <= extent_end(other.start_spec() as int, other.size_spec() as int, ALIGN as int)),
    {
        self.address().as_inner() >= other.address().as_inner()
            && self.end_address().as_inner() <= other.end_address().as_inner()
    }

    /// Indicates whether the two extents are overlapping
    fn is_overlapping(&self, other: &Self) -> (r: bool)
        ensures
            r == !(extent_end(self.start_spec() as int, self.size_spec() as int, ALIGN as int)
                <= other.start_spec() || self.start_spec() >= extent_end(
                other.start_spec() as int,
                other.size_spec() as int,
                ALIGN as int,
            )),
    {
        !(self.end_address().as_inner() <= other.address().as_inner()
            || self.address().as_inner() >= other.end_address().as_inner())
    }
}

/// Extents that can be constructed from an address and a page count
pub trait RawExtent<const ALIGN: usize>: Extent<ALIGN> {
    fn new(address: AlignedNonNull<ALIGN>, pages: u64) -> (r: Self)
        requires
            pages != 0,
        ensures
            r.start_spec() == address@,
            r.size_spec() == pages,
    ;
}

/// Indicates whether the extent is used or free
#[derive(Clone)]
pub enum TakenExtent<const ALIGN: usize, Ext: Extent<ALIGN> + RawExtent<ALIGN>> {
    /// An extent that is not used and/or allocated
    Free(Ext),
    /// An extent that is used and/or allocated
    Used(Ext),
}

impl<const ALIGN: usize, Ext: Extent<ALIGN> + RawExtent<ALIGN>> TakenExtent<ALIGN, Ext> {
    /// The underlying extent
    pub open spec fn inner(&self) -> Ext {
        match self {
            TakenExtent::Free(ext) => *ext,
            TakenExtent::Used(ext) => *ext,
        }
    }

    /// Returns a reference to the underlying extent
    pub fn regular(&self) -> (r: &Ext)
        ensures
            *r == self.inner(),
    {
        match self {
            TakenExtent::Free(ext) => ext,
            TakenExtent::Used(ext) => ext,
        }
    }
}

/// An extent type used by the extent allocator under the hood
#[derive(Clone, Copy)]
pub struct InternalExtent<const ALIGN: usize> {
    start: AlignedNonNull<ALIGN>,
    size: u64,
}

impl<const ALIGN: usize> InternalExtent<ALIGN> {
    #[verifier::type_invariant]
    spec fn nonempty(self) -> bool {
        self.size != 0
    }

    /// Converts the extent into `InternalExtent`
    pub fn from_extent<Ext: Extent<ALIGN>>(ext: Ext) -> (r: Self)
        ensures
            r.start_spec() == ext.start_spec(),
            r.size_spec() == ext.size_spec(),
    {
        InternalExtent { start: ext.address(), size: ext.size() }
    }
}

impl<const ALIGN: usize> Extent<ALIGN> for InternalExtent<ALIGN> {
    closed spec fn start_spec(&self) -> u64 {
        self.start@
    }

    closed spec fn size_spec(&self) -> u64 {
        self.size
    }

    fn address(&self) -> (r: AlignedNonNull<ALIGN>) {
        self.start
    }

    fn size(&self) -> (r: u64) {
        proof {
            use_type_invariant(self);
        }
        self.size
    }
}

impl<const ALIGN: usize> RawExtent<ALIGN> for InternalExtent<ALIGN> {
    fn new(address: AlignedNonNull<ALIGN>, pages: u64) -> (r: Self) {
        InternalExtent { start: address, size: pages }
    }
}

/// A mutable extent used by the allocator to split and merge extents
#[derive(Clone, Copy)]
pub struct MutableExtent<const ALIGN: usize> {
    start: AlignedNonNull<ALIGN>,
    size: u64,
}

/// The space around an extent removed from a bigger extent
pub struct RemainingExtents<const ALIGN: usize> {
    /// The space in front of the removed extent
    pub front: Option<MutableExtent<ALIGN>>,
    /// The space behind the removed extent
    pub remainder: Option<MutableExtent<ALIGN>>,
}

impl<const ALIGN: usize> Extent<ALIGN> for MutableExtent<ALIGN> {
    closed spec fn start_spec(&self) -> u64 {
        self.start@
    }

    closed spec fn size_spec(&self) -> u64 {
        self.size
    }

    fn address(&self) -> (r: AlignedNonNull<ALIGN>) {
        self.start
    }

    fn size(&self) -> (r: u64) {
        proof {
            use_type_invariant(self);
        }
        self.size
    }
}

impl<const ALIGN: usize> RawExtent<ALIGN> for MutableExtent<ALIGN> {
    fn new(address: AlignedNonNull<ALIGN>, pages: u64) -> (r: Self) {
        MutableExtent { start: address, size: pages }
    }
}

/// The page count between two addresses, zero when `hi` is below `lo`
pub open spec fn pages_between(lo: int, hi: int, align: int) -> int {
    if hi <= lo {
        0
    } else {
        (hi - lo) / align
    }
}

/// The whole pages between `lo` and `hi` fit between them
pub proof fn lemma_pages_between_bound(lo: int, hi: int, align: int)
    requires
        align > 0,
    ensures
        pages_between(lo, hi, align) >= 0,
        lo <= hi ==> pages_between(lo, hi, align) <= hi - lo,
        lo <= hi ==> lo + pages_between(lo, hi, align) * align <= hi,
{
    if hi > lo {
        let d = hi - lo;
        vstd::arithmetic::div_mod::lemma_fundamental_div_mod(d, align);
        vstd::arithmetic::div_mod::lemma_mod_pos_bound(d, align);
        vstd::arithmetic::div_mod::lemma_div_pos_is_pos(d, align);
        let q = d / align;
        assert(q * align == align * q && align * q >= q) by (nonlinear_arith)
            requires
                align > 0,
                q >= 0,
        ;
    }
}

/// Merging the two parts of a split extent gives back the extent: the part behind
/// starts where the part in front ends, the page counts add up again, and the
/// merged extent starts where the part in front starts
pub proof fn lemma_split_then_merge(a: u64, n: u64, k: u64, align: int)
    requires
        0 < k < n,
        align >= 0,
    ensures
        a <= extent_end(a as int, k as int, align),
        clamp(k + (n - k), 0, u64::MAX as int) == n,
        (if a < extent_end(a as int, k as int, align) {
            a as int
        } else {
            extent_end(a as int, k as int, align)
        }) == a,
{
    assert(k * align >= 0) by (nonlinear_arith)
        requires
            k > 0,
            align >= 0,
    ;
}

impl<const ALIGN: usize> MutableExtent<ALIGN> {
    #[verifier::type_invariant]
    spec fn nonempty(self) -> bool {
        self.size != 0
    }

    /// Constructs a new `MutableExtent`
    pub fn new(address: AlignedNonNull<ALIGN>, pages: u64) -> (r: Self)
        requires
            pages != 0,
        ensures
            r.start_spec() == address@,
            r.size_spec() == pages,
    {
        MutableExtent { start: address, size: pages }
    }

    /// Splits the `MutableExtent` at the given size, returning
    /// the new extent if there is any space left
    /// - Returns `Err` if `size` is greater than the size of `self`
    pub fn split(&mut self, size: u64) -> (r: Result<Option<Self>, ()>)
        requires
            size != 0,
        ensures
            r is Err <==> size > old(self).size_spec(),
            r is Err ==> *final(self) == *old(self),
            r is Ok ==> final(self).start_spec() == old(self).start_spec()
                && final(self).size_spec() == size,
            r == Ok::<Option<Self>, ()>(None) <==> size == old(self).size_spec(),
            r matches Ok(Some(rest)) ==> size < old(self).size_spec()
                && rest.start_spec() == extent_end(
                old(self).start_spec() as int,
                size as int,
                ALIGN as int,
            ) && rest.size_spec() == old(self).size_spec() - size,
    {
        proof {
            use_type_invariant(&*self);
        }
        if self.size < size {
            Err(())
        } else if self.size == size {
            Ok(None)
        } else {
            let new_addr = self.start.add_pages(size);
            let new_size = self.size - size;
            self.size = size;
            Ok(Some(MutableExtent { start: new_addr, size: new_size }))
        }
    }

    /// Same as `split()`, but the caller guarantees that `size` fits into `self`
    /// - Returns `None` if `self.size()` is equal to `size`
    pub fn split_unchecked(&mut self, size: u64) -> (r: Option<Self>)
        requires
            size != 0,
            size <= old(self).size_spec(),
        ensures
            final(self).start_spec() == old(self).start_spec(),
            final(self).size_spec() == size,
            r is None <==> size == old(self).size_spec(),
            r matches Some(rest) ==> rest.start_spec() == extent_end(
                old(self).start_spec() as int,
                size as int,
                ALIGN as int,
            ) && rest.size_spec() == old(self).size_spec() - size,
    {
        if self.size == size {
            None
        } else {
            let new_addr = self.start.add_pages(size);
            let new_size = self.size - size;
            self.size = size;
            Some(MutableExtent { start: new_addr, size: new_size })
        }
    }

    /// Merges the `neighbor` into `self` if the two extents are touching
    ///
    /// Returns `Err(neighbor)` if the two extents are not touching
    pub fn merge(&mut self, neighbor: Self) -> (r: Result<(), Self>)
        ensures
            r is Ok <==> (extent_end(
                old(self).start_spec() as int,
                old(self).size_spec() as int,
                ALIGN as int,
            ) == neighbor.start_spec() || old(self).start_spec() == extent_end(
                neighbor.start_spec() as int,
                neighbor.size_spec() as int,
                ALIGN as int,
            )),
            r matches Err(n) ==> n == neighbor && *final(self) == *old(self),
            r is Ok ==> final(self).size_spec() == clamp(
                old(self).size_spec() + neighbor.size_spec(),
                0,
                u64::MAX as int,
            ),
            r is Ok ==> final(self).start_spec() == (if old(self).start_spec()
                < neighbor.start_spec() {
                old(self).start_spec()
            } else {
                neighbor.start_spec()
            }),
    {
        if self.is_touching(&neighbor) {
            self.merge_unchecked(neighbor);
            Ok(())
        } else {
            Err(neighbor)
        }
    }

    /// Merges the `neighbor` extent into `self`; the caller guarantees
    /// that the two extents are touching each other
    pub fn merge_unchecked<Ext: Extent<ALIGN>>(&mut self, neighbor: Ext)
        ensures
            final(self).size_spec() == clamp(
                old(self).size_spec() + neighbor.size_spec(),
                0,
                u64::MAX as int,
            ),
            final(self).start_spec() == (if old(self).start_spec() < neighbor.start_spec() {
                old(self).start_spec()
            } else {
                neighbor.start_spec()
            }),
    {
        let size = self.size().saturating_add(neighbor.size());
        let own = self.start.as_inner();
        let other = neighbor.address();
        if own < other.as_inner() {
            self.size = size;
        } else {
            *self = MutableExtent { start: other, size };
        }
    }

    /// Consumes the `MutableExtent` and converts it into a regular extent
    pub fn into_regular<Ext: Extent<ALIGN> + RawExtent<ALIGN>>(self) -> (r: Ext)
        ensures
            r.start_spec() == self.start_spec(),
            r.size_spec() == self.size_spec(),
    {
        proof {
            use_type_invariant(&self);
        }
        Ext::new(self.start, self.size)
    }

    /// Converts the given extent into `MutableExtent`
    pub fn from_regular<Ext: Extent<ALIGN> + RawExtent<ALIGN>>(ext: Ext) -> (r: Self)
        ensures
            r.start_spec() == ext.start_spec(),
            r.size_spec() == ext.size_spec(),
    {
        MutableExtent::new(ext.address(), ext.size())
    }

    /// Removes `self` from the bigger extent `ext`, the caller guarantees
    /// that `self` fits into `ext`
    ///
    /// The front is the space of `ext` in front of `self`, the
    /// remainder is the space of `ext` behind `self`
    pub fn remove_from_unchecked(self, ext: Self) -> (r: RemainingExtents<ALIGN>)
        requires
            is_power_of_two(ALIGN as int),
        ensures
            ({
                let front_pages = pages_between(
                    ext.start_spec() as int,
                    self.start_spec() as int,
                    ALIGN as int,
                );
                let self_end = extent_end(
                    self.start_spec() as int,
                    self.size_spec() as int,
                    ALIGN as int,
                );
                let rem_pages = pages_between(
                    self_end,
                    extent_end(ext.start_spec() as int, ext.size_spec() as int, ALIGN as int),
                    ALIGN as int,
                );
                &&& r.front is None <==> front_pages == 0
                &&& r.front matches Some(f) ==> f.start_spec() == ext.start_spec()
                    && f.size_spec() == front_pages
                &&& r.remainder is None <==> rem_pages == 0
                &&& r.remainder matches Some(m) ==> m.start_spec() == self_end
                    && m.size_spec() == rem_pages
            }),
    {
        proof {
            crate::misc::lemma_power_of_two_facts(ALIGN as int);
        }
        let align = ALIGN as u64;
        let front_pages = self.start.as_inner().saturating_sub(ext.start.as_inner()) / align;
        let front = if front_pages != 0 {
            Some(MutableExtent::new(ext.start, front_pages))
        } else {
            None
        };
        let end_addr = self.end_address();
        let rem_pages = ext.end_address().as_inner().saturating_sub(end_addr.as_inner()) / align;
        let remainder = if rem_pages != 0 {
            Some(MutableExtent::new(end_addr, rem_pages))
        } else {
            None
        };
        RemainingExtents { front, remainder }
    }

    /// Removes `self` from the bigger extent `ext`
    ///
    /// If `self` does not fit into `ext`, the function returns ownership of `(self, ext)`
    pub fn remove_from(self, ext: Self) -> (r: Result<RemainingExtents<ALIGN>, (Self, Self)>)
        requires
            is_power_of_two(ALIGN as int),
        ensures
            r is Ok <==> (self.start_spec() >= ext.start_spec() && extent_end(
                self.start_spec() as int,
                self.size_spec() as int,
                ALIGN as int,
            ) <= extent_end(ext.start_spec() as int, ext.size_spec() as int, ALIGN as int)),
            r matches Err(pair) ==> pair == (self, ext),
            r matches Ok(rem) ==> ({
                let front_pages = pages_between(
                    ext.start_spec() as int,
                    self.start_spec() as int,
                    ALIGN as int,
                );
                let self_end = extent_end(
                    self.start_spec() as int,
                    self.size_spec() as int,
                    ALIGN as int,
                );
                let rem_pages = pages_between(
                    self_end,
                    extent_end(ext.start_spec() as int, ext.size_spec() as int, ALIGN as int),
                    ALIGN as int,
                );
                &&& rem.front is None <==> front_pages == 0
                &&& rem.front matches Some(f) ==> f.start_spec() == ext.start_spec()
                    && f.size_spec() == front_pages
                &&& rem.remainder is None <==> rem_pages == 0
                &&& rem.remainder matches Some(m) ==> m.start_spec() == self_end
                    && m.size_spec() == rem_pages
            }),
    {
        if self.fits_into(&ext) {
            Ok(self.remove_from_unchecked(ext))
        } else {
            Err((self, ext))
        }
    }
}

/// An abstraction over a raw extent that makes sure that
/// the underlying extent does not outlive its allocator
pub struct ScopedExtent<'alloc, const ALIGN: usize, Ext: Extent<ALIGN> + RawExtent<ALIGN>, Alloc: ExtentAlloc<ALIGN>> {
    ext: Ext,
    _alloc: PhantomData<&'alloc Alloc>,
}

impl<'alloc, const ALIGN: usize, Ext: Extent<ALIGN> + RawExtent<ALIGN>, Alloc: ExtentAlloc<ALIGN>> ScopedExtent<'alloc, ALIGN, Ext, Alloc> {
    /// The wrapped extent
    pub closed spec fn inner(&self) -> Ext {
        self.ext
    }

    /// Constructs a `ScopedExtent` from the given raw extent
    pub fn from_extent(ext: Ext) -> (r: Self)
        ensures
            r.inner() == ext,
            r.start_spec() == ext.start_spec(),
            r.size_spec() == ext.size_spec(),
    {
        ScopedExtent { ext, _alloc: PhantomData }
    }

    /// Sets the inner raw extent free
    pub fn into_extent(self) -> (r: Ext)
        ensures
            r == self.inner(),
    {
        self.ext
    }
}

impl<'alloc, const ALIGN: usize, Ext: Extent<ALIGN> + RawExtent<ALIGN>, Alloc: ExtentAlloc<ALIGN>> Extent<ALIGN> for ScopedExtent<'alloc, ALIGN, Ext, Alloc> {
    closed spec fn start_spec(&self) -> u64 {
        self.ext.start_spec()
    }

    closed spec fn size_spec(&self) -> u64 {
        self.ext.size_spec()
    }

    fn address(&self) -> (r: AlignedNonNull<ALIGN>) {
        self.ext.address()
    }

    fn size(&self) -> (r: u64) {
        self.ext.size()
    }
}


/// An abstraction over a raw extent that remembers the allocator it came from
pub struct OwnedExtent<'alloc, const ALIGN: usize, Ext: Extent<ALIGN> + RawExtent<ALIGN>, Alloc: ExtentAlloc<ALIGN>> {
    ext: Ext,
    source: &'alloc Alloc,
}

impl<'alloc, const ALIGN: usize, Ext: Extent<ALIGN> + RawExtent<ALIGN>, Alloc: ExtentAlloc<ALIGN>> OwnedExtent<'alloc, ALIGN, Ext, Alloc> {
    /// The wrapped extent
    pub closed spec fn inner(&self) -> Ext {
        self.ext
    }

    /// The allocator the extent belongs to
    pub closed spec fn owner(&self) -> &'alloc Alloc {
        self.source
    }

    /// Returns the reference to the allocator
    pub fn allocator(&self) -> (r: &'alloc Alloc)
        ensures
            r == self.owner(),
    {
        self.source
    }

    /// Constructs a new `OwnedExtent` from the given raw extent and the allocator
    /// that allocated it
    pub fn from_extent_and_alloc(ext: Ext, source: &'alloc Alloc) -> (r: Self)
        ensures
            r.inner() == ext,
            r.owner() == source,
    {
        OwnedExtent { ext, source }
    }

    /// Leaks the `OwnedExtent` and returns the
    /// inner raw extent wrapped in `ScopedExtent`
    pub fn leak(self) -> (r: ScopedExtent<'alloc, ALIGN, Ext, Alloc>)
        ensures
            r.inner() == self.inner(),
    {
        ScopedExtent::from_extent(self.ext)
    }

    /// Returns a reference to the wrapped extent
    pub fn extent(&self) -> (r: &Ext)
        ensures
            *r == self.inner(),
    {
        &self.ext
    }
}

} // verus!
