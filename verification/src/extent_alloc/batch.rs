//! A batch of extents allocated by one allocation request
use vstd::prelude::*;
use super::ExtentAlloc;
use super::extent::{Extent, RawExtent, ScopedExtent};

verus! {

/// The total page count of the extents
pub open spec fn total_pages<const ALIGN: usize, E: Extent<ALIGN>>(exts: Seq<E>) -> int
    decreases exts.len(),
{
    if exts.len() == 0 {
        0
    } else {
        total_pages::<ALIGN, E>(exts.drop_last()) + exts.last().size_spec()
    }
}

/// The starting addresses and page counts of the extents
pub open spec fn extent_map<const ALIGN: usize, E: Extent<ALIGN>>(exts: Seq<E>) -> Map<u64, u64>
    decreases exts.len(),
{
    if exts.len() == 0 {
        Map::empty()
    } else {
        extent_map::<ALIGN, E>(exts.drop_last()).insert(exts.last().start_spec(), exts.last().size_spec())
    }
}

/// A batch of extents allocated by one allocation request
pub struct Batch<'alloc, const ALIGN: usize, Ext: Extent<ALIGN> + RawExtent<ALIGN>, Alloc: ExtentAlloc<ALIGN>>(Vec<
    ScopedExtent<'alloc, ALIGN, Ext, Alloc>,
>);

impl<'alloc, const ALIGN: usize, Ext: Extent<ALIGN> + RawExtent<ALIGN>, Alloc: ExtentAlloc<ALIGN>> Batch<'alloc, ALIGN, Ext, Alloc> {
    /// The extents of the batch, in the order of their allocation
    pub closed spec fn extents(&self) -> Seq<ScopedExtent<'alloc, ALIGN, Ext, Alloc>> {
        self.0@
    }

    /// Constructs a new `Batch` from the given `ScopedExtent`
    pub fn from_single(ext: ScopedExtent<'alloc, ALIGN, Ext, Alloc>) -> (r: Self)
        ensures
            r.extents() == seq![ext],
    {
        Batch(vec![ext])
    }

    /// Constructs a new `Batch` from the given vector of `ScopedExtent`s
    pub fn from_vec(vec: Vec<ScopedExtent<'alloc, ALIGN, Ext, Alloc>>) -> (r: Self)
        ensures
            r.extents() == vec@,
    {
        Batch(vec)
    }

    /// Returns a slice of the contained extents
    pub fn as_slice(&self) -> (r: &[ScopedExtent<'alloc, ALIGN, Ext, Alloc>])
        ensures
            r@ == self.extents(),
    {
        self.0.as_slice()
    }

    /// Converts the `Batch` into a vector of extents
    pub fn into_vec(self) -> (r: Vec<ScopedExtent<'alloc, ALIGN, Ext, Alloc>>)
        ensures
            r@ == self.extents(),
    {
        self.0
    }
}

} // verus!
