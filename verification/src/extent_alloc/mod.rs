//! Extent allocators and everything needed to use them
//!
//! - `RawExtentAlloc`: the allocator core that keeps the free and used extents
//! - `ExtentAllocator`: an allocator that can split a request into several extents
//! - `CachedExtentAllocator`: an allocator with a cache for small requests
use vstd::prelude::*;

pub mod extent;
pub mod layout;
pub mod alloc_map;
pub mod order;
pub mod raw_alloc;
pub mod batch;
pub mod allocator;
pub mod cache;
pub mod cached_alloc;

verus! {

/// Marks all extent allocator types to use in generics
pub trait ExtentAlloc<const ALIGN: usize> {}

} // verus!
