//! Memory management building blocks of a kernel: alignment arithmetic,
//! aligned addresses, an extent allocator and x86_64 paging structures
use vstd::prelude::*;

pub mod misc;
pub mod address;
pub mod non_null;
pub mod extent_alloc;
pub mod paging;
pub mod rand;

verus! {
}
