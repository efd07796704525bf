//! An extent allocator with a cache in front of it for small requests
use vstd::prelude::*;
use core::marker::PhantomData;
use crate::misc::{is_power_of_two, lowest_one};
use super::ExtentAlloc;
use super::cache::{CacheAnswer, DefaultCache, ExtentCache};
use super::extent::{Extent, InternalExtent, MutableExtent, RawExtent, ScopedExtent, TakenExtent};
use super::layout::{ExtentLayout, LayoutDescriptor};
use super::raw_alloc::{
    AlreadyInitialized, PartDeallocError, RawExtentAlloc, extents_apart, split_around, suits, valid_extent,
    separate, layout_consistent, best_fit, taken, part_fits, freed, marked_extents,
};

verus! {

/// Cutting the same part out of the same extent keeps a map below another
proof fn lemma_split_around_submap(small: Map<u64, u64>, big: Map<u64, u64>, a: u64, s: u64, pa: u64, ps: u64, align: int)
    requires
        small.submap_of(big),
    ensures
        split_around(small, a, s, pa, ps, align).submap_of(split_around(big, a, s, pa, ps, align)),
{
    let sm = split_around(small, a, s, pa, ps, align);
    let bg = split_around(big, a, s, pa, ps, align);
    assert forall|k: u64| #[trigger] sm.dom().contains(k) implies bg.dom().contains(k) && sm[k] == bg[k] by {
        assert(small.dom().contains(k) ==> big.dom().contains(k));
    }
}

/// An implementation of an extent allocator that operates with
/// a predetermined page size, various sizes of allocated blocks,
/// and any number of memory blocks.
///
/// `CachedExtentAllocator` uses a cache to speed up lookup
/// for small extents. The cache can be implemented by the user.
pub struct CachedExtentAllocator<
    const ALIGN: usize,
    Ext: Extent<ALIGN> + RawExtent<ALIGN> = InternalExtent<ALIGN>,
    Lay: LayoutDescriptor<ALIGN> = ExtentLayout<ALIGN>,
    Cache: ExtentCache<ALIGN, Lay> = DefaultCache<ALIGN, Lay>,
> {
    alloc: RawExtentAlloc<ALIGN>,
    cache: Cache,
    _ext: PhantomData<Ext>,
    _lay: PhantomData<Lay>,
}

impl<
    const ALIGN: usize,
    Ext: Extent<ALIGN> + RawExtent<ALIGN>,
    Lay: LayoutDescriptor<ALIGN>,
    Cache: ExtentCache<ALIGN, Lay>,
> ExtentAlloc<ALIGN> for CachedExtentAllocator<ALIGN, Ext, Lay, Cache> {

}

impl<
    const ALIGN: usize,
    Ext: Extent<ALIGN> + RawExtent<ALIGN>,
    Lay: LayoutDescriptor<ALIGN>,
    Cache: ExtentCache<ALIGN, Lay>,
> CachedExtentAllocator<ALIGN, Ext, Lay, Cache> {
    /// The inner allocator
    pub closed spec fn raw(&self) -> RawExtentAlloc<ALIGN> {
        self.alloc
    }

    /// The extents the cache holds
    pub closed spec fn cache_view(&self) -> Map<u64, u64> {
        self.cache.held()
    }

    /// The answer the cache gives to a request for `layout`
    pub closed spec fn cache_answer(&self, layout: Lay) -> CacheAnswer {
        self.cache.answer(layout)
    }

    /// The free and used extents that the cache leaves of `free` and `used` when it refuels
    pub closed spec fn cache_refuel_views(&self, free: Map<u64, u64>, used: Map<u64, u64>) -> (
        Map<u64, u64>,
        Map<u64, u64>,
    ) {
        self.cache.refuel_views(free, used)
    }

    /// The free extents: starting address to page count
    pub open spec fn free_view(&self) -> Map<u64, u64> {
        self.raw().free_view()
    }

    /// The used extents: starting address to page count
    pub open spec fn used_view(&self) -> Map<u64, u64> {
        self.raw().used_view()
    }

    /// The inner allocator is well-formed and the cache holds only used extents
    pub open spec fn wf(&self) -> bool {
        &&& self.raw().wf()
        &&& self.cache_view().submap_of(self.used_view())
    }

    /// Constructs an uninitialized `CachedExtentAllocator`
    pub fn uninit() -> (r: Self)
        requires
            is_power_of_two(ALIGN as int),
        ensures
            r.wf(),
            r.free_view() == Map::<u64, u64>::empty(),
            r.used_view() == Map::<u64, u64>::empty(),
            r.cache_view() == Map::<u64, u64>::empty(),
    {
        CachedExtentAllocator { alloc: RawExtentAlloc::uninit(), cache: Cache::new(), _ext: PhantomData, _lay: PhantomData }
    }

    /// Returns a reference to the inner allocator
    pub fn inner(&self) -> (r: &RawExtentAlloc<ALIGN>)
        ensures
            *r == self.raw(),
    {
        &self.alloc
    }

    /// Returns a mutable reference to the inner allocator
    pub fn inner_mut(&mut self) -> (r: &mut RawExtentAlloc<ALIGN>)
        ensures
            *r == old(self).raw(),
            final(self).raw() == *final(r),
            final(self).cache_view() == old(self).cache_view(),
    {
        &mut self.alloc
    }

    /// Initializes the allocator with the given extents, as `RawExtentAlloc::initialize`
    /// does, and then lets the cache refuel from it
    pub fn initialize(&mut self, exts: Vec<TakenExtent<ALIGN, InternalExtent<ALIGN>>>) -> (r: Result<
        (),
        AlreadyInitialized,
    >)
        requires
            old(self).wf(),
            extents_apart(exts@),
        ensures
            final(self).wf(),
            r is Err <==> !(old(self).raw().free_map().is_pristine() && old(self).used_view().is_empty()),
            r is Err ==> final(self).free_view() == old(self).free_view()
                && final(self).used_view() == old(self).used_view()
                && final(self).cache_view() == old(self).cache_view(),
            r is Ok ==> (final(self).free_view(), final(self).used_view()) == old(self).cache_refuel_views(
                marked_extents(exts@, true),
                marked_extents(exts@, false),
            ),
    {
        let ghost used0 = self.alloc.used_view();
        self.alloc.initialize(exts)?;
        proof {
            assert(used0 =~= Map::<u64, u64>::empty());
            assert forall|k: u64| #[trigger] self.cache.held().dom().contains(k) implies false by {
                assert(used0.dom().contains(k));
            }
        }
        self.cache.refuel(&mut self.alloc);
        Ok(())
    }

    /// Allocates an extent as described by the given `layout`
    ///
    /// The cache is asked first. If it serves the request, the part it picked out of
    /// one of its extents becomes a used extent of its own, the rest of that extent
    /// stays used, and the free extents are left as they are. Otherwise the inner
    /// allocator allocates the extent as `RawExtentAlloc::allocate_exact` does, after
    /// letting the cache refuel if the cache asked for it
    pub fn allocate_contignous<'me>(&'me mut self, layout: Lay) -> (r: Option<ScopedExtent<'me, ALIGN, Ext, Self>>)
        requires
            old(self).wf(),
        ensures
            final(self).wf(),
            r matches Some(e) ==> {
                &&& e.size_spec() == layout.size_spec()
                &&& lowest_one(e.start_spec()) >= layout.align_spec()
                &&& final(self).used_view().contains_key(e.start_spec())
                &&& final(self).used_view()[e.start_spec()] == e.size_spec()
                &&& !final(self).free_view().contains_key(e.start_spec())
            },
            match old(self).cache_answer(layout) {
                CacheAnswer::Serve { suitable_start, suitable_size, allocated_start, allocated_size } => {
                    &&& r matches Some(e) && e.start_spec() == allocated_start && e.size_spec() == allocated_size
                    &&& final(self).free_view() == old(self).free_view()
                    &&& final(self).used_view() == split_around(
                        old(self).used_view(),
                        suitable_start,
                        suitable_size,
                        allocated_start,
                        allocated_size,
                        ALIGN as int,
                    ).insert(allocated_start, allocated_size)
                },
                CacheAnswer::Decline => {
                    &&& r is None <==> forall|a: u64| !#[trigger] suits(
                        old(self).free_view(),
                        a,
                        layout.size_spec(),
                        layout.align_spec(),
                    )
                    &&& r is None ==> final(self).free_view() == old(self).free_view()
                        && final(self).used_view() == old(self).used_view()
                    &&& r matches Some(e) ==> {
                        &&& best_fit(old(self).free_view(), e.start_spec(), layout.size_spec(), layout.align_spec())
                        &&& final(self).used_view() == old(self).used_view().insert(e.start_spec(), e.size_spec())
                        &&& final(self).free_view() == taken(
                            old(self).free_view(),
                            e.start_spec(),
                            e.size_spec(),
                            ALIGN as int,
                        )
                    }
                },
                CacheAnswer::Refuel => {
                    let refuelled = old(self).cache_refuel_views(old(self).free_view(), old(self).used_view());
                    &&& r is None <==> forall|a: u64| !#[trigger] suits(
                        refuelled.0,
                        a,
                        layout.size_spec(),
                        layout.align_spec(),
                    )
                    &&& r is None ==> final(self).free_view() == refuelled.0 && final(self).used_view() == refuelled.1
                    &&& r matches Some(e) ==> {
                        &&& best_fit(refuelled.0, e.start_spec(), layout.size_spec(), layout.align_spec())
                        &&& final(self).used_view() == refuelled.1.insert(e.start_spec(), e.size_spec())
                        &&& final(self).free_view() == taken(refuelled.0, e.start_spec(), e.size_spec(), ALIGN as int)
                    }
                },
            },
            r is None ==> forall|a: u64| !#[trigger] suits(
                final(self).free_view(),
                a,
                layout.size_spec(),
                layout.align_spec(),
            ),
    {
        proof {
            self.alloc.lemma_wf();
        }
        let ghost held0 = self.cache.held();
        let ghost used0 = self.alloc.used_view();
        let ghost free0 = self.alloc.free_view();
        match self.cache.allocate_cached(&layout) {
            Ok(Some(source)) => {
                let ghost sa = source;
                let ghost held1 = self.cache.held();
                proof {
                    assert(held0.dom().contains(sa.suitable.start_spec()));
                    assert(used0.dom().contains(sa.suitable.start_spec()));
                    assert(used0[sa.suitable.start_spec()] == sa.suitable.size_spec());
                }
                match self.alloc.allocate_source(source) {
                    Some(ext) => {
                        proof {
                            let (a, s, pa, ps) = (
                                sa.suitable.start_spec(),
                                sa.suitable.size_spec(),
                                sa.allocated.start_spec(),
                                sa.allocated.size_spec(),
                            );
                            lemma_split_around_submap(held0, used0, a, s, pa, ps, ALIGN as int);
                            self.alloc.lemma_wf();
                            let mid = split_around(held0, a, s, pa, ps, ALIGN as int);
                            let split = split_around(used0, a, s, pa, ps, ALIGN as int);
                            assert(valid_extent(a, s, ALIGN as int));
                            assert forall|k: u64| #[trigger] held1.dom().contains(k) implies self.alloc.used_view().dom().contains(k)
                                && held1[k] == self.alloc.used_view()[k] by {
                                assert(mid.dom().contains(k));
                                assert(split.dom().contains(k));
                            }
                        }
                        Some(ScopedExtent::from_extent(Ext::new(ext.address(), ext.size())))
                    },
                    None => {
                        proof {
                            assert(false);
                        }
                        None
                    },
                }
            },
            Ok(None) => {
                proof {
                    assert forall|k: u64| #[trigger] self.cache.held().dom().contains(k) implies self.alloc.used_view().dom().contains(k)
                        && self.cache.held()[k] == self.alloc.used_view()[k] by {
                        assert(held0.dom().contains(k));
                    }
                    assert(self.alloc.free_view() == free0);
                }
                let res = self.allocate_uncached(&layout);
                proof {
                    assert(free0 == old(self).free_view());
                    assert(res is None <==> forall|a: u64| !#[trigger] suits(
                        old(self).free_view(),
                        a,
                        layout.size_spec(),
                        layout.align_spec(),
                    ));
                }
                res
            },
            Err(_) => {
                proof {
                    assert forall|k: u64| #[trigger] self.cache.held().dom().contains(k) implies self.alloc.used_view().dom().contains(k)
                        && self.cache.held()[k] == self.alloc.used_view()[k] by {
                        assert(held0.dom().contains(k));
                    }
                }
                let ghost views0 = (self.alloc.free_view(), self.alloc.used_view());
                proof {
                    assert(self.cache == old(self).cache);
                    assert(views0 == (old(self).free_view(), old(self).used_view()));
                }
                self.cache.refuel(&mut self.alloc);
                let ghost free1 = self.alloc.free_view();
                proof {
                    assert((free1, self.alloc.used_view()) == old(self).cache_refuel_views(views0.0, views0.1));
                }
                let res = self.allocate_uncached(&layout);
                proof {
                    let refuelled = old(self).cache_refuel_views(old(self).free_view(), old(self).used_view());
                    assert(free1 == refuelled.0);
                    assert(res is None <==> forall|a: u64| !#[trigger] suits(
                        refuelled.0,
                        a,
                        layout.size_spec(),
                        layout.align_spec(),
                    ));
                }
                res
            },
        }
    }

    /// Allocates the extent with the inner allocator, as `RawExtentAlloc::allocate_exact` does
    fn allocate_uncached<'me>(&mut self, layout: &Lay) -> (r: Option<ScopedExtent<'me, ALIGN, Ext, Self>>)
        requires
            old(self).wf(),
        ensures
            final(self).wf(),
            final(self).cache_view() == old(self).cache_view(),
            r matches Some(e) ==> {
                &&& e.size_spec() == layout.size_spec()
                &&& best_fit(old(self).free_view(), e.start_spec(), layout.size_spec(), layout.align_spec())
                &&& final(self).used_view() == old(self).used_view().insert(e.start_spec(), e.size_spec())
                &&& final(self).free_view() == taken(old(self).free_view(), e.start_spec(), e.size_spec(), ALIGN as int)
                &&& !final(self).free_view().contains_key(e.start_spec())
            },
            r is None ==> final(self).free_view() == old(self).free_view()
                && final(self).used_view() == old(self).used_view(),
            r is None <==> forall|a: u64| !#[trigger] suits(
                old(self).free_view(),
                a,
                layout.size_spec(),
                layout.align_spec(),
            ),
    {
        proof {
            self.alloc.lemma_wf();
        }
        let ghost free0 = self.alloc.free_view();
        let ghost used0 = self.alloc.used_view();
        let res = self.alloc.allocate_exact(layout);
        proof {
            assert(free0 == old(self).free_view());
        }
        match res {
            Some(ext) => {
                proof {
                    assert(free0.dom().contains(ext.start_spec()));
                    assert(!used0.dom().contains(ext.start_spec()));
                    assert forall|k: u64| #[trigger] self.cache.held().dom().contains(k) implies self.alloc.used_view().dom().contains(k)
                        && self.cache.held()[k] == self.alloc.used_view()[k] by {
                        assert(used0.dom().contains(k));
                    }
                    self.alloc.lemma_wf();
                    assert(self.alloc.used_view().contains_key(ext.start_spec()));
                    assert(!self.alloc.free_view().contains_key(ext.start_spec()));
                }
                Some(ScopedExtent::from_extent(Ext::new(ext.address(), ext.size())))
            },
            None => {
                proof {
                    assert forall|a: u64| !#[trigger] suits(
                        old(self).free_view(),
                        a,
                        layout.size_spec(),
                        layout.align_spec(),
                    ) by {
                        assert(!suits(free0, a, layout.size_spec(), layout.align_spec()));
                    }
                }
                None
            },
        }
    }

    /// Deallocates the extent, as `RawExtentAlloc::deallocate` does
    ///
    /// The extent must not be one the cache holds
    pub fn deallocate<'me>(&mut self, ext: ScopedExtent<'me, ALIGN, Ext, Self>) -> (r: Result<(), ()>)
        requires
            old(self).wf(),
            !old(self).cache_view().contains_key(ext.start_spec()),
            old(self).used_view().contains_key(ext.start_spec()) ==> old(self).used_view()[ext.start_spec()]
                == ext.size_spec(),
        ensures
            final(self).wf(),
            r is Ok <==> old(self).used_view().contains_key(ext.start_spec()),
            r is Err ==> final(self).free_view() == old(self).free_view()
                && final(self).used_view() == old(self).used_view(),
            r is Ok ==> final(self).used_view() == old(self).used_view().remove(ext.start_spec()),
            r is Ok ==> final(self).free_view() == freed(
                old(self).free_view(),
                ext.start_spec(),
                ext.size_spec(),
                ALIGN as int,
            ),
            final(self).cache_view() == old(self).cache_view(),
    {
        let ext = MutableExtent::new(ext.address(), ext.size());
        let r = self.alloc.deallocate(ext);
        proof {
            assert forall|k: u64| #[trigger] self.cache.held().dom().contains(k) implies self.alloc.used_view().dom().contains(k)
                && self.cache.held()[k] == self.alloc.used_view()[k] by {
                assert(old(self).cache.held().dom().contains(k));
            }
        }
        r
    }

    /// Deallocates the `part` of the extent, as `RawExtentAlloc::deallocate_part` does
    ///
    /// The extent must not be one the cache holds
    pub fn deallocate_part(&mut self, ext: MutableExtent<ALIGN>, part: MutableExtent<ALIGN>) -> (r: Result<
        (),
        PartDeallocError,
    >)
        requires
            old(self).wf(),
            !old(self).cache_view().contains_key(ext.start_spec()),
            part_fits(part.start_spec(), part.size_spec(), ext.start_spec(), ext.size_spec(), ALIGN as int)
                && old(self).used_view().contains_key(ext.start_spec()) ==> {
                &&& old(self).used_view()[ext.start_spec()] == ext.size_spec()
                &&& part.start_spec() + part.size_spec() * ALIGN <= u64::MAX
                &&& part.start_spec() as int % ALIGN as int == 0
            },
        ensures
            final(self).wf(),
            ({
                if !part_fits(part.start_spec(), part.size_spec(), ext.start_spec(), ext.size_spec(), ALIGN as int) {
                    &&& r == Err::<(), PartDeallocError>(PartDeallocError::PartDoesNotFit)
                    &&& final(self).free_view() == old(self).free_view()
                    &&& final(self).used_view() == old(self).used_view()
                } else if !old(self).used_view().contains_key(ext.start_spec()) {
                    &&& r == Err::<(), PartDeallocError>(PartDeallocError::UnregisteredExtent)
                    &&& final(self).free_view() == old(self).free_view()
                    &&& final(self).used_view() == old(self).used_view()
                } else {
                    &&& r is Ok
                    &&& final(self).free_view() == old(self).free_view().insert(
                        part.start_spec(),
                        part.size_spec(),
                    )
                    &&& final(self).used_view() == split_around(
                        old(self).used_view(),
                        ext.start_spec(),
                        ext.size_spec(),
                        part.start_spec(),
                        part.size_spec(),
                        ALIGN as int,
                    )
                }
            }),
    {
        proof {
            self.alloc.lemma_wf();
        }
        let ghost used0 = self.alloc.used_view();
        let r = self.alloc.deallocate_part(ext, part);
        proof {
            let a = ext.start_spec();
            let e_end = a + ext.size_spec() * ALIGN;
            assert forall|k: u64| #[trigger] self.cache.held().dom().contains(k) implies self.alloc.used_view().dom().contains(k)
                && self.cache.held()[k] == self.alloc.used_view()[k] by {
                assert(used0.dom().contains(k) && k != a);
                if r is Ok {
                    assert(separate(k as int, used0[k] as int, a as int, ext.size_spec() as int, ALIGN as int));
                }
            }
        }
        r
    }
}

} // verus!
