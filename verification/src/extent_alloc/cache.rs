//! Caches that serve small allocations of the `CachedExtentAllocator` from extents set aside in advance
use vstd::prelude::*;
use core::marker::PhantomData;
use crate::misc::lowest_one;
use super::extent::{Extent, InternalExtent, MutableExtent};
use super::layout::LayoutDescriptor;
use super::raw_alloc::{RawExtentAlloc, best_fit, lemma_aligned_step, lemma_best_fit_unique, split_around, suits, taken};

verus! {

/// Indicates that the cache has run out of memory and requires refuelling
pub struct RefuelRequest;

/// Returned by the `allocate_cached()` function from the `ExtentCache` trait, pairs the
/// extent that satisfies the allocation and an extent that will be allocated
pub struct SourceAllocation<const ALIGN: usize> {
    /// The extent deemed to be suitable for the allocation, as the cache held it
    pub suitable: InternalExtent<ALIGN>,
    /// The extent that is being allocated: it lies inside `suitable`, holds exactly
    /// the pages of the layout and meets its alignment
    pub allocated: InternalExtent<ALIGN>,
}

/// The allocated extent of `sa` meets the `layout`, starts on the `ALIGN` boundary
/// and lies inside the suitable extent
pub open spec fn source_fits<const ALIGN: usize, Lay: LayoutDescriptor<ALIGN>>(
    sa: SourceAllocation<ALIGN>,
    layout: Lay,
) -> bool {
    &&& sa.allocated.size_spec() == layout.size_spec()
    &&& lowest_one(sa.allocated.start_spec()) >= layout.align_spec()
    &&& sa.allocated.start_spec() as int % ALIGN as int == 0
    &&& sa.allocated.start_spec() >= sa.suitable.start_spec()
    &&& sa.allocated.start_spec() + sa.allocated.size_spec() * ALIGN <= sa.suitable.start_spec()
        + sa.suitable.size_spec() * ALIGN
}

/// What a cache answers to a request, in plain values
pub enum CacheAnswer {
    /// The cache serves the request: `allocated_start` and `allocated_size` describe the
    /// extent it hands out, which it picked out of the extent it held at `suitable_start`
    /// with `suitable_size` pages
    Serve { suitable_start: u64, suitable_size: u64, allocated_start: u64, allocated_size: u64 },
    /// The cache cannot serve the request; the allocator handles it itself
    Decline,
    /// The cache asks to be refuelled
    Refuel,
}

/// The answer that the result of `ExtentCache::allocate_cached` gives
pub open spec fn answer_of<const ALIGN: usize>(r: Result<Option<SourceAllocation<ALIGN>>, RefuelRequest>) -> CacheAnswer {
    match r {
        Ok(Some(sa)) => CacheAnswer::Serve {
            suitable_start: sa.suitable.start_spec(),
            suitable_size: sa.suitable.size_spec(),
            allocated_start: sa.allocated.start_spec(),
            allocated_size: sa.allocated.size_spec(),
        },
        Ok(None) => CacheAnswer::Decline,
        Err(_) => CacheAnswer::Refuel,
    }
}

/// Makes any cache type work with the `CachedExtentAllocator`
///
/// Small blocks are expected to be allocated very frequently, so a cache handles
/// the search for blocks for small allocations; allocations of large blocks are
/// handled directly by the allocator. The cache holds extents that the allocator
/// has allocated to it, and hands out parts of them.
pub trait ExtentCache<const ALIGN: usize, Lay: LayoutDescriptor<ALIGN>>: Sized {
    /// The extents the cache holds: starting address to page count
    spec fn held(&self) -> Map<u64, u64>;

    /// The answer the cache gives to a request for `layout` in its present state
    spec fn answer(&self, layout: Lay) -> CacheAnswer;

    /// The free and used extents of a gas station with the free extents `free` and
    /// the used extents `used` after the cache, in its present state, refuels from it
    spec fn refuel_views(&self, free: Map<u64, u64>, used: Map<u64, u64>) -> (Map<u64, u64>, Map<u64, u64>);

    /// Constructs an empty cache
    fn new() -> (r: Self)
        ensures
            r.held() == Map::<u64, u64>::empty(),
    ;

    /// Attempts to find a suitable extent for allocation
    ///
    /// - `Ok(Some(SourceAllocation))`: one of the held extents, `suitable`, serves the
    /// request; the cache keeps at most what remains of it around `allocated`
    /// - `Ok(None)`: the cache cannot serve the request, the allocator handles it itself
    /// - `Err(RefuelRequest)`: the cache runs out of memory and asks to be refuelled;
    /// it stays as it is until then
    fn allocate_cached(&mut self, layout: &Lay) -> (r: Result<Option<SourceAllocation<ALIGN>>, RefuelRequest>)
        ensures
            answer_of(r) == old(self).answer(*layout),
            r matches Ok(Some(sa)) ==> {
                &&& source_fits(sa, *layout)
                &&& old(self).held().contains_key(sa.suitable.start_spec())
                &&& old(self).held()[sa.suitable.start_spec()] == sa.suitable.size_spec()
                &&& final(self).held().submap_of(
                    split_around(
                        old(self).held(),
                        sa.suitable.start_spec(),
                        sa.suitable.size_spec(),
                        sa.allocated.start_spec(),
                        sa.allocated.size_spec(),
                        ALIGN as int,
                    ),
                )
            },
            !(r matches Ok(Some(_))) ==> final(self).held().submap_of(old(self).held()),
            r is Err ==> *final(self) == *old(self),
    ;

    /// Allocates memory to be cached from the `gas_station`; called when
    /// `allocate_cached()` asks for it
    fn refuel(&mut self, gas_station: &mut RawExtentAlloc<ALIGN>)
        requires
            old(gas_station).wf(),
            old(self).held().submap_of(old(gas_station).used_view()),
        ensures
            final(gas_station).wf(),
            final(self).held().submap_of(final(gas_station).used_view()),
            (final(gas_station).free_view(), final(gas_station).used_view()) == old(self).refuel_views(
                old(gas_station).free_view(),
                old(gas_station).used_view(),
            ),
    ;
}

/// The page count of the extent that `DefaultCache` takes from its gas station when it
/// refuels; the refuelling policy of `DefaultCache` (one extent of this many pages, the
/// best fit of the free extents) is this library's own choice
pub const REFUEL_PAGES: u64 = 64;

/// Extent cache used by the `CachedExtentAllocator` by default: it holds at most one extent,
/// serves requests from its front and refuels with `REFUEL_PAGES` pages, a policy of this
/// library's own
pub struct DefaultCache<const ALIGN: usize, Lay: LayoutDescriptor<ALIGN>> {
    cached: Option<MutableExtent<ALIGN>>,
    _lay: PhantomData<Lay>,
}

impl<const ALIGN: usize, Lay: LayoutDescriptor<ALIGN>> DefaultCache<ALIGN, Lay> {
    #[verifier::type_invariant]
    spec fn in_address_space(self) -> bool {
        self.cached matches Some(c) ==> ALIGN > 0 && c.start_spec() + c.size_spec() * ALIGN <= u64::MAX
            && c.start_spec() as int % ALIGN as int == 0
    }

    /// The extent the cache holds, if any
    pub closed spec fn cached_extent(&self) -> Option<MutableExtent<ALIGN>> {
        self.cached
    }
}

impl<const ALIGN: usize, Lay: LayoutDescriptor<ALIGN>> ExtentCache<ALIGN, Lay> for DefaultCache<ALIGN, Lay> {
    closed spec fn held(&self) -> Map<u64, u64> {
        match self.cached {
            Some(c) => Map::<u64, u64>::empty().insert(c.start_spec(), c.size_spec()),
            None => Map::<u64, u64>::empty(),
        }
    }

    /// The held extent serves the request from its first pages if it is big enough
    /// and aligned enough; an empty cache asks to be refuelled
    closed spec fn answer(&self, layout: Lay) -> CacheAnswer {
        match self.cached {
            Some(c) => if c.size_spec() >= layout.size_spec() && lowest_one(c.start_spec()) >= layout.align_spec() {
                CacheAnswer::Serve {
                    suitable_start: c.start_spec(),
                    suitable_size: c.size_spec(),
                    allocated_start: c.start_spec(),
                    allocated_size: layout.size_spec(),
                }
            } else {
                CacheAnswer::Decline
            },
            None => CacheAnswer::Refuel,
        }
    }

    /// An empty cache takes the best fit for `REFUEL_PAGES` pages off the free extents
    /// and records it as used; a cache that holds an extent takes nothing
    closed spec fn refuel_views(&self, free: Map<u64, u64>, used: Map<u64, u64>) -> (Map<u64, u64>, Map<u64, u64>) {
        let align = Lay::align_for(REFUEL_PAGES);
        if self.cached is None && REFUEL_PAGES <= Lay::max_page_count() && exists|a: u64|
            #[trigger] best_fit(free, a, REFUEL_PAGES, align) {
            let a = choose|a: u64| #[trigger] best_fit(free, a, REFUEL_PAGES, align);
            (taken(free, a, REFUEL_PAGES, ALIGN as int), used.insert(a, REFUEL_PAGES))
        } else {
            (free, used)
        }
    }

    fn new() -> (r: Self) {
        DefaultCache { cached: None, _lay: PhantomData }
    }

    /// Serves the request from the first pages of the held extent if it is big
    /// enough and aligned enough; keeps the rest of it
    fn allocate_cached(&mut self, layout: &Lay) -> (r: Result<Option<SourceAllocation<ALIGN>>, RefuelRequest>)
        ensures
            old(self).cached_extent() is None <==> r is Err,
            r is Ok ==> (r matches Ok(Some(sa)) <==> (old(self).cached_extent() matches Some(c) && c.size_spec()
                >= layout.size_spec() && lowest_one(c.start_spec()) >= layout.align_spec())),
            r matches Ok(Some(sa)) ==> {
                &&& sa.allocated.start_spec() == sa.suitable.start_spec()
                &&& final(self).held() == split_around(
                    old(self).held(),
                    sa.suitable.start_spec(),
                    sa.suitable.size_spec(),
                    sa.allocated.start_spec(),
                    sa.allocated.size_spec(),
                    ALIGN as int,
                )
            },
            !(r matches Ok(Some(_))) ==> *final(self) == *old(self),
    {
        proof {
            use_type_invariant(&*self);
        }
        match self.cached {
            Some(cached) => {
                let size = layout.size();
                if cached.size() >= size && cached.address().get_align() >= layout.align() {
                    let held_whole: InternalExtent<ALIGN> = cached.into_regular();
                    let mut first = cached;
                    let rest = first.split_unchecked(size);
                    proof {
                        assert(size * ALIGN <= cached.size_spec() * ALIGN) by (nonlinear_arith)
                            requires
                                size <= cached.size_spec(),
                        ;
                        assert((cached.size_spec() - size) * ALIGN == cached.size_spec() * ALIGN - size * ALIGN)
                            by (nonlinear_arith);
                    }
                    match rest {
                        Some(rest) => {
                            proof {
                                vstd::arithmetic::div_mod::lemma_div_multiples_vanish(
                                    (cached.size_spec() - size) as int,
                                    ALIGN as int,
                                );
                                assert(((cached.size_spec() - size) * ALIGN) / (ALIGN as int) == cached.size_spec()
                                    - size) by (nonlinear_arith)
                                    requires
                                        (ALIGN * (cached.size_spec() - size)) / (ALIGN as int) == cached.size_spec()
                                            - size,
                                ;
                                lemma_aligned_step(cached.start_spec() as int, size as int, ALIGN as int);
                            }
                            self.cached = Some(rest);
                        },
                        None => {
                            self.cached = None;
                        },
                    }
                    let sa = SourceAllocation { suitable: held_whole, allocated: first.into_regular() };
                    proof {
                        assert(self.held() =~= split_around(
                            old(self).held(),
                            sa.suitable.start_spec(),
                            sa.suitable.size_spec(),
                            sa.allocated.start_spec(),
                            sa.allocated.size_spec(),
                            ALIGN as int,
                        ));
                    }
                    Ok(Some(sa))
                } else {
                    Ok(None)
                }
            },
            None => Err(RefuelRequest),
        }
    }

    /// Allocates an extent of `REFUEL_PAGES` pages from the `gas_station`, as
    /// `RawExtentAlloc::allocate_exact` does, and holds it, if the cache holds no
    /// extent; a cache that still holds one, or a gas station that cannot serve the
    /// request, leaves both as they are
    fn refuel(&mut self, gas_station: &mut RawExtentAlloc<ALIGN>)
        ensures
            old(self).cached_extent() is Some ==> *final(self) == *old(self),
            final(self).cached_extent() is None || old(self).cached_extent() is Some ==> final(gas_station).free_view()
                == old(gas_station).free_view() && final(gas_station).used_view() == old(gas_station).used_view(),
            old(self).cached_extent() is None ==> match final(self).cached_extent() {
                Some(c) => {
                    &&& c.size_spec() == REFUEL_PAGES
                    &&& exists|l: Lay| #[trigger] l.size_spec() == REFUEL_PAGES && best_fit(
                        old(gas_station).free_view(),
                        c.start_spec(),
                        REFUEL_PAGES,
                        l.align_spec(),
                    )
                    &&& final(gas_station).used_view() == old(gas_station).used_view().insert(c.start_spec(), REFUEL_PAGES)
                    &&& final(gas_station).free_view() == taken(
                        old(gas_station).free_view(),
                        c.start_spec(),
                        REFUEL_PAGES,
                        ALIGN as int,
                    )
                },
                None => REFUEL_PAGES > Lay::max_page_count() || exists|l: Lay| #[trigger] l.size_spec() == REFUEL_PAGES
                    && forall|a: u64| !#[trigger] suits(old(gas_station).free_view(), a, REFUEL_PAGES, l.align_spec()),
            },
    {
        if self.cached.is_some() {
            return;
        }
        let layout = match Lay::from_pages(REFUEL_PAGES) {
            Ok(layout) => layout,
            Err(_) => {
                return;
            },
        };
        let ghost free0 = gas_station.free_view();
        let ghost align = Lay::align_for(REFUEL_PAGES);
        match gas_station.allocate_exact(&layout) {
            Some(ext) => {
                proof {
                    gas_station.lemma_wf();
                    assert(gas_station.used_view().contains_key(ext.start_spec()));
                    assert(layout.size_spec() == REFUEL_PAGES);
                    assert(best_fit(free0, ext.start_spec(), REFUEL_PAGES, align));
                    let a = choose|a: u64| #[trigger] best_fit(free0, a, REFUEL_PAGES, align);
                    lemma_best_fit_unique(free0, a, ext.start_spec(), REFUEL_PAGES, align);
                }
                self.cached = Some(MutableExtent::from_regular(ext));
            },
            None => {
                proof {
                    assert(layout.size_spec() == REFUEL_PAGES);
                    if exists|a: u64| #[trigger] best_fit(free0, a, REFUEL_PAGES, align) {
                        let a = choose|a: u64| #[trigger] best_fit(free0, a, REFUEL_PAGES, align);
                        assert(suits(free0, a, REFUEL_PAGES, align));
                    }
                }
            },
        }
    }
}

} // verus!
