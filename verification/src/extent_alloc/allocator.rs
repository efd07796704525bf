//! An extent allocator that splits a request into several extents when it cannot serve it at once
use vstd::prelude::*;
use core::marker::PhantomData;
use crate::misc::{is_power_of_two, lemma_lowest_one_positive};
use super::ExtentAlloc;
use super::extent::{Extent, InternalExtent, MutableExtent, RawExtent, ScopedExtent, TakenExtent};
use super::layout::{ExtentLayout, LayoutDescriptor};
use super::raw_alloc::{
    AlreadyInitialized, RawExtentAlloc, best_fit, covers, extents_apart, lemma_freed_covers, lemma_taken_covers,
    marked_extents, suits, taken, layout_consistent, best_fit_of, lemma_best_fit_unique, separate, map_pages, lemma_map_pages_remove, lemma_map_pages_nonneg, lemma_taken_pages,
    valid_extent,
};
use super::batch::{Batch, extent_map, total_pages};

verus! {

/// The total page count of the layouts
pub open spec fn layout_pages<const ALIGN: usize, Lay: LayoutDescriptor<ALIGN>>(lays: Seq<Lay>) -> int
    decreases lays.len(),
{
    if lays.len() == 0 {
        0
    } else {
        layout_pages::<ALIGN, Lay>(lays.drop_last()) + lays.last().size_spec()
    }
}

/// Layouts that are not empty hold at least as many pages as there are layouts
proof fn lemma_layout_pages_bound<const ALIGN: usize, Lay: LayoutDescriptor<ALIGN>>(lays: Seq<Lay>)
    requires
        forall|i: int| 0 <= i < lays.len() ==> #[trigger] lays[i].size_spec() > 0,
    ensures
        layout_pages::<ALIGN, Lay>(lays) >= lays.len(),
    decreases lays.len(),
{
    if lays.len() > 0 {
        let prev = lays.drop_last();
        assert forall|i: int| 0 <= i < prev.len() implies #[trigger] prev[i].size_spec() > 0 by {
            assert(prev[i] == lays[i]);
        }
        lemma_layout_pages_bound::<ALIGN, Lay>(prev);
        assert(lays.last() == lays[lays.len() - 1]);
    }
}

/// Extents with pairwise different starting addresses
pub open spec fn starts_distinct<const ALIGN: usize, E: Extent<ALIGN>>(exts: Seq<E>) -> bool {
    forall|i: int, j: int| 0 <= i < j < exts.len() ==> #[trigger] exts[i].start_spec() != #[trigger] exts[j].start_spec()
}

/// The map of extents with pairwise different starting addresses holds each of them and nothing else
pub proof fn lemma_extent_map<const ALIGN: usize, E: Extent<ALIGN>>(exts: Seq<E>)
    requires
        starts_distinct::<ALIGN, E>(exts),
    ensures
        forall|i: int| 0 <= i < exts.len() ==> #[trigger] extent_map::<ALIGN, E>(exts).contains_key(exts[i].start_spec())
            && extent_map::<ALIGN, E>(exts)[exts[i].start_spec()] == exts[i].size_spec(),
        forall|a: u64| #[trigger] extent_map::<ALIGN, E>(exts).contains_key(a) ==> exists|i: int|
            0 <= i < exts.len() && exts[i].start_spec() == a,
    decreases exts.len(),
{
    if exts.len() > 0 {
        let prev = exts.drop_last();
        assert(starts_distinct::<ALIGN, E>(prev)) by {
            assert forall|i: int, j: int| 0 <= i < j < prev.len() implies #[trigger] prev[i].start_spec()
                != #[trigger] prev[j].start_spec() by {
                assert(prev[i] == exts[i] && prev[j] == exts[j]);
            }
        }
        lemma_extent_map::<ALIGN, E>(prev);
        let n = exts.len() - 1;
        assert(exts.last() == exts[n]);
        assert forall|i: int| 0 <= i < exts.len() implies #[trigger] extent_map::<ALIGN, E>(exts).contains_key(
            exts[i].start_spec(),
        ) && extent_map::<ALIGN, E>(exts)[exts[i].start_spec()] == exts[i].size_spec() by {
            if i < n {
                assert(prev[i] == exts[i]);
                assert(extent_map::<ALIGN, E>(prev).contains_key(prev[i].start_spec()));
            }
        }
        assert forall|a: u64| #[trigger] extent_map::<ALIGN, E>(exts).contains_key(a) implies exists|i: int|
            0 <= i < exts.len() && exts[i].start_spec() == a by {
            if a != exts[n].start_spec() {
                assert(extent_map::<ALIGN, E>(prev).contains_key(a));
                let i = choose|i: int| 0 <= i < prev.len() && prev[i].start_spec() == a;
                assert(prev[i] == exts[i]);
            }
        }
    }
}

/// The address `x` lies in one of the extents of `exts`
pub open spec fn in_batch<const ALIGN: usize, E: Extent<ALIGN>>(exts: Seq<E>, x: int) -> bool {
    exists|i: int| 0 <= i < exts.len() && #[trigger] exts[i].start_spec() <= x && x < exts[i].start_spec()
        + exts[i].size_spec() * ALIGN
}

/// An address lies in the extents of a sequence with one more extent if it lies in
/// the extents before or in the new one
proof fn lemma_in_batch_push<const ALIGN: usize, E: Extent<ALIGN>>(exts: Seq<E>, e: E, x: int)
    ensures
        in_batch::<ALIGN, E>(exts.push(e), x) <==> in_batch::<ALIGN, E>(exts, x) || (e.start_spec() <= x && x
            < e.start_spec() + e.size_spec() * ALIGN),
{
    let pushed = exts.push(e);
    if in_batch::<ALIGN, E>(pushed, x) {
        let i = choose|i: int| 0 <= i < pushed.len() && #[trigger] pushed[i].start_spec() <= x && x
            < pushed[i].start_spec() + pushed[i].size_spec() * ALIGN;
        if i < exts.len() {
            assert(pushed[i] == exts[i]);
        }
    }
    if in_batch::<ALIGN, E>(exts, x) {
        let i = choose|i: int| 0 <= i < exts.len() && #[trigger] exts[i].start_spec() <= x && x
            < exts[i].start_spec() + exts[i].size_spec() * ALIGN;
        assert(pushed[i] == exts[i]);
    }
    if e.start_spec() <= x && x < e.start_spec() + e.size_spec() * ALIGN {
        assert(pushed[exts.len() as int] == e);
    }
}

/// An address lies in the extents of a sequence if it lies in the first one or in
/// those behind it
proof fn lemma_in_batch_first<const ALIGN: usize, E: Extent<ALIGN>>(exts: Seq<E>, x: int)
    requires
        exts.len() > 0,
    ensures
        in_batch::<ALIGN, E>(exts, x) <==> in_batch::<ALIGN, E>(exts.subrange(1, exts.len() as int), x) || (
        exts[0].start_spec() <= x && x < exts[0].start_spec() + exts[0].size_spec() * ALIGN),
{
    let rest = exts.subrange(1, exts.len() as int);
    if in_batch::<ALIGN, E>(exts, x) {
        let i = choose|i: int| 0 <= i < exts.len() && #[trigger] exts[i].start_spec() <= x && x
            < exts[i].start_spec() + exts[i].size_spec() * ALIGN;
        if i > 0 {
            assert(rest[i - 1] == exts[i]);
        }
    }
    if in_batch::<ALIGN, E>(rest, x) {
        let i = choose|i: int| 0 <= i < rest.len() && #[trigger] rest[i].start_spec() <= x && x
            < rest[i].start_spec() + rest[i].size_spec() * ALIGN;
        assert(rest[i] == exts[i + 1]);
    }
}

/// The weight of a layout in the splitting: a layout of `n` pages can be split at
/// most `n - 1` times, and each of its pieces allocated once
pub open spec fn layout_weight<const ALIGN: usize, Lay: LayoutDescriptor<ALIGN>>(l: Lay) -> int {
    if l.size_spec() == 0 {
        0
    } else {
        2 * l.size_spec() - 1
    }
}

/// The total weight of the layouts
pub open spec fn layouts_weight<const ALIGN: usize, Lay: LayoutDescriptor<ALIGN>>(lays: Seq<Lay>) -> int
    decreases lays.len(),
{
    if lays.len() == 0 {
        0
    } else {
        layouts_weight::<ALIGN, Lay>(lays.drop_last()) + layout_weight::<ALIGN, Lay>(lays.last())
    }
}

/// A weight is never negative
pub proof fn lemma_layouts_weight_nonneg<const ALIGN: usize, Lay: LayoutDescriptor<ALIGN>>(lays: Seq<Lay>)
    ensures
        layouts_weight::<ALIGN, Lay>(lays) >= 0,
    decreases lays.len(),
{
    if lays.len() > 0 {
        lemma_layouts_weight_nonneg::<ALIGN, Lay>(lays.drop_last());
    }
}

/// A layout pushed onto the stack adds its weight
pub proof fn lemma_layouts_weight_push<const ALIGN: usize, Lay: LayoutDescriptor<ALIGN>>(lays: Seq<Lay>, l: Lay)
    ensures
        layouts_weight::<ALIGN, Lay>(lays.push(l)) == layouts_weight::<ALIGN, Lay>(lays) + layout_weight::<ALIGN, Lay>(l),
{
    assert(lays.push(l).drop_last() =~= lays);
}

/// The extents, as starting address and page count in the order of their allocation,
/// that allocating the layouts of the stack `lays` from the free extents `free` gives:
/// the layout on top is taken from its best fit, or, if none suits, split into a piece
/// and a rest that take its place on the stack (the piece on top). `None` if a layout
/// neither suits any free extent nor splits
pub open spec fn split_allocation<const ALIGN: usize, Lay: LayoutDescriptor<ALIGN>>(
    free: Map<u64, u64>,
    lays: Seq<Lay>,
) -> Option<Seq<(u64, u64)>>
    decreases layouts_weight::<ALIGN, Lay>(lays), lays.len(),
{
    if lays.len() == 0 {
        Some(Seq::empty())
    } else {
        let l = lays.last();
        let rest = lays.drop_last();
        if l.size_spec() == 0 {
            None
        } else {
            proof {
                lemma_layouts_weight_nonneg::<ALIGN, Lay>(rest);
            }
            match best_fit_of(free, l.size_spec(), l.align_spec()) {
                Some(a) => match split_allocation::<ALIGN, Lay>(
                    taken(free, a, l.size_spec(), ALIGN as int),
                    rest,
                ) {
                    Some(more) => Some(seq![(a, l.size_spec())] + more),
                    None => None,
                },
                None => match l.split_spec() {
                    Some(parts) => if parts.0.size_spec() > 0 && parts.1.size_spec() > 0 && parts.0.size_spec()
                        + parts.1.size_spec() == l.size_spec() {
                        proof {
                            lemma_layouts_weight_push::<ALIGN, Lay>(rest, parts.1);
                            lemma_layouts_weight_push::<ALIGN, Lay>(rest.push(parts.1), parts.0);
                        }
                        split_allocation::<ALIGN, Lay>(free, rest.push(parts.1).push(parts.0))
                    } else {
                        None
                    },
                    None => None,
                },
            }
        }
    }
}

/// The starting address and page count of each extent
pub open spec fn extent_pairs<const ALIGN: usize, E: Extent<ALIGN>>(exts: Seq<E>) -> Seq<(u64, u64)> {
    exts.map_values(|e: E| (e.start_spec(), e.size_spec()))
}

/// The extents already allocated followed by those an allocation still gives
pub open spec fn followed_by(done: Seq<(u64, u64)>, more: Option<Seq<(u64, u64)>>) -> Option<Seq<(u64, u64)>> {
    match more {
        Some(m) => Some(done + m),
        None => None,
    }
}

/// Nothing allocated yet: the allocation gives what remains to be allocated
proof fn lemma_followed_by_nothing(more: Option<Seq<(u64, u64)>>)
    ensures
        followed_by(Seq::empty(), more) == more,
{
    if let Some(m) = more {
        assert(Seq::<(u64, u64)>::empty() + m =~= m);
    }
}

/// One more extent allocated
proof fn lemma_followed_by_push(done: Seq<(u64, u64)>, x: (u64, u64), more: Option<Seq<(u64, u64)>>)
    ensures
        followed_by(done, followed_by(seq![x], more)) == followed_by(done.push(x), more),
{
    if let Some(m) = more {
        assert(done + (seq![x] + m) =~= done.push(x) + m);
    }
}

/// A layout that its best fit serves is taken from it
proof fn lemma_split_allocation_takes<const ALIGN: usize, Lay: LayoutDescriptor<ALIGN>>(
    free: Map<u64, u64>,
    lays: Seq<Lay>,
    a: u64,
)
    requires
        lays.len() > 0,
        lays.last().size_spec() > 0,
        best_fit(free, a, lays.last().size_spec(), lays.last().align_spec()),
    ensures
        split_allocation::<ALIGN, Lay>(free, lays) == followed_by(
            seq![(a, lays.last().size_spec())],
            split_allocation::<ALIGN, Lay>(
                taken(free, a, lays.last().size_spec(), ALIGN as int),
                lays.drop_last(),
            ),
        ),
{
    let l = lays.last();
    let c = choose|c: u64| #[trigger] best_fit(free, c, l.size_spec(), l.align_spec());
    lemma_best_fit_unique(free, c, a, l.size_spec(), l.align_spec());
}

/// A layout that no free extent suits is replaced by its two parts, the piece on top
proof fn lemma_split_allocation_splits<const ALIGN: usize, Lay: LayoutDescriptor<ALIGN>>(
    free: Map<u64, u64>,
    lays: Seq<Lay>,
    piece: Lay,
    rest: Lay,
)
    requires
        lays.len() > 0,
        lays.last().size_spec() > 0,
        forall|a: u64| !#[trigger] suits(free, a, lays.last().size_spec(), lays.last().align_spec()),
        lays.last().split_spec() == Some((piece, rest)),
        piece.size_spec() > 0,
        rest.size_spec() > 0,
        piece.size_spec() + rest.size_spec() == lays.last().size_spec(),
    ensures
        split_allocation::<ALIGN, Lay>(free, lays) == split_allocation::<ALIGN, Lay>(
            free,
            lays.drop_last().push(rest).push(piece),
        ),
{
    let l = lays.last();
    if exists|c: u64| #[trigger] best_fit(free, c, l.size_spec(), l.align_spec()) {
        let c = choose|c: u64| #[trigger] best_fit(free, c, l.size_spec(), l.align_spec());
        assert(suits(free, c, l.size_spec(), l.align_spec()));
    }
}

/// A layout that no free extent suits and that does not split fails the allocation
proof fn lemma_split_allocation_stuck<const ALIGN: usize, Lay: LayoutDescriptor<ALIGN>>(
    free: Map<u64, u64>,
    lays: Seq<Lay>,
)
    requires
        lays.len() > 0,
        lays.last().size_spec() > 0,
        forall|a: u64| !#[trigger] suits(free, a, lays.last().size_spec(), lays.last().align_spec()),
        lays.last().split_spec() is None,
    ensures
        split_allocation::<ALIGN, Lay>(free, lays) is None,
{
    let l = lays.last();
    if exists|c: u64| #[trigger] best_fit(free, c, l.size_spec(), l.align_spec()) {
        let c = choose|c: u64| #[trigger] best_fit(free, c, l.size_spec(), l.align_spec());
        assert(suits(free, c, l.size_spec(), l.align_spec()));
    }
}

/// With no free extent of a single page at any alignment there is no free page at all
proof fn lemma_no_page_free(free: Map<u64, u64>, used: Map<u64, u64>, align: int, pages: u64, page_align: u64)
    requires
        layout_consistent(free, used, align),
        free.dom().finite(),
        pages == 1,
        page_align == 1,
        forall|a: u64| !#[trigger] suits(free, a, pages, page_align),
    ensures
        map_pages(free) == 0,
{
    if free.dom().len() > 0 {
        let k = free.dom().choose();
        assert(free.contains_key(k));
        assert(valid_extent(k, free[k], align));
        lemma_lowest_one_positive(k);
        assert(suits(free, k, pages, page_align));
    }
}

/// The extents of a sequence hold no negative page count
proof fn lemma_total_pages_nonneg<const ALIGN: usize, E: Extent<ALIGN>>(exts: Seq<E>)
    ensures
        total_pages::<ALIGN, E>(exts) >= 0,
    decreases exts.len(),
{
    if exts.len() > 0 {
        lemma_total_pages_nonneg::<ALIGN, E>(exts.drop_last());
    }
}

/// An implementation of an extent allocator that operates with
/// a predetermined page size, various sizes of allocated blocks,
/// and any number of memory blocks.
///
/// `ExtentAllocator` does not use any kind of cache. If you want
/// to use any kind of allocation cache, use `CachedExtentAllocator`
pub struct ExtentAllocator<
    const ALIGN: usize,
    Ext: Extent<ALIGN> + RawExtent<ALIGN> = InternalExtent<ALIGN>,
    Lay: LayoutDescriptor<ALIGN> = ExtentLayout<ALIGN>,
> {
    alloc: RawExtentAlloc<ALIGN>,
    _ext: PhantomData<Ext>,
    _lay: PhantomData<Lay>,
}

impl<const ALIGN: usize, Ext: Extent<ALIGN> + RawExtent<ALIGN>, Lay: LayoutDescriptor<ALIGN>> ExtentAlloc<ALIGN> for ExtentAllocator<ALIGN, Ext, Lay> {

}

impl<const ALIGN: usize, Ext: Extent<ALIGN> + RawExtent<ALIGN>, Lay: LayoutDescriptor<ALIGN>> ExtentAllocator<ALIGN, Ext, Lay> {
    /// The inner allocator
    pub closed spec fn raw(&self) -> RawExtentAlloc<ALIGN> {
        self.alloc
    }

    /// Well-formedness of the inner allocator
    pub open spec fn wf(&self) -> bool {
        self.raw().wf()
    }

    /// The free extents: starting address to page count
    pub open spec fn free_view(&self) -> Map<u64, u64> {
        self.raw().free_view()
    }

    /// The used extents: starting address to page count
    pub open spec fn used_view(&self) -> Map<u64, u64> {
        self.raw().used_view()
    }

    /// Constructs an uninitialized `ExtentAllocator`
    pub fn uninit() -> (r: Self)
        requires
            is_power_of_two(ALIGN as int),
        ensures
            r.wf(),
            r.free_view() == Map::<u64, u64>::empty(),
            r.used_view() == Map::<u64, u64>::empty(),
    {
        ExtentAllocator { alloc: RawExtentAlloc::uninit(), _ext: PhantomData, _lay: PhantomData }
    }

    /// Returns a reference to the inner allocator
    pub fn inner(&self) -> (r: &RawExtentAlloc<ALIGN>)
        ensures
            *r == self.raw(),
    {
        &self.alloc
    }

    /// Returns a mutable reference to the inner allocator
    pub fn inner_mut(&mut self) -> (r: &mut RawExtentAlloc<ALIGN>)
        ensures
            *r == old(self).raw(),
            final(self).raw() == *final(r),
    {
        &mut self.alloc
    }

    /// Initializes the allocator with the given extents, as `RawExtentAlloc::initialize` does
    pub fn initialize(&mut self, exts: Vec<TakenExtent<ALIGN, InternalExtent<ALIGN>>>) -> (r: Result<
        (),
        AlreadyInitialized,
    >)
        requires
            old(self).wf(),
            extents_apart(exts@),
        ensures
            final(self).wf(),
            r is Err <==> !(old(self).raw().free_map().is_pristine() && old(self).used_view().is_empty()),
            r is Err ==> final(self).free_view() == old(self).free_view()
                && final(self).used_view() == old(self).used_view(),
            r is Ok ==> final(self).free_view() == marked_extents(exts@, true)
                && final(self).used_view() == marked_extents(exts@, false),
    {
        self.alloc.initialize(exts)
    }

    /// Allocates an extent as described by the given `layout`, as `RawExtentAlloc::allocate_exact` does
    pub fn alloc_contignous<'me>(&'me mut self, layout: Lay) -> (r: Option<ScopedExtent<'me, ALIGN, Ext, Self>>)
        requires
            old(self).wf(),
        ensures
            final(self).wf(),
            r is None <==> forall|a: u64| !#[trigger] suits(
                old(self).free_view(),
                a,
                layout.size_spec(),
                layout.align_spec(),
            ),
            r is None ==> final(self).free_view() == old(self).free_view()
                && final(self).used_view() == old(self).used_view(),
            r matches Some(e) ==> {
                &&& best_fit(old(self).free_view(), e.start_spec(), layout.size_spec(), layout.align_spec())
                &&& e.size_spec() == layout.size_spec()
                &&& final(self).used_view() == old(self).used_view().insert(e.start_spec(), e.size_spec())
            },
    {
        let ghost free0 = self.alloc.free_view();
        let res = self.alloc.allocate_exact(&layout);
        proof {
            assert(free0 == old(self).free_view());
            assert(res is None ==> forall|a: u64| !#[trigger] suits(free0, a, layout.size_spec(), layout.align_spec()));
        }
        match res {
            Some(ext) => Some(ScopedExtent::from_extent(Ext::new(ext.address(), ext.size()))),
            None => {
                proof {
                    assert forall|a: u64| !#[trigger] suits(
                        old(self).free_view(),
                        a,
                        layout.size_spec(),
                        layout.align_spec(),
                    ) by {
                        assert(!suits(free0, a, layout.size_spec(), layout.align_spec()));
                    }
                }
                None
            },
        }
    }

    /// Allocates any amount of extents to fulfill the given `layout`
    ///
    /// This function tries to allocate the extent as described by the `layout`.
    /// If the allocation fails, it then proceeds to split the layout and
    /// allocate the newly created layouts. This process repeats until the
    /// layout is fulfilled or a layout can neither be allocated nor split; then
    /// every extent allocated on the way is deallocated again
    pub fn allocate<'me>(&'me mut self, layout: Lay) -> (r: Option<Batch<'me, ALIGN, Ext, Self>>)
        requires
            old(self).wf(),
        ensures
            final(self).wf(),
            (exists|a: u64| suits(old(self).free_view(), a, layout.size_spec(), layout.align_spec()))
                ==> (r matches Some(b) && b.extents().len() == 1),
            r is None ==> forall|a: u64| !#[trigger] suits(
                old(self).free_view(),
                a,
                layout.size_spec(),
                layout.align_spec(),
            ),
            r is None ==> final(self).used_view() == old(self).used_view(),
            r is None <==> split_allocation::<ALIGN, Lay>(old(self).free_view(), seq![layout]) is None,
            r matches Some(b) ==> split_allocation::<ALIGN, Lay>(old(self).free_view(), seq![layout]) == Some(
                extent_pairs::<ALIGN, _>(b.extents()),
            ),
            r is Some ==> map_pages(old(self).free_view()) >= layout.size_spec(),
            Lay::page_granular() ==> (r is Some <==> map_pages(old(self).free_view()) >= layout.size_spec()),
            r is None ==> forall|x: int|
                #![trigger covers(final(self).free_view(), ALIGN as int, x)]
                #![trigger covers(old(self).free_view(), ALIGN as int, x)]
                covers(final(self).free_view(), ALIGN as int, x) == covers(old(self).free_view(), ALIGN as int, x),
            r matches Some(b) ==> {
                &&& total_pages::<ALIGN, _>(b.extents()) == layout.size_spec()
                &&& starts_distinct::<ALIGN, _>(b.extents())
                &&& forall|i: int, j: int| 0 <= i < j < b.extents().len() ==> separate(
                    #[trigger] b.extents()[i].start_spec() as int,
                    b.extents()[i].size_spec() as int,
                    #[trigger] b.extents()[j].start_spec() as int,
                    b.extents()[j].size_spec() as int,
                    ALIGN as int,
                )
                &&& forall|x: int| #[trigger] in_batch::<ALIGN, _>(b.extents(), x) ==> covers(old(self).free_view(), ALIGN as int, x)
                &&& forall|x: int|
                    #![trigger covers(final(self).free_view(), ALIGN as int, x)]
                    #![trigger covers(old(self).free_view(), ALIGN as int, x)]
                    covers(final(self).free_view(), ALIGN as int, x) == (covers(old(self).free_view(), ALIGN as int, x)
                        && !in_batch::<ALIGN, _>(b.extents(), x))
                &&& extent_map::<ALIGN, _>(b.extents()).dom().disjoint(old(self).used_view().dom())
                &&& final(self).used_view() == old(self).used_view().union_prefer_right(
                    extent_map::<ALIGN, _>(b.extents()),
                )
                &&& map_pages(final(self).free_view()) == map_pages(old(self).free_view()) - layout.size_spec()
            },
    {
        let ghost used0 = self.alloc.used_view();
        let ghost free0 = self.alloc.free_view();
        let ghost size0 = layout.size_spec();
        let ghost align0 = layout.align_spec();
        let ghost lay0 = layout;
        let mut whole = layout;
        let _ = whole.size();
        proof {
            self.alloc.lemma_wf();
        }
        let res = self.alloc.allocate_exact(&whole);
        proof {
            assert(free0 == old(self).free_view());
            assert(res is None ==> forall|a: u64| !#[trigger] suits(free0, a, layout.size_spec(), layout.align_spec()));
        }
        match res {
            Some(ext) => {
                let scoped = ScopedExtent::from_extent(Ext::new(ext.address(), ext.size()));
                let batch = Batch::from_single(scoped);
                proof {
                    let empty = Seq::<ScopedExtent<'me, ALIGN, Ext, Self>>::empty();
                    assert(batch.extents().drop_last() =~= empty);
                    assert(batch.extents().last() == scoped);
                    assert(extent_map::<ALIGN, _>(empty) =~= Map::<u64, u64>::empty());
                    assert(total_pages::<ALIGN, _>(empty) == 0);
                    assert(extent_map::<ALIGN, _>(batch.extents()) =~= Map::<u64, u64>::empty().insert(
                        scoped.start_spec(),
                        scoped.size_spec(),
                    ));
                    assert(self.alloc.used_view() =~= used0.union_prefer_right(extent_map::<ALIGN, _>(batch.extents())));
                    let a = ext.start_spec();
                    let p = ext.size_spec();
                    assert(free0.contains_key(a));
                    lemma_map_pages_remove(free0, a);
                    lemma_taken_pages(free0, used0, a, p, ALIGN as int);
                    let start = seq![lay0];
                    assert(start.last() == lay0);
                    assert(start.drop_last() =~= Seq::<Lay>::empty());
                    lemma_split_allocation_takes::<ALIGN, Lay>(free0, start, a);
                    assert(seq![(a, p)] + Seq::<(u64, u64)>::empty() =~= seq![(a, p)]);
                    assert(extent_pairs::<ALIGN, _>(batch.extents()) =~= seq![(a, p)]);
                    assert forall|x: int|
                        #![trigger covers(self.alloc.free_view(), ALIGN as int, x)]
                        #![trigger covers(free0, ALIGN as int, x)]
                        #![trigger in_batch::<ALIGN, _>(batch.extents(), x)]
                        (covers(self.alloc.free_view(), ALIGN as int, x) == (covers(free0, ALIGN as int, x)
                        && !in_batch::<ALIGN, _>(batch.extents(), x))) && (in_batch::<ALIGN, _>(batch.extents(), x) ==> covers(free0, ALIGN as int, x)) by {
                        lemma_taken_covers(free0, used0, a, p, ALIGN as int, x);
                        lemma_in_batch_push::<ALIGN, _>(empty, scoped, x);
                        assert(empty.push(scoped) =~= batch.extents());
                        assert(!in_batch::<ALIGN, _>(empty, x));
                        if a <= x < a + p * ALIGN {
                            assert(free0.contains_key(a) && a <= x < a + free0[a] * ALIGN) by {
                                assert(p * ALIGN <= free0[a] * ALIGN) by (nonlinear_arith)
                                    requires
                                        p <= free0[a],
                                ;
                            }
                        }
                    }
                }
                return Some(batch);
            },
            None => {},
        }
        proof {
            assert forall|a: u64| !#[trigger] suits(
                old(self).free_view(),
                a,
                layout.size_spec(),
                layout.align_spec(),
            ) by {
                assert(!suits(free0, a, layout.size_spec(), layout.align_spec()));
            }
        }
        let mut lays: Vec<Lay> = Vec::new();
        match whole.split() {
            Some(lay) => {
                let _ = whole.size();
                let _ = lay.size();
                let ghost first = whole;
                lays.push(whole);
                lays.push(lay);
                proof {
                    let start = seq![lay0];
                    assert(start.last() == lay0);
                    lemma_split_allocation_splits::<ALIGN, Lay>(free0, start, lay, first);
                    assert(lays@ =~= start.drop_last().push(first).push(lay));
                    lemma_followed_by_nothing(split_allocation::<ALIGN, Lay>(free0, lays@));
                    assert(extent_pairs::<ALIGN, ScopedExtent<'me, ALIGN, Ext, Self>>(Seq::empty()) =~= Seq::empty());
                    assert(lays@.drop_last().drop_last() =~= Seq::<Lay>::empty());
                    assert(lays@.last() == lay);
                    assert(lays@.drop_last().last() == first);
                    assert(layout_pages::<ALIGN, Lay>(Seq::<Lay>::empty()) == 0);
                    assert(layout_pages::<ALIGN, Lay>(lays@.drop_last()) == first.size_spec());
                    assert(layout_pages::<ALIGN, Lay>(lays@) == first.size_spec() + lay.size_spec());
                }
            },
            None => {
                let _ = whole.size();
                proof {
                    let start = seq![lay0];
                    assert(start.last() == lay0);
                    lemma_split_allocation_stuck::<ALIGN, Lay>(free0, start);
                    if Lay::page_granular() {
                        lay0.lemma_page_granular();
                        lemma_no_page_free(free0, used0, ALIGN as int, size0, align0);
                    }
                }
                return None;
            },
        }
        let mut exts: Vec<ScopedExtent<'me, ALIGN, Ext, Self>> = Vec::new();
        proof {
            assert forall|x: int| !#[trigger] in_batch::<ALIGN, _>(exts@, x) by {}
            assert(total_pages::<ALIGN, _>(exts@) == 0);
            assert(self.alloc.used_view() =~= used0.union_prefer_right(extent_map::<ALIGN, _>(exts@)));
        }
        while lays.len() > 0
            invariant
                self.alloc.wf(),
                old(self).free_view() == free0,
                old(self).used_view() == used0,
                size0 == layout.size_spec(),
                align0 == layout.align_spec(),
                forall|a: u64| !#[trigger] suits(free0, a, size0, align0),
                forall|i: int| 0 <= i < lays@.len() ==> #[trigger] lays@[i].size_spec() > 0,
                layout_pages::<ALIGN, Lay>(lays@) + total_pages::<ALIGN, _>(exts@) == size0,
                starts_distinct::<ALIGN, _>(exts@),
                extent_map::<ALIGN, _>(exts@).dom().disjoint(used0.dom()),
                self.alloc.used_view() == used0.union_prefer_right(extent_map::<ALIGN, _>(exts@)),
                forall|x: int| #[trigger] in_batch::<ALIGN, _>(exts@, x) ==> covers(free0, ALIGN as int, x),
                forall|x: int|
                    #![trigger covers(self.alloc.free_view(), ALIGN as int, x)]
                    #![trigger covers(free0, ALIGN as int, x)]
                    covers(self.alloc.free_view(), ALIGN as int, x) == (covers(free0, ALIGN as int, x)
                        && !in_batch::<ALIGN, _>(exts@, x)),
                map_pages(self.alloc.free_view()) + total_pages::<ALIGN, _>(exts@) == map_pages(free0),
                lay0 == layout,
                split_allocation::<ALIGN, Lay>(free0, seq![lay0]) == followed_by(
                    extent_pairs::<ALIGN, _>(exts@),
                    split_allocation::<ALIGN, Lay>(self.alloc.free_view(), lays@),
                ),
            decreases 2 * layout_pages::<ALIGN, Lay>(lays@) - lays@.len(),
        {
            proof {
                lemma_layout_pages_bound::<ALIGN, Lay>(lays@);
            }
            let ghost lays0 = lays@;
            let ghost exts0 = exts@;
            let ghost free_cur = self.alloc.free_view();
            let ghost used_cur = self.alloc.used_view();
            let mut layout = lays.pop().unwrap();
            let ghost popped = layout;
            proof {
                assert(lays0.last() == lays0[lays0.len() - 1]);
                assert(layout_pages::<ALIGN, Lay>(lays0) == layout_pages::<ALIGN, Lay>(lays@) + layout.size_spec());
                assert(forall|i: int| 0 <= i < lays@.len() ==> lays@[i] == lays0[i]);
                lemma_layout_pages_bound::<ALIGN, Lay>(lays@);
                self.alloc.lemma_wf();
                lemma_extent_map::<ALIGN, _>(exts0);
            }
            match self.alloc.allocate_exact(&layout) {
                Some(ext) => {
                    let scoped = ScopedExtent::from_extent(Ext::new(ext.address(), ext.size()));
                    exts.push(scoped);
                    proof {
                        let a = scoped.start_spec();
                        assert(exts@.drop_last() =~= exts0);
                        assert(exts@.last() == scoped);
                        assert(total_pages::<ALIGN, _>(exts@) == total_pages::<ALIGN, _>(exts0) + scoped.size_spec());
                        assert(!used0.contains_key(a));
                        assert forall|i: int, j: int| 0 <= i < j < exts@.len() implies #[trigger] exts@[i].start_spec()
                            != #[trigger] exts@[j].start_spec() by {
                            if j == exts@.len() - 1 {
                                assert(exts@[i] == exts0[i]);
                                assert(extent_map::<ALIGN, _>(exts0).contains_key(exts0[i].start_spec()));
                            } else {
                                assert(exts@[i] == exts0[i] && exts@[j] == exts0[j]);
                            }
                        }
                        assert(self.alloc.used_view() =~= used0.union_prefer_right(extent_map::<ALIGN, _>(exts@)));
                        let p = scoped.size_spec();
                        assert(free_cur.contains_key(a));
                        lemma_taken_pages(free_cur, used_cur, a, p, ALIGN as int);
                        assert(lays0[lays0.len() - 1].size_spec() > 0);
                        lemma_split_allocation_takes::<ALIGN, Lay>(free_cur, lays0, a);
                        assert(lays@ =~= lays0.drop_last());
                        lemma_followed_by_push(
                            extent_pairs::<ALIGN, _>(exts0),
                            (a, p),
                            split_allocation::<ALIGN, Lay>(self.alloc.free_view(), lays@),
                        );
                        assert(extent_pairs::<ALIGN, _>(exts@) =~= extent_pairs::<ALIGN, _>(exts0).push((a, p)));
                        assert(exts0.push(scoped) =~= exts@);
                        assert forall|x: int|
                            #![trigger covers(self.alloc.free_view(), ALIGN as int, x)]
                            #![trigger covers(free0, ALIGN as int, x)]
                            #![trigger in_batch::<ALIGN, _>(exts@, x)]
                            (covers(self.alloc.free_view(), ALIGN as int, x) == (covers(free0, ALIGN as int, x)
                            && !in_batch::<ALIGN, _>(exts@, x))) && (in_batch::<ALIGN, _>(exts@, x) ==> covers(free0, ALIGN as int, x)) by {
                            lemma_taken_covers(free_cur, used_cur, a, p, ALIGN as int, x);
                            lemma_in_batch_push::<ALIGN, _>(exts0, scoped, x);
                            if a <= x < a + p * ALIGN {
                                assert(free_cur.contains_key(a) && a <= x < a + free_cur[a] * ALIGN) by {
                                    assert(p * ALIGN <= free_cur[a] * ALIGN) by (nonlinear_arith)
                                        requires
                                            p <= free_cur[a],
                                    ;
                                }
                            }
                        }
                    }
                },
                None => {
                    match layout.split() {
                        Some(lay) => {
                            let _ = layout.size();
                            let _ = lay.size();
                            let ghost shrunk = layout;
                            lays.push(layout);
                            lays.push(lay);
                            proof {
                                assert(lays0[lays0.len() - 1].size_spec() > 0);
                                lemma_split_allocation_splits::<ALIGN, Lay>(free_cur, lays0, lay, shrunk);
                                assert(lays@ =~= lays0.drop_last().push(shrunk).push(lay));
                                assert(lays@.drop_last().drop_last() =~= lays0.drop_last());
                                assert(lays@.last() == lay);
                                assert(lays@.drop_last().last() == shrunk);
                                assert(layout_pages::<ALIGN, Lay>(lays@.drop_last()) == layout_pages::<ALIGN, Lay>(
                                    lays0.drop_last(),
                                ) + shrunk.size_spec());
                                assert(layout_pages::<ALIGN, Lay>(lays@) == layout_pages::<ALIGN, Lay>(
                                    lays0.drop_last(),
                                ) + shrunk.size_spec() + lay.size_spec());
                                assert forall|i: int| 0 <= i < lays@.len() implies #[trigger] lays@[i].size_spec() > 0 by {
                                    if i < lays0.len() - 1 {
                                        assert(lays@[i] == lays0[i]);
                                    }
                                }
                            }
                        },
                        None => {
                            let _ = layout.size();
                            proof {
                                assert(lays0[lays0.len() - 1].size_spec() > 0);
                                lemma_split_allocation_stuck::<ALIGN, Lay>(free_cur, lays0);
                                if Lay::page_granular() {
                                    popped.lemma_page_granular();
                                    lemma_no_page_free(free_cur, used_cur, ALIGN as int, popped.size_spec(), popped.align_spec());
                                    lemma_total_pages_nonneg::<ALIGN, _>(exts@);
                                }
                            }
                            self.release(&exts, Ghost(used0), Ghost(free0));
                            return None;
                        },
                    }
                },
            }
        }
        proof {
            self.alloc.lemma_wf();
            lemma_map_pages_nonneg(self.alloc.free_view());
            assert(lays@ =~= Seq::<Lay>::empty());
            assert(extent_pairs::<ALIGN, _>(exts@) + Seq::<(u64, u64)>::empty() =~= extent_pairs::<ALIGN, _>(exts@));
            lemma_extent_map::<ALIGN, _>(exts@);
            assert forall|i: int, j: int| 0 <= i < j < exts@.len() implies separate(
                #[trigger] exts@[i].start_spec() as int,
                exts@[i].size_spec() as int,
                #[trigger] exts@[j].start_spec() as int,
                exts@[j].size_spec() as int,
                ALIGN as int,
            ) by {
                let (x, y) = (exts@[i].start_spec(), exts@[j].start_spec());
                assert(extent_map::<ALIGN, _>(exts@).contains_key(x) && extent_map::<ALIGN, _>(exts@).contains_key(y));
                assert(self.alloc.used_view().contains_key(x) && self.alloc.used_view().contains_key(y));
            }
        }
        Some(Batch::from_vec(exts))
    }

    /// Deallocates every extent of `exts`, in the order of their allocation
    fn release<'me>(
        &mut self,
        exts: &Vec<ScopedExtent<'me, ALIGN, Ext, Self>>,
        used0: Ghost<Map<u64, u64>>,
        free0: Ghost<Map<u64, u64>>,
    )
        requires
            old(self).wf(),
            starts_distinct::<ALIGN, _>(exts@),
            extent_map::<ALIGN, _>(exts@).dom().disjoint(used0@.dom()),
            old(self).used_view() == used0@.union_prefer_right(extent_map::<ALIGN, _>(exts@)),
            forall|x: int| #[trigger] in_batch::<ALIGN, _>(exts@, x) ==> covers(free0@, ALIGN as int, x),
            forall|x: int|
                #![trigger covers(old(self).free_view(), ALIGN as int, x)]
                #![trigger covers(free0@, ALIGN as int, x)]
                covers(old(self).free_view(), ALIGN as int, x) == (covers(free0@, ALIGN as int, x)
                    && !in_batch::<ALIGN, _>(exts@, x)),
        ensures
            final(self).wf(),
            final(self).used_view() == used0@,
            forall|x: int|
                #![trigger covers(final(self).free_view(), ALIGN as int, x)]
                #![trigger covers(free0@, ALIGN as int, x)]
                covers(final(self).free_view(), ALIGN as int, x) == covers(free0@, ALIGN as int, x),
    {
        let mut k: usize = 0;
        proof {
            assert(exts@.subrange(0, exts@.len() as int) =~= exts@);
        }
        while k < exts.len()
            invariant
                self.alloc.wf(),
                k <= exts@.len(),
                starts_distinct::<ALIGN, _>(exts@),
                extent_map::<ALIGN, _>(exts@).dom().disjoint(used0@.dom()),
                self.alloc.used_view() == used0@.union_prefer_right(
                    extent_map::<ALIGN, _>(exts@.subrange(k as int, exts@.len() as int)),
                ),
                forall|x: int| #[trigger] in_batch::<ALIGN, _>(exts@, x) ==> covers(free0@, ALIGN as int, x),
                forall|x: int|
                    #![trigger covers(self.alloc.free_view(), ALIGN as int, x)]
                    #![trigger covers(free0@, ALIGN as int, x)]
                    covers(self.alloc.free_view(), ALIGN as int, x) == (covers(free0@, ALIGN as int, x)
                        && !in_batch::<ALIGN, _>(exts@.subrange(k as int, exts@.len() as int), x)),
            decreases exts@.len() - k,
        {
            let ghost rest = exts@.subrange(k as int, exts@.len() as int);
            let ghost next = exts@.subrange(k + 1, exts@.len() as int);
            let ghost free_cur = self.alloc.free_view();
            let ghost used_cur = self.alloc.used_view();
            let ext = MutableExtent::new(exts[k].address(), exts[k].size());
            proof {
                self.alloc.lemma_wf();
                lemma_extent_map::<ALIGN, _>(exts@);
                assert(starts_distinct::<ALIGN, _>(rest)) by {
                    assert forall|i: int, j: int| 0 <= i < j < rest.len() implies #[trigger] rest[i].start_spec()
                        != #[trigger] rest[j].start_spec() by {
                        assert(rest[i] == exts@[k + i] && rest[j] == exts@[k + j]);
                    }
                }
                assert(starts_distinct::<ALIGN, _>(next)) by {
                    assert forall|i: int, j: int| 0 <= i < j < next.len() implies #[trigger] next[i].start_spec()
                        != #[trigger] next[j].start_spec() by {
                        assert(next[i] == exts@[k + 1 + i] && next[j] == exts@[k + 1 + j]);
                    }
                }
                lemma_extent_map::<ALIGN, _>(rest);
                lemma_extent_map::<ALIGN, _>(next);
                assert(rest[0] == exts@[k as int]);
                let a = exts@[k as int].start_spec();
                assert(!used0@.contains_key(a));
                assert forall|x: u64| #[trigger] extent_map::<ALIGN, _>(next).contains_key(x) implies x != a by {
                    let i = choose|i: int| 0 <= i < next.len() && next[i].start_spec() == x;
                    assert(next[i] == exts@[k + 1 + i]);
                }
                assert forall|x: u64| #[trigger] extent_map::<ALIGN, _>(rest).contains_key(x) implies (x == a
                    || extent_map::<ALIGN, _>(next).contains_key(x)) && (x != a ==> extent_map::<ALIGN, _>(rest)[x]
                    == extent_map::<ALIGN, _>(next)[x]) by {
                    let i = choose|i: int| 0 <= i < rest.len() && rest[i].start_spec() == x;
                    if i > 0 {
                        assert(rest[i] == next[i - 1]);
                    }
                }
                assert forall|x: u64| #[trigger] extent_map::<ALIGN, _>(next).contains_key(x) implies
                    extent_map::<ALIGN, _>(rest).contains_key(x) by {
                    let i = choose|i: int| 0 <= i < next.len() && next[i].start_spec() == x;
                    assert(next[i] == rest[i + 1]);
                }
            }
            let freed = self.alloc.deallocate(ext);
            proof {
                assert(freed is Ok);
                assert(self.alloc.used_view() =~= used0@.union_prefer_right(extent_map::<ALIGN, _>(next)));
                let a = exts@[k as int].start_spec();
                let s = exts@[k as int].size_spec();
                assert(used_cur.contains_key(a) && used_cur[a] == s);
                assert(rest.subrange(1, rest.len() as int) =~= next);
                assert forall|x: int|
                    #![trigger covers(self.alloc.free_view(), ALIGN as int, x)]
                    #![trigger covers(free0@, ALIGN as int, x)]
                    covers(self.alloc.free_view(), ALIGN as int, x) == (covers(free0@, ALIGN as int, x)
                        && !in_batch::<ALIGN, _>(next, x)) by {
                    lemma_freed_covers(free_cur, used_cur, a, ALIGN as int, x);
                    lemma_in_batch_first::<ALIGN, _>(rest, x);
                    if a <= x < a + s * ALIGN {
                        assert(in_batch::<ALIGN, _>(exts@, x)) by {
                            assert(exts@[k as int].start_spec() <= x);
                        }
                        if in_batch::<ALIGN, _>(next, x) {
                            let i = choose|i: int| 0 <= i < next.len() && #[trigger] next[i].start_spec() <= x && x
                                < next[i].start_spec() + next[i].size_spec() * ALIGN;
                            let b = next[i].start_spec();
                            assert(next[i] == rest[i + 1]);
                            assert(rest[i + 1].start_spec() != rest[0].start_spec());
                            assert(extent_map::<ALIGN, _>(rest).contains_key(b));
                            assert(used_cur.contains_key(b) && used_cur[b] == next[i].size_spec());
                            assert(separate(a as int, s as int, b as int, used_cur[b] as int, ALIGN as int));
                            assert(false);
                        }
                    }
                }
            }
            k = k + 1;
        }
        proof {
            let empty = Seq::<ScopedExtent<'me, ALIGN, Ext, Self>>::empty();
            assert(exts@.subrange(k as int, exts@.len() as int) =~= empty);
            assert(self.alloc.used_view() =~= used0@);
            assert forall|x: int| !#[trigger] in_batch::<ALIGN, _>(empty, x) by {}
        }
    }
}

} // verus!
