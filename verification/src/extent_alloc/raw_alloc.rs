//! The raw extent allocator that keeps track of free and used extents
use vstd::prelude::*;
use std::collections::BTreeMap;
use crate::misc::{is_power_of_two, lemma_power_of_two_facts, lowest_one};
use crate::address::clamp;
use super::extent::{Extent, InternalExtent, MutableExtent, RawExtent, RemainingExtents, TakenExtent, extent_end, lemma_pages_between_bound, pages_between};
use super::alloc_map::AllocMap;
use super::layout::LayoutDescriptor;
use super::cache::SourceAllocation;

verus! {

broadcast use vstd::std_specs::btree::group_btree_axioms;

/// The extent `[a, a + s * align)` is nonempty and ends inside the 64-bit address space
pub open spec fn valid_extent(a: u64, s: u64, align: int) -> bool {
    a != 0 && s != 0 && a + s * align <= u64::MAX
}

/// The extents `[a1, a1 + s1 * align)` and `[a2, a2 + s2 * align)` do not overlap
pub open spec fn separate(a1: int, s1: int, a2: int, s2: int, align: int) -> bool {
    a1 + s1 * align <= a2 || a2 + s2 * align <= a1
}

/// Freeing a used extent right in front of a free one merges the two: the merged
/// extent holds the pages of both, and the free extent behind is gone
pub proof fn lemma_merge_adds_pages(free: Map<u64, u64>, used: Map<u64, u64>, a: u64, align: int)
    requires
        layout_consistent(free, used, align),
        used.contains_key(a),
        free.contains_key((a + used[a] * align) as u64),
    ensures
        ({
            let end = (a + used[a] * align) as u64;
            let merged = freed(free, a, used[a], align);
            &&& merged.contains_key(a)
            &&& merged[a] == used[a] + free[end]
            &&& !merged.contains_key(end)
            &&& merged.remove(a) == free.remove(end)
        }),
{
    let s = used[a];
    let end = (a + s * align) as u64;
    assert(valid_extent(a, s, align));
    assert(extent_end(a as int, s as int, align) == end);
    let n = free[end];
    assert(valid_extent(end, n, align));
    assert(s * align > 0) by (nonlinear_arith)
        requires
            s > 0,
            align > 0,
    ;
    assert(clamp(s + n, 0, u64::MAX as int) == s + n) by (nonlinear_arith)
        requires
            end + n * align <= u64::MAX,
            end == a + s * align,
            align > 0,
            s > 0,
            n > 0,
    ;
    assert(!free.contains_key(a));
    assert(freed(free, a, s, align).remove(a) =~= free.remove(end));
}

/// The total page count of the extents of a finite map
pub open spec fn map_pages(m: Map<u64, u64>) -> int
    decreases m.dom().len(),
{
    if m.dom().finite() && m.dom().len() > 0 {
        let k = m.dom().choose();
        m[k] + map_pages(m.remove(k))
    } else {
        0
    }
}

/// The page count of a finite map is that of one of its extents plus that of the others
pub proof fn lemma_map_pages_remove(m: Map<u64, u64>, k: u64)
    requires
        m.dom().finite(),
        m.contains_key(k),
    ensures
        map_pages(m) == m[k] + map_pages(m.remove(k)),
        map_pages(m.remove(k)) >= 0,
    decreases m.dom().len(),
{
    let c = m.dom().choose();
    lemma_map_pages_nonneg(m.remove(k));
    if c != k {
        lemma_map_pages_remove(m.remove(c), k);
        lemma_map_pages_remove(m.remove(k), c);
        assert(m.remove(c).remove(k) =~= m.remove(k).remove(c));
    }
}

/// A page count is never negative
pub proof fn lemma_map_pages_nonneg(m: Map<u64, u64>)
    ensures
        map_pages(m) >= 0,
    decreases m.dom().len(),
{
    if m.dom().finite() && m.dom().len() > 0 {
        lemma_map_pages_nonneg(m.remove(m.dom().choose()));
    }
}

/// Adding an extent at a new address adds its pages
pub proof fn lemma_map_pages_insert(m: Map<u64, u64>, k: u64, v: u64)
    requires
        m.dom().finite(),
        !m.contains_key(k),
    ensures
        map_pages(m.insert(k, v)) == map_pages(m) + v,
{
    lemma_map_pages_remove(m.insert(k, v), k);
    assert(m.insert(k, v).remove(k) =~= m);
}

/// Taking the first `p` pages of a free extent takes `p` pages off the free extents
pub proof fn lemma_taken_pages(free: Map<u64, u64>, used: Map<u64, u64>, a: u64, p: u64, align: int)
    requires
        layout_consistent(free, used, align),
        free.dom().finite(),
        free.contains_key(a),
        0 < p <= free[a],
    ensures
        map_pages(taken(free, a, p, align)) == map_pages(free) - p,
        taken(free, a, p, align).dom().finite(),
{
    let s = free[a];
    lemma_map_pages_remove(free, a);
    if s > p {
        let r = (a + p * align) as u64;
        assert(valid_extent(a, s, align));
        assert(p * align <= s * align) by (nonlinear_arith)
            requires
                p <= s,
                align > 0,
        ;
        assert(p * align < s * align) by (nonlinear_arith)
            requires
                p < s,
                align > 0,
        ;
        lemma_pos_mul(p as int, align);
        assert(r == a + p * align);
        if free.remove(a).contains_key(r) {
            lemma_pos_mul(free[r] as int, align);
            assert(separate(a as int, s as int, r as int, free[r] as int, align));
        }
        lemma_map_pages_insert(free.remove(a), r, (s - p) as u64);
    }
}

/// Freeing a used extent adds its pages to the free extents
pub proof fn lemma_freed_pages(free: Map<u64, u64>, used: Map<u64, u64>, a: u64, align: int)
    requires
        layout_consistent(free, used, align),
        free.dom().finite(),
        used.contains_key(a),
    ensures
        map_pages(freed(free, a, used[a], align)) == map_pages(free) + used[a],
        freed(free, a, used[a], align).dom().finite(),
{
    let s = used[a];
    let end = (a + s * align) as u64;
    assert(valid_extent(a, s, align));
    assert(extent_end(a as int, s as int, align) == end);
    assert(!free.contains_key(a));
    if free.contains_key(end) {
        lemma_merge_adds_pages(free, used, a, align);
        lemma_map_pages_remove(free, end);
        assert(!free.remove(end).contains_key(a));
        lemma_map_pages_insert(free.remove(end), a, (s + free[end]) as u64);
    } else {
        lemma_map_pages_insert(free, a, s);
    }
}

/// Every extent of the map starts on the `align` boundary
pub open spec fn keys_aligned(m: Map<u64, u64>, align: int) -> bool {
    forall|a: u64| #[trigger] m.contains_key(a) ==> a as int % align == 0
}

/// Every extent of the map is valid
pub open spec fn extents_valid(m: Map<u64, u64>, align: int) -> bool {
    forall|a: u64| #[trigger] m.contains_key(a) ==> valid_extent(a, m[a], align)
}

/// Every extent of `m1` is separate from every other extent of `m2`
pub open spec fn extents_separate(m1: Map<u64, u64>, m2: Map<u64, u64>, align: int) -> bool {
    forall|a: u64, b: u64| #[trigger] m1.contains_key(a) && #[trigger] m2.contains_key(b) && a != b
        ==> separate(a as int, m1[a] as int, b as int, m2[b] as int, align)
}

/// Free and used extents are valid and no two of them overlap
pub open spec fn layout_consistent(free: Map<u64, u64>, used: Map<u64, u64>, align: int) -> bool {
    &&& align > 0
    &&& extents_valid(free, align)
    &&& extents_valid(used, align)
    &&& extents_separate(free, free, align)
    &&& extents_separate(used, used, align)
    &&& extents_separate(free, used, align)
    &&& free.dom().disjoint(used.dom())
}

/// An extent inside a bigger one is separate from everything the bigger one is separate from
pub proof fn lemma_inner_separate(a: int, s: int, inner_a: int, inner_s: int, b: int, t: int, align: int)
    requires
        separate(a, s, b, t, align),
        a <= inner_a,
        inner_a + inner_s * align <= a + s * align,
    ensures
        separate(inner_a, inner_s, b, t, align),
{
}

/// Two adjacent extents merged together are separate from everything both are separate from
pub proof fn lemma_merged_separate(a: int, s: int, n: int, b: int, t: int, align: int)
    requires
        separate(a, s, b, t, align),
        separate(a + s * align, n, b, t, align),
        t > 0,
        align > 0,
        s >= 0,
        n >= 0,
    ensures
        separate(a, s + n, b, t, align),
{
    assert((s + n) * align == s * align + n * align) by (nonlinear_arith);
    assert(t * align > 0) by (nonlinear_arith)
        requires
            t > 0,
            align > 0,
    ;
}

/// An extent that is neither free nor used can move from the free extents to the used ones
proof fn lemma_move_to_used(free: Map<u64, u64>, used: Map<u64, u64>, a: u64, s: u64, align: int)
    requires
        layout_consistent(free.insert(a, s), used, align),
        !free.contains_key(a),
        !used.contains_key(a),
    ensures
        layout_consistent(free, used.insert(a, s), align),
{
    let f1 = free.insert(a, s);
    let u1 = used.insert(a, s);
    assert forall|x: u64| #[trigger] free.contains_key(x) implies f1.contains_key(x) && f1[x] == free[x] by {
        assert(x != a);
    }
    assert forall|x: u64| #[trigger] u1.contains_key(x) implies valid_extent(x, u1[x], align) by {
        if x != a {
            assert(used.contains_key(x));
        } else {
            assert(f1.contains_key(a));
        }
    }
    assert forall|x: u64, y: u64| #[trigger] u1.contains_key(x) && #[trigger] u1.contains_key(y) && x != y
        implies separate(x as int, u1[x] as int, y as int, u1[y] as int, align) by {
        if x == a {
            assert(f1.contains_key(a) && used.contains_key(y));
        } else if y == a {
            assert(f1.contains_key(a) && used.contains_key(x));
            assert(separate(a as int, s as int, x as int, used[x] as int, align));
        }
    }
    assert forall|x: u64, y: u64| #[trigger] free.contains_key(x) && #[trigger] u1.contains_key(y) && x != y
        implies separate(x as int, free[x] as int, y as int, u1[y] as int, align) by {
        assert(f1.contains_key(x) && f1.contains_key(a) && x != a);
        if y == a {
            assert(separate(x as int, f1[x] as int, a as int, f1[a] as int, align));
        }
    }
    assert forall|x: u64, y: u64| #[trigger] free.contains_key(x) && #[trigger] free.contains_key(y) && x != y
        implies separate(x as int, free[x] as int, y as int, free[y] as int, align) by {
        assert(f1.contains_key(x) && f1.contains_key(y));
    }
    assert(free.dom().disjoint(u1.dom()));
}

/// Whole pages away from an address on the boundary lies another address on the boundary
pub proof fn lemma_aligned_step(a: int, k: int, align: int)
    requires
        align > 0,
        a % align == 0,
    ensures
        (a + k * align) % align == 0,
{
    vstd::arithmetic::div_mod::lemma_mod_multiples_vanish(k, a, align);
    vstd::arithmetic::mul::lemma_mul_is_commutative(k, align);
}

/// Taking pages off the front of a free extent keeps every extent on the boundary
proof fn lemma_taken_aligned(free: Map<u64, u64>, a: u64, p: u64, align: int)
    requires
        align > 0,
        keys_aligned(free, align),
        free.contains_key(a),
        a + p * align <= u64::MAX,
    ensures
        keys_aligned(taken(free, a, p, align), align),
{
    lemma_aligned_step(a as int, p as int, align);
    let t = taken(free, a, p, align);
    assert forall|k: u64| #[trigger] t.contains_key(k) implies k as int % align == 0 by {
        if k != (a + p * align) as u64 {
            assert(free.contains_key(k));
        }
    }
}

/// Cutting a part on the boundary out of a used extent on the boundary keeps every
/// extent on the boundary
proof fn lemma_split_around_aligned(used: Map<u64, u64>, a: u64, s: u64, pa: u64, ps: u64, align: int)
    requires
        align > 0,
        keys_aligned(used, align),
        a as int % align == 0,
        pa as int % align == 0,
        pa + ps * align <= u64::MAX,
    ensures
        keys_aligned(split_around(used, a, s, pa, ps, align), align),
{
    lemma_aligned_step(pa as int, ps as int, align);
    let m = split_around(used, a, s, pa, ps, align);
    assert forall|k: u64| #[trigger] m.contains_key(k) implies k as int % align == 0 by {
        if k != a && k != (pa + ps * align) as u64 {
            assert(used.contains_key(k));
        }
    }
}

/// A product of two positive numbers is positive
proof fn lemma_pos_mul(s: int, align: int)
    requires
        s > 0,
        align > 0,
    ensures
        s * align > 0,
{
    assert(s * align > 0) by (nonlinear_arith)
        requires
            s > 0,
            align > 0,
    ;
}

/// Indicates that the extent allocator has already been initialized
pub struct AlreadyInitialized;

/// Returned by the `deallocate_part()` function
#[derive(PartialEq, Eq, Structural)]
pub enum PartDeallocError {
    /// The given extent was not found in allocator
    UnregisteredExtent,
    /// The part extent does not fit into the bigger extent
    PartDoesNotFit,
    /// Something went wrong, but the system was able to recover
    InternalError,
}

/// The raw extent allocator used by the `ExtentAllocator` and `CachedExtentAllocator`
pub struct RawExtentAlloc<const ALIGN: usize> {
    free: AllocMap<ALIGN>,
    used: BTreeMap<u64, u64>,
}

impl<const ALIGN: usize> RawExtentAlloc<ALIGN> {
    /// The free extents: starting address to page count
    pub closed spec fn free_view(&self) -> Map<u64, u64> {
        self.free@
    }

    /// The used extents: starting address to page count
    pub closed spec fn used_view(&self) -> Map<u64, u64> {
        self.used@
    }

    /// Well-formedness: the free map is well-formed, `ALIGN` is a power of two,
    /// every extent starts on the `ALIGN` boundary, and no two extents overlap
    pub closed spec fn wf(&self) -> bool {
        &&& self.free.wf()
        &&& is_power_of_two(ALIGN as int)
        &&& layout_consistent(self.free@, self.used@, ALIGN as int)
        &&& keys_aligned(self.free@, ALIGN as int)
        &&& keys_aligned(self.used@, ALIGN as int)
        &&& self.free@.dom().finite()
    }

    /// A well-formed allocator keeps its extents valid and apart
    pub proof fn lemma_wf(&self)
        requires
            self.wf(),
        ensures
            layout_consistent(self.free_view(), self.used_view(), ALIGN as int),
            is_power_of_two(ALIGN as int),
            keys_aligned(self.free_view(), ALIGN as int),
            keys_aligned(self.used_view(), ALIGN as int),
            self.free_view().dom().finite(),
    {
    }

    /// Constructs an empty allocator
    pub fn uninit() -> (r: Self)
        requires
            is_power_of_two(ALIGN as int),
        ensures
            r.wf(),
            r.free_view() == Map::<u64, u64>::empty(),
            r.used_view() == Map::<u64, u64>::empty(),
            r.free_map().is_pristine(),
    {
        proof {
            lemma_power_of_two_facts(ALIGN as int);
        }
        RawExtentAlloc { used: BTreeMap::new(), free: AllocMap::uninit() }
    }

    /// The free map
    pub closed spec fn free_map(&self) -> AllocMap<ALIGN> {
        self.free
    }

    /// Returns a reference to the free map
    pub fn free_map_ref(&self) -> (r: &AllocMap<ALIGN>)
        ensures
            *r == self.free_map(),
            r@ == self.free_view(),
    {
        &self.free
    }

    /// Returns a reference to the used map
    pub fn used_map(&self) -> (r: &BTreeMap<u64, u64>)
        ensures
            r@ == self.used_view(),
    {
        &self.used
    }

    /// Initializes the allocator with the given extents: those marked `Free` become
    /// free extents and those marked `Used` become used extents
    ///
    /// The extents must lie inside the 64-bit address space and must not overlap.
    /// Returns `Err(AlreadyInitialized)` (and changes nothing) if the allocator
    /// already holds any extent
    pub fn initialize(&mut self, exts: Vec<TakenExtent<ALIGN, InternalExtent<ALIGN>>>) -> (r: Result<
        (),
        AlreadyInitialized,
    >)
        requires
            old(self).wf(),
            extents_apart(exts@),
        ensures
            final(self).wf(),
            r is Err <==> !(old(self).free_map().is_pristine() && old(self).used_view().is_empty()),
            r is Err ==> final(self).free_view() == old(self).free_view()
                && final(self).used_view() == old(self).used_view(),
            r is Ok ==> final(self).free_view() == marked_extents(exts@, true)
                && final(self).used_view() == marked_extents(exts@, false),
    {
        if !self.free.is_blank() || !self.used.is_empty() {
            return Err(AlreadyInitialized);
        }
        proof {
            self.free.lemma_pristine_is_empty();
            assert(exts@.take(0) =~= Seq::empty());
        }
        let mut i: usize = 0;
        while i < exts.len()
            invariant
                self.wf(),
                extents_apart(exts@),
                i <= exts.len(),
                self.free@ == marked_extents(exts@.take(i as int), true),
                self.used@ == marked_extents(exts@.take(i as int), false),
            decreases exts.len() - i,
        {
            let ghost free0 = self.free@;
            let ghost used0 = self.used@;
            let ghost prefix = exts@.take(i as int);
            let ghost e = exts@[i as int].inner();
            proof {
                assert(exts@.take(i + 1).drop_last() =~= prefix);
                lemma_marked_from(prefix, true, e.start_spec());
                lemma_marked_from(prefix, false, e.start_spec());
            }
            match &exts[i] {
                TakenExtent::Free(ext) => {
                    let inserted = self.free.insert_extent_fragmented(&MutableExtent::from_regular(*ext));
                    proof {
                        assert(inserted is Ok);
                    }
                },
                TakenExtent::Used(ext) => {
                    let a = ext.address().as_inner();
                    let pages = ext.size();
                    self.used.insert(a, pages);
                },
            }
            proof {
                self.lemma_initial_consistent(exts@, i as int, free0, used0);
            }
            i = i + 1;
        }
        proof {
            assert(exts@.take(exts.len() as int) =~= exts@);
        }
        Ok(())
    }

    proof fn lemma_initial_consistent(
        &self,
        exts: Seq<TakenExtent<ALIGN, InternalExtent<ALIGN>>>,
        i: int,
        free0: Map<u64, u64>,
        used0: Map<u64, u64>,
    )
        requires
            is_power_of_two(ALIGN as int),
            extents_apart(exts),
            0 <= i < exts.len(),
            layout_consistent(free0, used0, ALIGN as int),
            free0 == marked_extents(exts.take(i), true),
            used0 == marked_extents(exts.take(i), false),
            self.free@ == marked_extents(exts.take(i + 1), true),
            self.used@ == marked_extents(exts.take(i + 1), false),
        ensures
            layout_consistent(self.free@, self.used@, ALIGN as int),
    {
        let align = ALIGN as int;
        let prefix = exts.take(i);
        let e = exts[i].inner();
        let a = e.start_spec();
        let n = e.size_spec();
        let free1 = self.free@;
        let used1 = self.used@;
        lemma_power_of_two_facts(align);
        assert(exts.take(i + 1).drop_last() =~= prefix);
        assert(valid_extent(a, n, align));
        assert forall|x: u64| #[trigger] free0.contains_key(x) || #[trigger] used0.contains_key(x) implies x != a
            && separate(a as int, n as int, x as int, (if free0.contains_key(x) { free0[x] } else { used0[x] }) as int, align) by {
            if free0.contains_key(x) {
                lemma_marked_from(prefix, true, x);
            } else {
                lemma_marked_from(prefix, false, x);
            }
            let j = choose|j: int| 0 <= j < prefix.len() && #[trigger] prefix[j].inner().start_spec() == x
                && prefix[j].inner().size_spec() == (if free0.contains_key(x) { free0[x] } else { used0[x] });
            assert(exts[j] == prefix[j]);
        }
        assert(extents_separate(free1, free1, align));
        assert(extents_separate(used1, used1, align));
        assert(extents_separate(free1, used1, align));
        assert(free1.dom().disjoint(used1.dom()));
    }

    /// Deallocates the extent: it is removed from the used extents and inserted
    /// into the free extents, merged with the free extent that starts right behind it
    ///
    /// The extent must be in the same state as it was at the time of allocation.
    /// Returns `Err` (and changes nothing) if no used extent starts at its address
    pub fn deallocate(&mut self, ext: MutableExtent<ALIGN>) -> (r: Result<(), ()>)
        requires
            old(self).wf(),
            old(self).used_view().contains_key(ext.start_spec()) ==> old(self).used_view()[ext.start_spec()]
                == ext.size_spec(),
        ensures
            final(self).wf(),
            r is Ok <==> old(self).used_view().contains_key(ext.start_spec()),
            r is Err ==> final(self).free_view() == old(self).free_view()
                && final(self).used_view() == old(self).used_view(),
            r is Ok ==> final(self).used_view() == old(self).used_view().remove(ext.start_spec()),
            r is Ok ==> final(self).free_view() == freed(
                old(self).free_view(),
                ext.start_spec(),
                ext.size_spec(),
                ALIGN as int,
            ),
    {
        let a = ext.address().as_inner();
        let ghost free0 = self.free@;
        let ghost used0 = self.used@;
        match self.used.remove(&a) {
            Some(_) => {},
            None => {
                return Err(());
            },
        }
        let s = ext.size();
        proof {
            assert(valid_extent(a, s, ALIGN as int));
            assert(!free0.contains_key(a));
            let end = (a + s * ALIGN) as u64;
            assert(extent_end(a as int, s as int, ALIGN as int) == end);
            if free0.contains_key(end) {
                assert(!free0.remove(end).contains_key(a));
            }
        }
        let inserted = self.free.insert_extent(ext);
        proof {
            assert(inserted is Ok);
            self.lemma_freed_consistent(free0, used0, a, s);
        }
        Ok(())
    }

    /// Allocates one contiguous extent as described by the `layout`: the first
    /// `layout.size()` pages of the extent that `AllocMap::find_suitable` picks
    ///
    /// Returns `None` (and changes nothing) if no free extent is big enough and aligned enough
    pub fn allocate_exact<Lay: LayoutDescriptor<ALIGN>>(&mut self, layout: &Lay) -> (r: Option<
        InternalExtent<ALIGN>,
    >)
        requires
            old(self).wf(),
        ensures
            final(self).wf(),
            r is None <==> forall|a: u64| !#[trigger] suits(
                old(self).free_view(),
                a,
                layout.size_spec(),
                layout.align_spec(),
            ),
            r is None ==> final(self).free_view() == old(self).free_view()
                && final(self).used_view() == old(self).used_view(),
            r matches Some(e) ==> {
                &&& best_fit(old(self).free_view(), e.start_spec(), layout.size_spec(), layout.align_spec())
                &&& e.size_spec() == layout.size_spec()
                &&& final(self).used_view() == old(self).used_view().insert(e.start_spec(), e.size_spec())
                &&& final(self).free_view() == taken(
                    old(self).free_view(),
                    e.start_spec(),
                    e.size_spec(),
                    ALIGN as int,
                )
            },
    {
        let ghost free0 = self.free@;
        let ghost used0 = self.used@;
        let suitable = match self.free.find_suitable(layout) {
            Some(ext) => ext,
            None => {
                proof {
                    assert forall|a: u64| !#[trigger] suits(
                        free0,
                        a,
                        layout.size_spec(),
                        layout.align_spec(),
                    ) by {
                        assert(!self.free.suits(a, layout.size_spec(), layout.align_spec()));
                    }
                }
                return None;
            },
        };
        proof {
            assert(self.free.suits(suitable.start_spec(), layout.size_spec(), layout.align_spec()));
            assert(suits(free0, suitable.start_spec(), layout.size_spec(), layout.align_spec()));
            assert(suits(old(self).free_view(), suitable.start_spec(), layout.size_spec(), layout.align_spec()));
        }
        if let Err(_) = self.free.extract_exact_extent(suitable) {
            proof {
                assert(false);
            }
            return None;
        }
        let pages = layout.size();
        let allocated = MutableExtent::new(suitable.address(), pages);
        let ghost a = suitable.start_spec();
        let ghost s = suitable.size_spec();
        proof {
            assert(valid_extent(a, s, ALIGN as int));
            lemma_power_of_two_facts(ALIGN as int);
            assert(pages * ALIGN <= s * ALIGN) by (nonlinear_arith)
                requires
                    pages <= s,
                    ALIGN > 0,
            ;
            assert((s - pages) * ALIGN == s * ALIGN - pages * ALIGN) by (nonlinear_arith);
            vstd::arithmetic::div_mod::lemma_div_multiples_vanish((s - pages) as int, ALIGN as int);
            assert(((s - pages) * ALIGN) / (ALIGN as int) == s - pages) by (nonlinear_arith)
                requires
                    ALIGN > 0,
                    (ALIGN * (s - pages)) / (ALIGN as int) == s - pages,
            ;
        }
        let RemainingExtents { front, remainder } = allocated.remove_from_unchecked(suitable);
        if let Some(rest) = remainder {
            let inserted = self.free.insert_extent_fragmented(&rest);
            proof {
                assert(inserted is Ok);
            }
        }
        self.used.insert(allocated.address().as_inner(), allocated.size());
        proof {
            assert(front is None);
            assert(remainder is None <==> s == pages);
            assert(self.free@ =~= taken(free0, a, pages, ALIGN as int));
            self.lemma_taken_consistent(free0, used0, a, pages);
            assert(a + pages * ALIGN <= u64::MAX) by (nonlinear_arith)
                requires
                    a + s * ALIGN <= u64::MAX,
                    pages <= s,
            ;
            lemma_taken_aligned(free0, a, pages, ALIGN as int);
            assert(keys_aligned(self.used@, ALIGN as int)) by {
                assert forall|k: u64| #[trigger] self.used@.contains_key(k) implies k as int % ALIGN as int == 0 by {
                    if k != a {
                        assert(used0.contains_key(k));
                    }
                }
            }
        }
        Some(allocated.into_regular())
    }

    proof fn lemma_taken_consistent(&self, free0: Map<u64, u64>, used0: Map<u64, u64>, a: u64, p: u64)
        requires
            layout_consistent(free0, used0, ALIGN as int),
            free0.contains_key(a),
            0 < p <= free0[a],
            self.free@ == taken(free0, a, p, ALIGN as int),
            self.used@ == used0.insert(a, p),
        ensures
            layout_consistent(self.free@, self.used@, ALIGN as int),
    {
        let align = ALIGN as int;
        let s = free0[a];
        let free1 = self.free@;
        let used1 = self.used@;
        assert(valid_extent(a, s, align));
        assert(a + p * align <= u64::MAX) by (nonlinear_arith)
            requires
                a + s * align <= u64::MAX,
                p <= s,
                align > 0,
        ;
        let rest = (a + p * align) as u64;
        assert(rest == a + p * align);
        assert(p * align <= s * align) by (nonlinear_arith)
            requires
                p <= s,
                align > 0,
        ;
        assert((s - p) * align == s * align - p * align) by (nonlinear_arith);
        assert(p * align > 0) by (nonlinear_arith)
            requires
                p > 0,
                align > 0,
        ;
        assert(valid_extent(a, p, align));
        assert forall|x: u64| #[trigger] free1.contains_key(x) && x != a implies separate(
            a as int,
            p as int,
            x as int,
            free1[x] as int,
            align,
        ) by {
            if x == rest && s > p {
            } else {
                lemma_inner_separate(a as int, s as int, a as int, p as int, x as int, free0[x] as int, align);
            }
        }
        assert forall|x: u64| #[trigger] used1.contains_key(x) && x != a implies separate(
            a as int,
            p as int,
            x as int,
            used1[x] as int,
            align,
        ) by {
            lemma_inner_separate(a as int, s as int, a as int, p as int, x as int, used0[x] as int, align);
        }
        if s > p {
            assert(valid_extent(rest, (s - p) as u64, align));
            assert forall|x: u64| #[trigger] free1.contains_key(x) && x != rest implies separate(
                rest as int,
                (s - p) as int,
                x as int,
                free1[x] as int,
                align,
            ) by {
                lemma_inner_separate(a as int, s as int, rest as int, (s - p) as int, x as int, free0[x] as int, align);
            }
            assert forall|x: u64| #[trigger] used1.contains_key(x) implies separate(
                rest as int,
                (s - p) as int,
                x as int,
                used1[x] as int,
                align,
            ) by {
                if x != a {
                    lemma_inner_separate(a as int, s as int, rest as int, (s - p) as int, x as int, used0[x] as int, align);
                }
            }
        }
        assert(extents_valid(free1, align));
        assert(extents_valid(used1, align));
        assert(extents_separate(free1, free1, align));
        assert(extents_separate(used1, used1, align));
        assert(extents_separate(free1, used1, align));
        assert forall|x: u64| #[trigger] used1.contains_key(x) implies !free1.contains_key(x) by {
            if free1.contains_key(x) {
                if x == a {
                    assert(rest != a);
                } else if x == rest && s > p {
                    assert(separate(rest as int, (s - p) as int, x as int, used1[x] as int, align));
                    assert((s - p) * align > 0) by (nonlinear_arith)
                        requires
                            s > p,
                            align > 0,
                    ;
                    assert(used0[x] * align > 0) by (nonlinear_arith)
                        requires
                            used0[x] > 0,
                            align > 0,
                    ;
                } else {
                    assert(free0.contains_key(x));
                }
            }
        }
        assert(free1.dom().disjoint(used1.dom()));
    }

    /// Deallocates the `part` of the used extent `ext`: `ext` is replaced in the used
    /// extents by the space in front of and behind `part`, and `part` becomes free
    ///
    /// Returns `Err(PartDoesNotFit)` if `part` does not fit into `ext`, and
    /// `Err(UnregisteredExtent)` if no used extent starts at the address of `ext`;
    /// both change nothing. Where `part` fits into a used extent `ext`, `ext` must be in
    /// the same state as it was at the time of allocation, and `part` must start on
    /// the `ALIGN` boundary and end inside the 64-bit address space
    pub fn deallocate_part(&mut self, ext: MutableExtent<ALIGN>, part: MutableExtent<ALIGN>) -> (r:
        Result<(), PartDeallocError>)
        requires
            old(self).wf(),
            part_fits(part.start_spec(), part.size_spec(), ext.start_spec(), ext.size_spec(), ALIGN as int)
                && old(self).used_view().contains_key(ext.start_spec()) ==> {
                &&& old(self).used_view()[ext.start_spec()] == ext.size_spec()
                &&& part.start_spec() + part.size_spec() * ALIGN <= u64::MAX
                &&& part.start_spec() as int % ALIGN as int == 0
            },
        ensures
            final(self).wf(),
            ({
                if !part_fits(part.start_spec(), part.size_spec(), ext.start_spec(), ext.size_spec(), ALIGN as int) {
                    &&& r == Err::<(), PartDeallocError>(PartDeallocError::PartDoesNotFit)
                    &&& final(self).free_view() == old(self).free_view()
                    &&& final(self).used_view() == old(self).used_view()
                } else if !old(self).used_view().contains_key(ext.start_spec()) {
                    &&& r == Err::<(), PartDeallocError>(PartDeallocError::UnregisteredExtent)
                    &&& final(self).free_view() == old(self).free_view()
                    &&& final(self).used_view() == old(self).used_view()
                } else {
                    &&& r is Ok
                    &&& final(self).free_view() == old(self).free_view().insert(
                        part.start_spec(),
                        part.size_spec(),
                    )
                    &&& final(self).used_view() == split_around(
                        old(self).used_view(),
                        ext.start_spec(),
                        ext.size_spec(),
                        part.start_spec(),
                        part.size_spec(),
                        ALIGN as int,
                    )
                }
            }),
    {
        if !part.fits_into(&ext) {
            return Err(PartDeallocError::PartDoesNotFit);
        }
        let part_pages = part.size();
        let ghost free0 = self.free@;
        let ghost used0 = self.used@;
        let a = ext.address().as_inner();
        match self.used.remove(&a) {
            Some(_) => {},
            None => {
                return Err(PartDeallocError::UnregisteredExtent);
            },
        }
        let ghost e_end = a + ext.size_spec() * ALIGN;
        let ghost p_end = part.start_spec() + part.size_spec() * ALIGN;
        proof {
            assert(valid_extent(a, ext.size_spec(), ALIGN as int));
            assert(extent_end(a as int, ext.size_spec() as int, ALIGN as int) == e_end);
            assert(extent_end(part.start_spec() as int, part.size_spec() as int, ALIGN as int) == p_end);
        }
        let RemainingExtents { front, remainder } = part.remove_from_unchecked(ext);
        if let Some(front) = &front {
            let ghost before = self.used@;
            self.used.insert(front.address().as_inner(), front.size());
            proof {
                assert(!before.contains_key(a));
            }
        }
        if let Some(rem) = remainder {
            self.used.insert(rem.address().as_inner(), rem.size());
        }
        proof {
            self.lemma_split_consistent(free0, used0, a, ext.size_spec(), part.start_spec(), part.size_spec());
        }
        let inserted = self.free.insert_extent_fragmented(&part);
        proof {
            assert(inserted is Ok);
            assert(self.used@ =~= split_around(used0, a, ext.size_spec(), part.start_spec(), part.size_spec(), ALIGN as int));
            lemma_split_around_aligned(used0, a, ext.size_spec(), part.start_spec(), part.size_spec(), ALIGN as int);
            assert forall|k: u64| #[trigger] self.free@.contains_key(k) implies k as int % ALIGN as int == 0 by {
                if k != part.start_spec() {
                    assert(free0.contains_key(k));
                }
            }
        }
        Ok(())
    }

    /// Allocates the extent that a cache picked out of one of its extents:
    /// `source.suitable` is replaced in the used extents by the space in front of
    /// and behind `source.allocated`, which becomes a used extent of its own and
    /// is returned
    ///
    /// `source.suitable` must be in the same state as it was at the time of allocation.
    /// Returns `None` (and changes nothing) if no used extent starts at its address
    pub fn allocate_source(&mut self, source: SourceAllocation<ALIGN>) -> (r: Option<InternalExtent<ALIGN>>)
        requires
            old(self).wf(),
            old(self).used_view().contains_key(source.suitable.start_spec()) ==> old(self).used_view()[source.suitable.start_spec()]
                == source.suitable.size_spec(),
            source.allocated.start_spec() >= source.suitable.start_spec(),
            source.allocated.start_spec() as int % ALIGN as int == 0,
            source.allocated.start_spec() + source.allocated.size_spec() * ALIGN <= source.suitable.start_spec()
                + source.suitable.size_spec() * ALIGN,
        ensures
            final(self).wf(),
            r is Some <==> old(self).used_view().contains_key(source.suitable.start_spec()),
            final(self).free_view() == old(self).free_view(),
            r is None ==> final(self).used_view() == old(self).used_view(),
            r matches Some(e) ==> {
                &&& e == source.allocated
                &&& !split_around(
                    old(self).used_view(),
                    source.suitable.start_spec(),
                    source.suitable.size_spec(),
                    e.start_spec(),
                    e.size_spec(),
                    ALIGN as int,
                ).contains_key(e.start_spec())
                &&& final(self).used_view() == split_around(
                    old(self).used_view(),
                    source.suitable.start_spec(),
                    source.suitable.size_spec(),
                    e.start_spec(),
                    e.size_spec(),
                    ALIGN as int,
                ).insert(e.start_spec(), e.size_spec())
            },
    {
        let ghost free0 = self.free@;
        let ghost used0 = self.used@;
        let allocated = source.allocated;
        let ext = MutableExtent::from_regular(source.suitable);
        let part = MutableExtent::from_regular(allocated);
        let part_pages = part.size();
        let a = ext.address().as_inner();
        match self.used.remove(&a) {
            Some(_) => {},
            None => {
                return None;
            },
        }
        proof {
            assert(valid_extent(a, ext.size_spec(), ALIGN as int));
        }
        let RemainingExtents { front, remainder } = part.remove_from_unchecked(ext);
        if let Some(front) = &front {
            self.used.insert(front.address().as_inner(), front.size());
        }
        if let Some(rem) = remainder {
            self.used.insert(rem.address().as_inner(), rem.size());
        }
        let ghost used1 = self.used@;
        proof {
            self.lemma_split_consistent(free0, used0, a, ext.size_spec(), part.start_spec(), part.size_spec());
            assert(used1 =~= split_around(used0, a, ext.size_spec(), part.start_spec(), part.size_spec(), ALIGN as int));
        }
        self.used.insert(allocated.address().as_inner(), part_pages);
        proof {
            lemma_move_to_used(free0, used1, part.start_spec(), part.size_spec(), ALIGN as int);
            assert(part.start_spec() + part.size_spec() * ALIGN <= u64::MAX);
            lemma_split_around_aligned(used0, a, ext.size_spec(), part.start_spec(), part.size_spec(), ALIGN as int);
            assert forall|k: u64| #[trigger] self.used@.contains_key(k) implies k as int % ALIGN as int == 0 by {
                if k != part.start_spec() {
                    assert(used1.contains_key(k));
                }
            }
        }
        Some(allocated)
    }

    proof fn lemma_split_consistent(
        &self,
        free0: Map<u64, u64>,
        used0: Map<u64, u64>,
        a: u64,
        s: u64,
        pa: u64,
        ps: u64,
    )
        requires
            layout_consistent(free0, used0, ALIGN as int),
            used0.contains_key(a),
            used0[a] == s,
            ps != 0,
            a <= pa,
            pa + ps * ALIGN <= a + s * ALIGN,
            self.free@ == free0,
        ensures
            !free0.contains_key(pa),
            ({
                let used1 = split_around(used0, a, s, pa, ps, ALIGN as int);
                &&& !used1.contains_key(pa)
                &&& layout_consistent(free0.insert(pa, ps), used1, ALIGN as int)
            }),
    {
        let align = ALIGN as int;
        let e_end = a + s * align;
        let p_end = pa + ps * align;
        let fp = pages_between(a as int, pa as int, align);
        let rp = pages_between(p_end, e_end, align);
        let pe = p_end as u64;
        let used1 = split_around(used0, a, s, pa, ps, align);
        let free1 = free0.insert(pa, ps);
        assert(valid_extent(a, s, align));
        lemma_pages_between_bound(a as int, pa as int, align);
        lemma_pages_between_bound(p_end, e_end, align);
        lemma_pos_mul(ps as int, align);
        if fp > 0 {
            lemma_pos_mul(fp, align);
        }
        if rp > 0 {
            lemma_pos_mul(rp, align);
        }
        assert(pe == p_end);
        assert(!free0.contains_key(pa)) by {
            if free0.contains_key(pa) {
                assert(pa != a);
                lemma_pos_mul(free0[pa] as int, align);
            }
        }
        assert(!used1.contains_key(pa)) by {
            if used0.contains_key(pa) && pa != a {
                lemma_pos_mul(used0[pa] as int, align);
            }
        }
        assert forall|x: u64| #[trigger] used1.contains_key(x) implies valid_extent(x, used1[x], align) by {
            if x == pe && rp > 0 {
            } else if x == a && fp > 0 {
            } else {
                assert(used0.contains_key(x));
            }
        }
        assert forall|x: u64, y: u64| #[trigger] used1.contains_key(x) && #[trigger] used1.contains_key(y) && x != y
            implies separate(x as int, used1[x] as int, y as int, used1[y] as int, align) by {
            let x_old = !(x == pe && rp > 0) && !(x == a && fp > 0);
            let y_old = !(y == pe && rp > 0) && !(y == a && fp > 0);
            if x_old && y_old {
                assert(used0.contains_key(x) && used0.contains_key(y));
            } else if x_old {
                assert(used0.contains_key(x) && x != a);
                lemma_inner_separate(a as int, s as int, y as int, used1[y] as int, x as int, used0[x] as int, align);
            } else if y_old {
                assert(used0.contains_key(y) && y != a);
                lemma_inner_separate(a as int, s as int, x as int, used1[x] as int, y as int, used0[y] as int, align);
            }
        }
        assert forall|x: u64, y: u64| #[trigger] free1.contains_key(x) && #[trigger] free1.contains_key(y) && x != y
            implies separate(x as int, free1[x] as int, y as int, free1[y] as int, align) by {
            if x == pa {
                lemma_inner_separate(a as int, s as int, pa as int, ps as int, y as int, free0[y] as int, align);
            } else if y == pa {
                lemma_inner_separate(a as int, s as int, pa as int, ps as int, x as int, free0[x] as int, align);
            }
        }
        assert forall|x: u64, y: u64| #[trigger] free1.contains_key(x) && #[trigger] used1.contains_key(y) && x != y
            implies separate(x as int, free1[x] as int, y as int, used1[y] as int, align) by {
            let y_old = !(y == pe && rp > 0) && !(y == a && fp > 0);
            if x == pa {
                if y_old {
                    assert(used0.contains_key(y) && y != a);
                    lemma_inner_separate(a as int, s as int, pa as int, ps as int, y as int, used0[y] as int, align);
                }
            } else {
                assert(free0.contains_key(x) && x != a);
                if y_old {
                    assert(used0.contains_key(y));
                } else {
                    lemma_inner_separate(a as int, s as int, y as int, used1[y] as int, x as int, free0[x] as int, align);
                }
            }
        }
        assert forall|x: u64| #[trigger] free1.contains_key(x) implies !used1.contains_key(x) by {
            if x != pa {
                assert(free0.contains_key(x) && x != a);
                if x == pe && rp > 0 {
                    lemma_pos_mul(free0[x] as int, align);
                }
            }
        }
        assert(free1.dom().disjoint(used1.dom()));
        assert(extents_valid(free1, align));
        assert(extents_valid(used1, align));
    }

    proof fn lemma_freed_consistent(&self, free0: Map<u64, u64>, used0: Map<u64, u64>, a: u64, s: u64)
        requires
            layout_consistent(free0, used0, ALIGN as int),
            used0.contains_key(a),
            used0[a] == s,
            self.free@ == freed(free0, a, s, ALIGN as int),
            self.used@ == used0.remove(a),
        ensures
            layout_consistent(self.free@, self.used@, ALIGN as int),
    {
        let align = ALIGN as int;
        let end = (a + s * align) as u64;
        let free1 = self.free@;
        let used1 = self.used@;
        assert(valid_extent(a, s, align));
        if free0.contains_key(end) {
            let n = free0[end];
            let merged = clamp(s + n, 0, u64::MAX as int) as u64;
            assert(valid_extent(end, n, align));
            assert((s + n) * align == s * align + n * align) by (nonlinear_arith);
            assert(merged == s + n) by (nonlinear_arith)
                requires
                    end + n * align <= u64::MAX,
                    end == a + s * align,
                    align > 0,
                    s > 0,
                    n > 0,
                    merged == clamp(s + n, 0, u64::MAX as int),
            ;
            assert(valid_extent(a, merged, align));
            assert forall|x: u64| #[trigger] free1.contains_key(x) && x != a implies separate(
                a as int,
                merged as int,
                x as int,
                free1[x] as int,
                align,
            ) by {
                assert(free0.contains_key(x) && x != end);
                lemma_merged_separate(a as int, s as int, n as int, x as int, free0[x] as int, align);
            }
            assert forall|x: u64| #[trigger] used1.contains_key(x) implies separate(
                a as int,
                merged as int,
                x as int,
                used1[x] as int,
                align,
            ) by {
                assert(used0.contains_key(x) && x != a);
                assert(separate(end as int, n as int, x as int, used0[x] as int, align));
                lemma_merged_separate(a as int, s as int, n as int, x as int, used0[x] as int, align);
            }
        } else {
            assert forall|x: u64| #[trigger] free1.contains_key(x) && x != a implies separate(
                a as int,
                s as int,
                x as int,
                free1[x] as int,
                align,
            ) by {}
        }
        assert(extents_separate(free1, free1, align));
        assert(extents_separate(free1, used1, align));
        assert(extents_separate(used1, used1, align));
    }
}

/// The extents of `exts` lie inside the 64-bit address space, start on the `ALIGN`
/// boundary, and no two of them overlap
pub open spec fn extents_apart<const ALIGN: usize>(exts: Seq<TakenExtent<ALIGN, InternalExtent<ALIGN>>>) -> bool {
    &&& forall|i: int| 0 <= i < exts.len() ==> valid_extent(
        #[trigger] exts[i].inner().start_spec(),
        exts[i].inner().size_spec(),
        ALIGN as int,
    ) && exts[i].inner().start_spec() as int % ALIGN as int == 0
    &&& forall|i: int, j: int| 0 <= i < exts.len() && 0 <= j < exts.len() && i != j ==> {
        &&& #[trigger] exts[i].inner().start_spec() != #[trigger] exts[j].inner().start_spec()
        &&& separate(
            exts[i].inner().start_spec() as int,
            exts[i].inner().size_spec() as int,
            exts[j].inner().start_spec() as int,
            exts[j].inner().size_spec() as int,
            ALIGN as int,
        )
    }
}

/// The starting addresses and page counts of the extents of `exts` marked `Free`
/// (if `free`) or marked `Used` (if not `free`)
pub open spec fn marked_extents<const ALIGN: usize>(exts: Seq<TakenExtent<ALIGN, InternalExtent<ALIGN>>>, free: bool) -> Map<
    u64,
    u64,
>
    decreases exts.len(),
{
    if exts.len() == 0 {
        Map::empty()
    } else {
        let prev = marked_extents(exts.drop_last(), free);
        let last = exts.last();
        if (last is Free) == free {
            prev.insert(last.inner().start_spec(), last.inner().size_spec())
        } else {
            prev
        }
    }
}

/// Every entry of `marked_extents` comes from an extent of the sequence
pub proof fn lemma_marked_from<const ALIGN: usize>(exts: Seq<TakenExtent<ALIGN, InternalExtent<ALIGN>>>, free: bool, a: u64)
    ensures
        marked_extents(exts, free).contains_key(a) ==> exists|j: int|
            0 <= j < exts.len() && #[trigger] exts[j].inner().start_spec() == a
                && exts[j].inner().size_spec() == marked_extents(exts, free)[a]
                && (exts[j] is Free) == free,
    decreases exts.len(),
{
    if exts.len() > 0 {
        let prev = exts.drop_last();
        lemma_marked_from(prev, free, a);
        if marked_extents(prev, free).contains_key(a) {
            let j = choose|j: int| 0 <= j < prev.len() && #[trigger] prev[j].inner().start_spec() == a
                && prev[j].inner().size_spec() == marked_extents(prev, free)[a] && (prev[j] is Free) == free;
            assert(exts[j] == prev[j]);
        }
        if marked_extents(exts, free).contains_key(a) && exts.last().inner().start_spec() == a && (exts.last() is Free) == free {
            assert(exts[exts.len() - 1] == exts.last());
        }
    }
}

/// Initializing with extents that lie apart registers every one of them: each extent
/// marked `Free` is a free extent and each extent marked `Used` a used one, with its page count
pub proof fn lemma_marked_holds<const ALIGN: usize>(exts: Seq<TakenExtent<ALIGN, InternalExtent<ALIGN>>>)
    requires
        extents_apart(exts),
    ensures
        forall|i: int| 0 <= i < exts.len() ==> {
            let e = #[trigger] exts[i].inner();
            let m = marked_extents(exts, exts[i] is Free);
            &&& m.contains_key(e.start_spec())
            &&& m[e.start_spec()] == e.size_spec()
        },
    decreases exts.len(),
{
    if exts.len() > 0 {
        let prev = exts.drop_last();
        let n = exts.len() - 1;
        assert(extents_apart(prev)) by {
            assert forall|i: int| 0 <= i < prev.len() implies valid_extent(
                #[trigger] prev[i].inner().start_spec(),
                prev[i].inner().size_spec(),
                ALIGN as int,
            ) by {
                assert(prev[i] == exts[i]);
            }
            assert forall|i: int, j: int| 0 <= i < prev.len() && 0 <= j < prev.len() && i != j implies {
                &&& #[trigger] prev[i].inner().start_spec() != #[trigger] prev[j].inner().start_spec()
                &&& separate(
                    prev[i].inner().start_spec() as int,
                    prev[i].inner().size_spec() as int,
                    prev[j].inner().start_spec() as int,
                    prev[j].inner().size_spec() as int,
                    ALIGN as int,
                )
            } by {
                assert(prev[i] == exts[i] && prev[j] == exts[j]);
            }
        }
        lemma_marked_holds(prev);
        assert(exts.last() == exts[n]);
        assert forall|i: int| 0 <= i < exts.len() implies {
            let e = #[trigger] exts[i].inner();
            let m = marked_extents(exts, exts[i] is Free);
            &&& m.contains_key(e.start_spec())
            &&& m[e.start_spec()] == e.size_spec()
        } by {
            if i < n {
                assert(prev[i] == exts[i]);
                assert(exts[i].inner().start_spec() != exts[n].inner().start_spec());
                let f = exts[i] is Free;
                assert(marked_extents(prev, f).contains_key(prev[i].inner().start_spec()));
            }
        }
    }
}

/// The extent `[pa, pa + ps * align)` fits into `[a, a + s * align)`, both ends
/// taken as saturated to the end of the address space
pub open spec fn part_fits(pa: u64, ps: u64, a: u64, s: u64, align: int) -> bool {
    pa >= a && extent_end(pa as int, ps as int, align) <= extent_end(a as int, s as int, align)
}

/// The address `x` lies in one of the extents of `m`
pub open spec fn covers(m: Map<u64, u64>, align: int, x: int) -> bool {
    exists|a: u64| #[trigger] m.contains_key(a) && a <= x < a + m[a] * align
}

/// Taking the first `p` pages of the free extent at `a` leaves every address free
/// that was free before, but those of the taken pages
pub proof fn lemma_taken_covers(free: Map<u64, u64>, used: Map<u64, u64>, a: u64, p: u64, align: int, x: int)
    requires
        layout_consistent(free, used, align),
        free.contains_key(a),
        0 < p <= free[a],
    ensures
        covers(taken(free, a, p, align), align, x) <==> covers(free, align, x) && !(a <= x < a + p * align),
{
    let s = free[a];
    let t = taken(free, a, p, align);
    assert(valid_extent(a, s, align));
    assert(p * align <= s * align) by (nonlinear_arith)
        requires
            p <= s,
            align > 0,
    ;
    assert(p * align > 0) by (nonlinear_arith)
        requires
            p > 0,
            align > 0,
    ;
    assert((s - p) * align == s * align - p * align) by (nonlinear_arith);
    let r = (a + p * align) as u64;
    assert(r == a + p * align);
    if covers(t, align, x) {
        let b = choose|b: u64| #[trigger] t.contains_key(b) && b <= x < b + t[b] * align;
        if s > p && b == r {
            assert(free.contains_key(a) && a <= x < a + free[a] * align);
        } else {
            assert(b != a && free.contains_key(b) && t[b] == free[b]);
            assert(free.contains_key(b) && b <= x < b + free[b] * align);
            assert(separate(b as int, free[b] as int, a as int, s as int, align));
        }
    }
    if covers(free, align, x) && !(a <= x < a + p * align) {
        let b = choose|b: u64| #[trigger] free.contains_key(b) && b <= x < b + free[b] * align;
        if b == a {
            assert(t.contains_key(r) && r <= x < r + t[r] * align);
        } else {
            assert(separate(b as int, free[b] as int, a as int, s as int, align));
            lemma_pos_mul(free[b] as int, align);
            if s > p {
                lemma_pos_mul((s - p) as int, align);
            }
            assert(b != r || s == p);
            assert(t.contains_key(b) && b <= x < b + t[b] * align);
        }
    }
}

/// Freeing the used extent at `a` leaves every address free that was free before,
/// and those of the freed extent
pub proof fn lemma_freed_covers(free: Map<u64, u64>, used: Map<u64, u64>, a: u64, align: int, x: int)
    requires
        layout_consistent(free, used, align),
        used.contains_key(a),
    ensures
        covers(freed(free, a, used[a], align), align, x) <==> covers(free, align, x) || (a <= x < a + used[a]
            * align),
{
    let s = used[a];
    let f1 = freed(free, a, s, align);
    let end = (a + s * align) as u64;
    assert(valid_extent(a, s, align));
    assert(extent_end(a as int, s as int, align) == end);
    assert(!free.contains_key(a));
    if free.contains_key(end) {
        let n = free[end];
        assert(valid_extent(end, n, align));
        assert((s + n) * align == s * align + n * align) by (nonlinear_arith);
        assert(clamp(s + n, 0, u64::MAX as int) == s + n) by (nonlinear_arith)
            requires
                end + n * align <= u64::MAX,
                end == a + s * align,
                align > 0,
                s > 0,
                n > 0,
        ;
        assert(f1[a] == s + n);
    }
    if covers(f1, align, x) {
        let b = choose|b: u64| #[trigger] f1.contains_key(b) && b <= x < b + f1[b] * align;
        if b != a {
            assert(free.contains_key(b) && b <= x < b + free[b] * align);
        } else if free.contains_key(end) && x >= a + s * align {
            assert(free.contains_key(end) && end <= x < end + free[end] * align);
        }
    }
    if covers(free, align, x) {
        let b = choose|b: u64| #[trigger] free.contains_key(b) && b <= x < b + free[b] * align;
        if b == end {
            assert(f1.contains_key(a) && a <= x < a + f1[a] * align);
        } else {
            assert(f1.contains_key(b) && b <= x < b + f1[b] * align);
        }
    }
    if a <= x < a + s * align {
        assert(f1.contains_key(a) && a <= x < a + f1[a] * align);
    }
}

/// The free extent at `a` is big enough for `pages` pages and aligned to `align`
pub open spec fn suits(free: Map<u64, u64>, a: u64, pages: u64, align: u64) -> bool {
    free.contains_key(a) && free[a] >= pages && lowest_one(a) >= align
}

/// `a` is the best fit among the extents of `free` for `pages` pages aligned to `align`:
/// of the suitable extents, it has the smallest size, of those the smallest alignment,
/// and of those the highest address
pub open spec fn best_fit(free: Map<u64, u64>, a: u64, pages: u64, align: u64) -> bool {
    &&& suits(free, a, pages, align)
    &&& forall|b: u64| #[trigger] suits(free, b, pages, align) ==> free[b] >= free[a]
    &&& forall|b: u64| #[trigger] suits(free, b, pages, align) && free[b] == free[a] ==> lowest_one(b)
        >= lowest_one(a)
    &&& forall|b: u64| #[trigger] suits(free, b, pages, align) && free[b] == free[a] && lowest_one(b)
        == lowest_one(a) ==> b <= a
}

/// The best fit among the extents of `free` for `pages` pages aligned to `align`, if any
pub open spec fn best_fit_of(free: Map<u64, u64>, pages: u64, align: u64) -> Option<u64> {
    if exists|a: u64| #[trigger] best_fit(free, a, pages, align) {
        Some(choose|a: u64| #[trigger] best_fit(free, a, pages, align))
    } else {
        None
    }
}

/// There is at most one best fit for a request
pub proof fn lemma_best_fit_unique(free: Map<u64, u64>, a: u64, b: u64, pages: u64, align: u64)
    requires
        best_fit(free, a, pages, align),
        best_fit(free, b, pages, align),
    ensures
        a == b,
{
    assert(suits(free, a, pages, align) && suits(free, b, pages, align));
}

/// Deallocating an extent right after `allocate_exact` handed it out gives back the
/// free extents as they were, unless the whole free extent was taken and another free
/// extent starts right behind it (then the two are merged); the used extents are
/// given back as they were in any case
pub proof fn lemma_deallocate_undoes_allocate(free: Map<u64, u64>, used: Map<u64, u64>, a: u64, p: u64, align: int)
    requires
        layout_consistent(free, used, align),
        free.contains_key(a),
        0 < p <= free[a],
        free[a] > p || !free.contains_key((a + p * align) as u64),
    ensures
        freed(taken(free, a, p, align), a, p, align) == free,
        used.insert(a, p).remove(a) == used,
{
    let s = free[a];
    assert(p * align <= s * align) by (nonlinear_arith)
        requires
            p <= s,
            align > 0,
    ;
    assert(p * align > 0) by (nonlinear_arith)
        requires
            p > 0,
            align > 0,
    ;
    let end = (a + p * align) as u64;
    assert(end == a + p * align);
    assert(extent_end(a as int, p as int, align) == end);
    let t = taken(free, a, p, align);
    assert(valid_extent(a, s, align));
    if s > p {
        if free.contains_key(end) {
            assert(end != a);
            lemma_pos_mul(free[end] as int, align);
            assert(separate(a as int, s as int, end as int, free[end] as int, align));
            assert((s - p) * align > 0) by (nonlinear_arith)
                requires
                    s > p,
                    align > 0,
            ;
            assert(s * align == p * align + (s - p) * align) by (nonlinear_arith);
        }
        assert(t.contains_key(end) && t[end] == s - p);
        assert(clamp(p + (s - p), 0, u64::MAX as int) == s);
        assert(freed(t, a, p, align) =~= free);
    } else {
        assert(t =~= free.remove(a));
        assert(!t.contains_key(end));
        assert(freed(t, a, p, align) =~= free);
    }
    assert(used.insert(a, p).remove(a) =~= used);
}

/// Cutting a used extent out of itself leaves nothing of it in front or behind
pub proof fn lemma_split_around_whole(used: Map<u64, u64>, a: u64, s: u64, align: int)
    requires
        align > 0,
    ensures
        split_around(used, a, s, a, s, align) == used.remove(a),
{
    assert(pages_between(a as int, a as int, align) == 0);
    assert(pages_between(a + s * align, a + s * align, align) == 0);
}

/// The free extents after taking the first `pages` pages of the free extent at `a`
pub open spec fn taken(free: Map<u64, u64>, a: u64, pages: u64, align: int) -> Map<u64, u64> {
    if free[a] == pages {
        free.remove(a)
    } else {
        free.remove(a).insert((a + pages * align) as u64, (free[a] - pages) as u64)
    }
}

/// The used extents after `[pa, pa + ps * align)` is cut out of the used extent at `a`:
/// the space in front of and behind the part stays used
pub open spec fn split_around(used: Map<u64, u64>, a: u64, s: u64, pa: u64, ps: u64, align: int) -> Map<u64, u64> {
    let front_pages = pages_between(a as int, pa as int, align);
    let part_end = pa + ps * align;
    let rem_pages = pages_between(part_end, a + s * align, align);
    let without = used.remove(a);
    let with_front = if front_pages == 0 {
        without
    } else {
        without.insert(a, front_pages as u64)
    };
    if rem_pages == 0 {
        with_front
    } else {
        with_front.insert(part_end as u64, rem_pages as u64)
    }
}

/// The free extents after freeing `[a, a + s * align)`: merged with the free extent
/// that starts right behind it, if there is one
pub open spec fn freed(free: Map<u64, u64>, a: u64, s: u64, align: int) -> Map<u64, u64> {
    let end = extent_end(a as int, s as int, align) as u64;
    if free.contains_key(end) {
        free.remove(end).insert(a, clamp(s + free[end], 0, u64::MAX as int) as u64)
    } else {
        free.insert(a, s)
    }
}

} // verus!
