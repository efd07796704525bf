//! The double-indexed map of extents used by the allocators
use vstd::prelude::*;
use std::collections::{BTreeMap, BTreeSet};
use crate::misc::{lowest_one, is_power_of_two};
use crate::address::clamp;
use crate::non_null::AlignedNonNull;
use super::extent::{Extent, MutableExtent, RemainingExtents, extent_end, pages_between};
use super::layout::LayoutDescriptor;
use super::raw_alloc::{
    PartDeallocError, best_fit, covers, freed, keys_aligned, layout_consistent, lemma_freed_covers, lemma_freed_pages,
    lemma_merge_adds_pages, map_pages, suits, valid_extent,
};
use super::order::lemma_ascending_keys;
use vstd::std_specs::btree::{spec_btree_map_iter, spec_btree_keys_iter};
use vstd::std_specs::iter::IteratorSpec;

verus! {

broadcast use vstd::std_specs::btree::group_btree_axioms;

/// Resolves extent addresses to extent sizes (in pages)
pub struct AddressMap<const ALIGN: usize>(pub(crate) BTreeMap<u64, u64>);

impl<const ALIGN: usize> View for AddressMap<ALIGN> {
    type V = Map<u64, u64>;

    closed spec fn view(&self) -> Map<u64, u64> {
        self.0@
    }
}

impl<const ALIGN: usize> AddressMap<ALIGN> {
    pub fn new() -> (r: Self)
        ensures
            r@ == Map::<u64, u64>::empty(),
    {
        AddressMap(BTreeMap::new())
    }
}

/// Resolves address alignments to the set of addresses with that alignment
pub struct AlignMap<const ALIGN: usize>(pub(crate) BTreeMap<u64, BTreeSet<u64>>);

impl<const ALIGN: usize> View for AlignMap<ALIGN> {
    type V = Map<u64, BTreeSet<u64>>;

    closed spec fn view(&self) -> Map<u64, BTreeSet<u64>> {
        self.0@
    }
}

impl<const ALIGN: usize> AlignMap<ALIGN> {
    pub fn new() -> (r: Self)
        ensures
            r@ == Map::<u64, BTreeSet<u64>>::empty(),
    {
        AlignMap(BTreeMap::new())
    }
}

/// Resolves extent sizes to an `AlignMap` of all extents with that size
pub struct SizeMap<const ALIGN: usize>(pub(crate) BTreeMap<u64, AlignMap<ALIGN>>);

impl<const ALIGN: usize> View for SizeMap<ALIGN> {
    type V = Map<u64, AlignMap<ALIGN>>;

    closed spec fn view(&self) -> Map<u64, AlignMap<ALIGN>> {
        self.0@
    }
}

impl<const ALIGN: usize> SizeMap<ALIGN> {
    pub fn new() -> (r: Self)
        ensures
            r@ == Map::<u64, AlignMap<ALIGN>>::empty(),
    {
        SizeMap(BTreeMap::new())
    }
}

/// A set of either free or used extents
///
/// `map` resolves addresses to sizes, `size_index` resolves
/// size -> address alignment -> addresses, and the two always describe
/// the same extents
pub struct AllocMap<const ALIGN: usize> {
    /// Resolves addresses to extent sizes
    pub(crate) map: AddressMap<ALIGN>,
    /// Resolves extent size -> align -> addresses
    pub(crate) size_index: SizeMap<ALIGN>,
}

impl<const ALIGN: usize> View for AllocMap<ALIGN> {
    /// The extents as a map from starting address to page count
    type V = Map<u64, u64>;

    closed spec fn view(&self) -> Map<u64, u64> {
        self.map.0@
    }
}

impl<const ALIGN: usize> AllocMap<ALIGN> {
    /// The addresses recorded in the size index for `size` and `align`
    pub closed spec fn bucket(&self, size: u64, align: u64) -> Set<u64> {
        if self.size_index.0@.contains_key(size) && self.size_index.0@[size].0@.contains_key(
            align,
        ) {
            self.size_index.0@[size].0@[align]@
        } else {
            Set::empty()
        }
    }

    /// The size index records `addr` under `size` and `align`
    pub closed spec fn indexed(&self, size: u64, align: u64, addr: u64) -> bool {
        self.bucket(size, align).contains(addr)
    }

    /// The size index has a bucket for `size` and `align`
    pub closed spec fn has_bucket(&self, size: u64, align: u64) -> bool {
        self.size_index.0@.contains_key(size) && self.size_index.0@[size].0@.contains_key(align)
    }

    /// Well-formedness: the two indices describe the same nonempty extents,
    /// the size index holds no empty address set, and there are finitely many extents
    pub closed spec fn wf(&self) -> bool {
        &&& forall|a: u64| #[trigger]
            self.map.0@.contains_key(a) ==> a != 0 && self.map.0@[a] != 0 && self.indexed(
                self.map.0@[a],
                lowest_one(a),
                a,
            )
        &&& forall|s: u64, al: u64, a: u64| #[trigger]
            self.indexed(s, al, a) ==> self.map.0@.contains_key(a) && self.map.0@[a] == s && al
                == lowest_one(a)
        &&& forall|s: u64, al: u64| #[trigger]
            self.has_bucket(s, al) ==> !self.bucket(s, al).is_empty()
        &&& self.map.0@.dom().finite()
    }

    /// The size index records exactly the extents of the map, each under its page
    /// count and the alignment of its address
    pub proof fn lemma_indexed(&self, size: u64, align: u64, a: u64)
        requires
            self.wf(),
        ensures
            self.indexed(size, align, a) <==> (self@.contains_key(a) && self@[a] == size && align == lowest_one(a)),
    {
        if self@.contains_key(a) && self@[a] == size && align == lowest_one(a) {
            assert(self.indexed(self.map.0@[a], lowest_one(a), a));
        }
    }

    /// Every recorded extent has a nonzero address and size
    pub proof fn lemma_nonzero(&self, a: u64)
        requires
            self.wf(),
            self@.contains_key(a),
        ensures
            a != 0,
            self@[a] != 0,
    {
    }

    /// Neither index holds any entry, not even an empty size class
    pub closed spec fn is_pristine(&self) -> bool {
        self.map.0@.is_empty() && self.size_index.0@.is_empty()
    }

    /// Indicates whether neither index holds any entry
    pub fn is_blank(&self) -> (r: bool)
        ensures
            r == self.is_pristine(),
    {
        self.map.0.is_empty() && self.size_index.0.is_empty()
    }

    /// A pristine map holds no extents
    pub proof fn lemma_pristine_is_empty(&self)
        requires
            self.is_pristine(),
        ensures
            self@ == Map::<u64, u64>::empty(),
    {
        assert(self@ =~= Map::<u64, u64>::empty());
    }

    /// Returns the page count of the extent starting at `address`, if there is one
    pub fn size_at(&self, address: u64) -> (r: Option<u64>)
        ensures
            r == (if self@.contains_key(address) {
                Some(self@[address])
            } else {
                None
            }),
    {
        match self.map.0.get(&address) {
            Some(size) => Some(*size),
            None => None,
        }
    }

    /// Indicates whether the size index records `address` under `size` and `align`
    pub fn is_indexed(&self, size: u64, align: u64, address: u64) -> (r: bool)
        ensures
            r == self.indexed(size, align, address),
    {
        match self.size_index.0.get(&size) {
            Some(by_align) => match by_align.0.get(&align) {
                Some(addresses) => addresses.contains(&address),
                None => false,
            },
            None => false,
        }
    }

    /// Constructs an empty map
    pub fn uninit() -> (r: Self)
        ensures
            r.wf(),
            r.is_pristine(),
            r@ == Map::<u64, u64>::empty(),
    {
        let r = AllocMap { map: AddressMap::new(), size_index: SizeMap::new() };
        assert forall|s: u64, al: u64, a: u64| #[trigger] r.indexed(s, al, a) implies false by {}
        r
    }

    /// Records `a` under `size` and `align` in the size index
    fn add_indexed(&mut self, size: u64, align: u64, a: u64) -> (r: bool)
        ensures
            final(self).map == old(self).map,
            r == !old(self).indexed(size, align, a),
            forall|s: u64, al: u64| #[trigger]
                final(self).bucket(s, al) == (if s == size && al == align {
                    old(self).bucket(s, al).insert(a)
                } else {
                    old(self).bucket(s, al)
                }),
            forall|s: u64, al: u64| #[trigger]
                final(self).has_bucket(s, al) == (old(self).has_bucket(s, al) || (s == size && al
                    == align)),
    {
        let ghost old_self = *self;
        let mut by_align = match self.size_index.0.remove(&size) {
            Some(m) => m,
            None => AlignMap::new(),
        };
        let mut addresses = match by_align.0.remove(&align) {
            Some(s) => s,
            None => BTreeSet::new(),
        };
        assert(addresses@ == old_self.bucket(size, align));
        let inserted = addresses.insert(a);
        by_align.0.insert(align, addresses);
        self.size_index.0.insert(size, by_align);
        proof {
            assert forall|s: u64, al: u64| #[trigger]
                self.bucket(s, al) == (if s == size && al == align {
                    old_self.bucket(s, al).insert(a)
                } else {
                    old_self.bucket(s, al)
                }) by {
                if s == size && al != align && old_self.size_index.0@.contains_key(s) {
                    assert(self.size_index.0@[s].0@ == old_self.size_index.0@[s].0@.insert(
                        align,
                        addresses,
                    ));
                }
            }
            assert forall|s: u64, al: u64| #[trigger]
                self.has_bucket(s, al) == (old_self.has_bucket(s, al) || (s == size && al
                    == align)) by {
                if s == size && al != align && old_self.size_index.0@.contains_key(s) {
                    assert(self.size_index.0@[s].0@ == old_self.size_index.0@[s].0@.insert(
                        align,
                        addresses,
                    ));
                }
            }
        }
        inserted
    }

    /// Removes `a` from the size index bucket of `size` and `align`; the
    /// bucket itself is removed once it is empty
    fn remove_indexed(&mut self, size: u64, align: u64, a: u64) -> (r: bool)
        ensures
            final(self).map == old(self).map,
            r == old(self).indexed(size, align, a),
            forall|s: u64, al: u64| #[trigger]
                final(self).bucket(s, al) == (if s == size && al == align {
                    old(self).bucket(s, al).remove(a)
                } else {
                    old(self).bucket(s, al)
                }),
            forall|s: u64, al: u64| #[trigger]
                final(self).has_bucket(s, al) == (if s == size && al == align {
                    old(self).has_bucket(s, al) && !old(self).bucket(s, al).remove(a).is_empty()
                } else {
                    old(self).has_bucket(s, al)
                }),
    {
        let ghost old_self = *self;
        let mut by_align = match self.size_index.0.remove(&size) {
            Some(m) => m,
            None => {
                return false;
            },
        };
        if !by_align.0.contains_key(&align) {
            assert(by_align == old_self.size_index.0@[size]);
            self.size_index.0.insert(size, by_align);
            proof {
                assert(self.size_index.0@ =~= old_self.size_index.0@);
            }
            return false;
        }
        let mut addresses = match by_align.0.remove(&align) {
            Some(s) => s,
            None => BTreeSet::new(),
        };
        assert(addresses@ == old_self.bucket(size, align));
        let removed = addresses.remove(&a);
        if !addresses.is_empty() {
            by_align.0.insert(align, addresses);
        }
        self.size_index.0.insert(size, by_align);
        proof {
            assert forall|s: u64, al: u64| #[trigger]
                self.bucket(s, al) == (if s == size && al == align {
                    old_self.bucket(s, al).remove(a)
                } else {
                    old_self.bucket(s, al)
                }) by {
                if s == size && al == align {
                    if addresses@.is_empty() {
                        assert(old_self.bucket(s, al).remove(a) =~= Set::empty());
                    }
                }
            }
            assert forall|s: u64, al: u64| #[trigger]
                self.has_bucket(s, al) == (if s == size && al == align {
                    old_self.has_bucket(s, al) && !old_self.bucket(s, al).remove(a).is_empty()
                } else {
                    old_self.has_bucket(s, al)
                }) by {
                if s == size && al == align {
                } else if s == size {
                }
            }
        }
        removed
    }

    /// A map whose size index holds the same buckets as that of a well-formed map with
    /// the same extents is well-formed
    proof fn lemma_wf_same_index(&self, other: Self)
        requires
            other.wf(),
            self.map == other.map,
            forall|s: u64, al: u64| #[trigger] self.bucket(s, al) == other.bucket(s, al),
            forall|s: u64, al: u64| #[trigger] self.has_bucket(s, al) ==> other.has_bucket(s, al),
        ensures
            self.wf(),
    {
        assert forall|s: u64, al: u64, x: u64| #[trigger] self.indexed(s, al, x) implies self.map.0@.contains_key(x)
            && self.map.0@[x] == s && al == lowest_one(x) by {
            assert(other.indexed(s, al, x));
        }
        assert forall|s: u64, al: u64| #[trigger] self.has_bucket(s, al) implies !self.bucket(s, al).is_empty() by {
            assert(other.has_bucket(s, al));
        }
        assert forall|x: u64| #[trigger] self.map.0@.contains_key(x) implies x != 0 && self.map.0@[x] != 0
            && self.indexed(self.map.0@[x], lowest_one(x), x) by {
            assert(other.indexed(self.map.0@[x], lowest_one(x), x));
        }
    }

    /// Recording a new extent in the map and under its size and alignment in the size
    /// index keeps the map well-formed
    proof fn lemma_wf_after_add(&self, old_self: Self, size: u64, align: u64, a: u64)
        requires
            old_self.wf(),
            !old_self.map.0@.contains_key(a),
            a != 0,
            size != 0,
            align == lowest_one(a),
            self.map.0@ == old_self.map.0@.insert(a, size),
            forall|s: u64, al: u64| #[trigger]
                self.bucket(s, al) == (if s == size && al == align {
                    old_self.bucket(s, al).insert(a)
                } else {
                    old_self.bucket(s, al)
                }),
            forall|s: u64, al: u64| #[trigger]
                self.has_bucket(s, al) == (old_self.has_bucket(s, al) || (s == size && al == align)),
        ensures
            self.wf(),
    {
        assert(!old_self.indexed(size, align, a));
        assert forall|x: u64| #[trigger] self.map.0@.contains_key(x) implies x != 0 && self.map.0@[x] != 0
            && self.indexed(self.map.0@[x], lowest_one(x), x) by {
            assert(self.bucket(self.map.0@[x], lowest_one(x)) == (if self.map.0@[x] == size && lowest_one(x)
                == align {
                old_self.bucket(self.map.0@[x], lowest_one(x)).insert(a)
            } else {
                old_self.bucket(self.map.0@[x], lowest_one(x))
            }));
        }
        assert forall|s: u64, al: u64, x: u64| #[trigger] self.indexed(s, al, x) implies self.map.0@.contains_key(x)
            && self.map.0@[x] == s && al == lowest_one(x) by {
            assert(self.bucket(s, al) == (if s == size && al == align {
                old_self.bucket(s, al).insert(a)
            } else {
                old_self.bucket(s, al)
            }));
            if x != a {
                assert(old_self.indexed(s, al, x));
            }
        }
        assert forall|s: u64, al: u64| #[trigger] self.has_bucket(s, al) implies !self.bucket(s, al).is_empty() by {
            assert(self.bucket(s, al) == (if s == size && al == align {
                old_self.bucket(s, al).insert(a)
            } else {
                old_self.bucket(s, al)
            }));
            if s == size && al == align {
                assert(self.bucket(s, al).contains(a));
            } else {
                assert(old_self.has_bucket(s, al));
            }
        }
    }

    /// Inserts the extent into the `map` and the `size_index`
    /// - Does not take care of fragmentation
    ///
    /// Returns `Err` (and changes nothing) if an extent already starts at the same address
    pub fn insert_extent_fragmented(&mut self, ext: &MutableExtent<ALIGN>) -> (r: Result<(), ()>)
        requires
            old(self).wf(),
        ensures
            final(self).wf(),
            r is Err <==> old(self)@.contains_key(ext.start_spec()),
            r is Err ==> final(self)@ == old(self)@,
            r is Ok ==> final(self)@ == old(self)@.insert(ext.start_spec(), ext.size_spec()),
    {
        let addr = ext.address();
        let a = addr.as_inner();
        if self.map.0.contains_key(&a) {
            return Err(());
        }
        let size = ext.size();
        let align = addr.get_align();
        let ghost old_self = *self;
        self.map.0.insert(a, size);
        let inserted = self.add_indexed(size, align, a);
        proof {
            self.lemma_wf_after_add(old_self, size, align, a);
        }
        Ok(())
    }

    /// An extent of the map satisfies the size and alignment of the layout
    pub open spec fn suits(&self, a: u64, pages: u64, align: u64) -> bool {
        self@.contains_key(a) && self@[a] >= pages && lowest_one(a) >= align
    }

    /// Finds an extent in the map that satisfies the given `layout`: the smallest
    /// size class, in it the smallest sufficient alignment class, and in it the
    /// highest address
    ///
    /// The returned extent is the one found in the map, it is not split to
    /// fit the `layout`. Every extent of the map starts on the `ALIGN` boundary
    pub fn find_suitable<Lay: LayoutDescriptor<ALIGN>>(&self, layout: &Lay) -> (r: Option<
        MutableExtent<ALIGN>,
    >)
        requires
            self.wf(),
            keys_aligned(self@, ALIGN as int),
        ensures
            r matches Some(e) ==> best_fit(self@, e.start_spec(), layout.size_spec(), layout.align_spec())
                && self@[e.start_spec()] == e.size_spec(),
            r is None ==> forall|a: u64|
                !#[trigger] self.suits(a, layout.size_spec(), layout.align_spec()),
    {
        let pages = layout.size();
        let align = layout.align();
        let size_iter = self.size_index.0.iter();
        let ghost sizes = size_iter.remaining();
        proof {
            let keys = sizes.map_values(|kv: (&u64, &AlignMap<ALIGN>)| *kv.0);
            lemma_ascending_keys(keys);
            assert forall|x: int, y: int| 0 <= x < y < sizes.len() implies *sizes[x].0 < *sizes[y].0 by {
                assert(keys[x] == *sizes[x].0 && keys[y] == *sizes[y].0);
            }
        }
        let ghost mut seen: int = 0;
        for entry in it: size_iter
            invariant
                self.wf(),
                keys_aligned(self@, ALIGN as int),
                pages == layout.size_spec(),
                align == layout.align_spec(),
                it.seq() == sizes,
                sizes == spec_btree_map_iter(&self.size_index.0).remaining(),
                forall|x: int, y: int| 0 <= x < y < sizes.len() ==> *sizes[x].0 < *sizes[y].0,
                seen == it.index(),
                forall|j: int, al: u64, a: u64|
                    0 <= j < seen && #[trigger] self.indexed(*sizes[j].0, al, a) ==> !(*sizes[j].0
                        >= pages && al >= align),
        {
            let (size, by_align) = entry;
            assert(entry == sizes[seen]);
            assert(self.size_index.0@.contains_key(*size) && self.size_index.0@[*size] == *by_align);
            if *size >= pages {
                let align_iter = by_align.0.iter();
                let ghost aligns = align_iter.remaining();
                proof {
                    let keys = aligns.map_values(|kv: (&u64, &BTreeSet<u64>)| *kv.0);
                    lemma_ascending_keys(keys);
                    assert forall|x: int, y: int| 0 <= x < y < aligns.len() implies *aligns[x].0 < *aligns[y].0 by {
                        assert(keys[x] == *aligns[x].0 && keys[y] == *aligns[y].0);
                    }
                }
                let ghost mut seen_aligns: int = 0;
                for inner in it2: align_iter
                    invariant
                        self.wf(),
                        keys_aligned(self@, ALIGN as int),
                        pages == layout.size_spec(),
                        align == layout.align_spec(),
                        *size >= pages,
                        self.size_index.0@.contains_key(*size),
                        self.size_index.0@[*size] == *by_align,
                        *size == *sizes[seen].0,
                        0 <= seen < sizes.len(),
                        forall|x: int, y: int| 0 <= x < y < sizes.len() ==> *sizes[x].0 < *sizes[y].0,
                        sizes == spec_btree_map_iter(&self.size_index.0).remaining(),
                        forall|j: int, al: u64, a: u64|
                            0 <= j < seen && #[trigger] self.indexed(*sizes[j].0, al, a) ==> !(*sizes[j].0
                                >= pages && al >= align),
                        it2.seq() == aligns,
                        aligns == spec_btree_map_iter(&by_align.0).remaining(),
                        forall|x: int, y: int| 0 <= x < y < aligns.len() ==> *aligns[x].0 < *aligns[y].0,
                        seen_aligns == it2.index(),
                        forall|k: int, a: u64|
                            0 <= k < seen_aligns && #[trigger] self.indexed(*size, *aligns[k].0, a)
                                ==> *aligns[k].0 < align,
                {
                    let (al, addresses) = inner;
                    assert(inner == aligns[seen_aligns]);
                    assert(by_align.0@.contains_key(*al) && by_align.0@[*al] == *addresses);
                    assert(self.has_bucket(*size, *al));
                    if *al >= align {
                        let mut last: Option<u64> = None;
                        let ghost addrs = spec_btree_keys_iter(addresses).remaining();
                        let ghost mut seen_addrs: int = 0;
                        for a in it3: addresses.iter()
                            invariant
                                it3.seq() == addrs,
                                addrs == spec_btree_keys_iter(addresses).remaining(),
                                seen_addrs == it3.index(),
                                last matches Some(x) ==> addresses@.contains(x) && forall|k: int|
                                    0 <= k < seen_addrs ==> *addrs[k] <= x,
                                seen_addrs > 0 ==> last is Some,
                        {
                            assert(a == addrs[seen_addrs]);
                            let keep = match last {
                                Some(x) => x >= *a,
                                None => false,
                            };
                            if !keep {
                                proof {
                                    assert(addrs.unref().to_set().contains(*a));
                                }
                                last = Some(*a);
                            }
                            proof {
                                seen_addrs = seen_addrs + 1;
                            }
                        }
                        proof {
                            if last is None {
                                assert(!self.bucket(*size, *al).is_empty());
                                let x = self.bucket(*size, *al).choose();
                                assert(addresses@.contains(x));
                                assert(addrs.unref().to_set().contains(x));
                                assert(addrs.unref().contains(x));
                                assert(false);
                            }
                        }
                        match last {
                            Some(a) => {
                                assert(self.indexed(*size, *al, a));
                                proof {
                                    self.lemma_nonzero(a);
                                    assert forall|b: u64| #[trigger] suits(self@, b, pages, align) implies self@[b]
                                        >= self@[a] by {
                                        let sb = self@[b];
                                        let lb = lowest_one(b);
                                        assert(self.indexed(sb, lb, b));
                                        assert(sizes.contains((&sb, &self.size_index.0@[sb])));
                                        let j = choose|j: int| 0 <= j < sizes.len() && sizes[j] == (&sb, &self.size_index.0@[sb]);
                                        assert(self.indexed(*sizes[j].0, lb, b));
                                    }
                                    assert forall|b: u64| #[trigger] suits(self@, b, pages, align) && self@[b]
                                        == self@[a] implies lowest_one(b) >= lowest_one(a) by {
                                        let lb = lowest_one(b);
                                        assert(self.indexed(*size, lb, b));
                                        assert(self.has_bucket(*size, lb));
                                        assert(aligns.contains((&lb, &by_align.0@[lb])));
                                        let k = choose|k: int| 0 <= k < aligns.len() && aligns[k] == (&lb, &by_align.0@[lb]);
                                        assert(self.indexed(*size, *aligns[k].0, b));
                                    }
                                    assert forall|b: u64| #[trigger] suits(self@, b, pages, align) && self@[b]
                                        == self@[a] && lowest_one(b) == lowest_one(a) implies b <= a by {
                                        assert(self.indexed(*size, *al, b));
                                        assert(addresses@.contains(b));
                                        assert(addrs.unref().to_set().contains(b));
                                        let k = choose|k: int| 0 <= k < addrs.len() && *addrs[k] == b;
                                    }
                                }
                                assert(self@.contains_key(a));
                                return Some(
                                    MutableExtent::new(AlignedNonNull::new_unchecked(a), *size),
                                );
                            },
                            None => {},
                        }
                    }
                    proof {
                        seen_aligns = seen_aligns + 1;
                    }
                }
                proof {
                    assert forall|al: u64, a: u64| #[trigger] self.indexed(*size, al, a) implies !(*size
                        >= pages && al >= align) by {
                        assert(self.has_bucket(*size, al));
                        assert(aligns.contains((&al, &by_align.0@[al])));
                        let k = choose|k: int| 0 <= k < aligns.len() && aligns[k] == (&al, &by_align.0@[al]);
                        assert(self.indexed(*size, *aligns[k].0, a));
                    }
                }
            }
            proof {
                seen = seen + 1;
            }
        }
        proof {
            assert forall|a: u64| !#[trigger] self.suits(a, pages, align) by {
                if self.suits(a, pages, align) {
                    let s = self@[a];
                    let al = lowest_one(a);
                    assert(self.indexed(s, al, a));
                    assert(sizes.contains((&s, &self.size_index.0@[s])));
                    let j = choose|j: int| 0 <= j < sizes.len() && sizes[j] == (&s, &self.size_index.0@[s]);
                    assert(self.indexed(*sizes[j].0, al, a));
                }
            }
        }
        None
    }

    /// Removes the extent from the map
    ///
    /// Returns `Err` (and changes nothing) if the extent is not registered
    /// with exactly this address and size
    pub fn extract_exact_extent(&mut self, extent: MutableExtent<ALIGN>) -> (r: Result<(), ()>)
        requires
            old(self).wf(),
        ensures
            final(self).wf(),
            r is Ok <==> old(self)@.contains_key(extent.start_spec()) && old(self)@[extent.start_spec()]
                == extent.size_spec(),
            r is Ok ==> final(self)@ == old(self)@.remove(extent.start_spec()),
            r is Err ==> final(self)@ == old(self)@,
    {
        let size = extent.size();
        let addr = extent.address();
        let a = addr.as_inner();
        let align = addr.get_align();
        let ghost old_self = *self;
        if !self.remove_indexed(size, align, a) {
            proof {
                assert forall|s: u64, al: u64| #[trigger] self.bucket(s, al) == old_self.bucket(s, al) by {
                    if s == size && al == align {
                        assert(old_self.bucket(s, al).remove(a) =~= old_self.bucket(s, al));
                    }
                }
                self.lemma_wf_same_index(old_self);
            }
            return Err(());
        }
        let ghost mid = *self;
        self.map.0.remove(&a);
        proof {
            assert forall|s: u64, al: u64| #[trigger] self.bucket(s, al) == mid.bucket(s, al)
                && self.has_bucket(s, al) == mid.has_bucket(s, al) by {}
            assert forall|x: u64| #[trigger] self.map.0@.contains_key(x) implies x != 0
                && self.map.0@[x] != 0 && self.indexed(self.map.0@[x], lowest_one(x), x) by {
                assert(old_self.indexed(old_self.map.0@[x], lowest_one(x), x));
                assert(mid.bucket(self.map.0@[x], lowest_one(x)) == (if self.map.0@[x] == size
                    && lowest_one(x) == align {
                    old_self.bucket(self.map.0@[x], lowest_one(x)).remove(a)
                } else {
                    old_self.bucket(self.map.0@[x], lowest_one(x))
                }));
                assert(self.bucket(self.map.0@[x], lowest_one(x)) == mid.bucket(self.map.0@[x], lowest_one(x)));
            }
            assert forall|s: u64, al: u64, x: u64| #[trigger] self.indexed(s, al, x) implies self.map.0@.contains_key(x)
                && self.map.0@[x] == s && al == lowest_one(x) by {
                assert(self.bucket(s, al) == mid.bucket(s, al));
                assert(mid.bucket(s, al) == (if s == size && al == align {
                    old_self.bucket(s, al).remove(a)
                } else {
                    old_self.bucket(s, al)
                }));
                assert(old_self.indexed(s, al, x));
            }
            assert forall|s: u64, al: u64| #[trigger] self.has_bucket(s, al) implies !self.bucket(
                s,
                al,
            ).is_empty() by {
                assert(self.bucket(s, al) == mid.bucket(s, al));
                assert(self.has_bucket(s, al) == mid.has_bucket(s, al));
                assert(mid.has_bucket(s, al) == (if s == size && al == align {
                    old_self.has_bucket(s, al) && !old_self.bucket(s, al).remove(a).is_empty()
                } else {
                    old_self.has_bucket(s, al)
                }));
                assert(mid.bucket(s, al) == (if s == size && al == align {
                    old_self.bucket(s, al).remove(a)
                } else {
                    old_self.bucket(s, al)
                }));
                if !(s == size && al == align) {
                    assert(old_self.has_bucket(s, al));
                }
            }
        }
        Ok(())
    }

    /// Inserts the extent into the map and merges it with the extent that starts right
    /// behind it, if there is one
    ///
    /// The caller guarantees that no registered extent other than that neighbor
    /// starts at the address of `ext` when a neighbor exists
    pub fn insert_extent(&mut self, ext: MutableExtent<ALIGN>) -> (r: Result<(), ()>)
        requires
            old(self).wf(),
            ({
                let end = extent_end(ext.start_spec() as int, ext.size_spec() as int, ALIGN as int) as u64;
                old(self)@.contains_key(end) ==> !old(self)@.remove(end).contains_key(
                    ext.start_spec(),
                )
            }),
        ensures
            final(self).wf(),
            ({
                let start = ext.start_spec();
                let end = extent_end(start as int, ext.size_spec() as int, ALIGN as int) as u64;
                if old(self)@.contains_key(end) {
                    &&& r is Ok
                    &&& final(self)@ == old(self)@.remove(end).insert(
                        start,
                        clamp(ext.size_spec() + old(self)@[end], 0, u64::MAX as int) as u64,
                    )
                } else {
                    &&& r is Err <==> old(self)@.contains_key(start)
                    &&& r is Err ==> final(self)@ == old(self)@
                    &&& r is Ok ==> final(self)@ == old(self)@.insert(start, ext.size_spec())
                }
            }),
            layout_consistent(old(self)@, Map::<u64, u64>::empty().insert(ext.start_spec(), ext.size_spec()), ALIGN as int)
                ==> {
                let start = ext.start_spec();
                let size = ext.size_spec();
                let end = extent_end(start as int, size as int, ALIGN as int) as u64;
                &&& r is Ok
                &&& old(self)@.contains_key(end) ==> final(self)@[start] == size + old(self)@[end]
                    && !final(self)@.contains_key(end)
                &&& map_pages(final(self)@) == map_pages(old(self)@) + size
                &&& forall|x: int| #[trigger] covers(final(self)@, ALIGN as int, x) == (covers(old(self)@, ALIGN as int, x)
                    || start <= x < start + size * ALIGN)
            },
    {
        proof {
            if layout_consistent(old(self)@, Map::<u64, u64>::empty().insert(ext.start_spec(), ext.size_spec()), ALIGN as int) {
                lemma_insert_extent_adds_pages(old(self)@, ext.start_spec(), ext.size_spec(), ALIGN as int);
            }
        }
        let end_address = ext.end_address();
        let e = end_address.as_inner();
        match self.map.0.get(&e) {
            Some(neigh_size) => {
                let neigh_size = *neigh_size;
                proof {
                    self.lemma_nonzero(e);
                }
                let neighbor = MutableExtent::new(end_address, neigh_size);
                let removed = self.extract_exact_extent(neighbor);
                let mut merged = ext;
                merged.merge_unchecked(neighbor);
                let res = self.insert_extent_fragmented(&merged);
                proof {
                    assert(removed is Ok);
                    assert(res is Ok);
                    assert(self@ == freed(old(self)@, ext.start_spec(), ext.size_spec(), ALIGN as int));
                }
                res
            },
            None => {
                let res = self.insert_extent_fragmented(&ext);
                proof {
                    if res is Ok {
                        assert(self@ == freed(old(self)@, ext.start_spec(), ext.size_spec(), ALIGN as int));
                    }
                }
                res
            },
        }
    }

    /// Removes the extent from the map, keeps its first `layout.size()` pages
    /// and inserts the remaining space back into the map
    ///
    /// Returns `Err` (and changes nothing) if the extent is not registered or
    /// the remaining space cannot be registered
    pub fn extract_extent<Lay: LayoutDescriptor<ALIGN>>(
        &mut self,
        extent: MutableExtent<ALIGN>,
        layout: Lay,
    ) -> (r: Result<MutableExtent<ALIGN>, ()>)
        requires
            old(self).wf(),
            layout.size_spec() <= extent.size_spec(),
        ensures
            final(self).wf(),
            ({
                let start = extent.start_spec();
                let size = extent.size_spec();
                let pages = layout.size_spec();
                let rest = extent_end(start as int, pages as int, ALIGN as int) as u64;
                if !(old(self)@.contains_key(start) && old(self)@[start] == size) {
                    r is Err && final(self)@ == old(self)@
                } else if pages == size {
                    r is Ok && final(self)@ == old(self)@.remove(start)
                } else if old(self)@.remove(start).contains_key(rest) {
                    r is Err && final(self)@ == old(self)@
                } else {
                    r is Ok && final(self)@ == old(self)@.remove(start).insert(rest, (size - pages) as u64)
                }
            }),
            r matches Ok(e) ==> e.start_spec() == extent.start_spec() && e.size_spec()
                == layout.size_spec(),
    {
        let whole = extent;
        let mut extent = extent;
        if let Err(_) = self.extract_exact_extent(extent) {
            return Err(());
        }
        let pages = layout.size();
        match extent.split_unchecked(pages) {
            Some(put_back) => {
                if let Err(_) = self.insert_extent_fragmented(&put_back) {
                    let restored = self.insert_extent_fragmented(&whole);
                    proof {
                        assert(restored is Ok);
                        assert(self@ =~= old(self)@);
                    }
                    return Err(());
                }
            },
            None => {},
        }
        Ok(extent)
    }

    /// Extracts the `part` of the `ext`ent from the map: `ext` is removed and the
    /// space of `ext` in front of and behind `part` is inserted back
    pub fn extract_extent_part(&mut self, ext: MutableExtent<ALIGN>, part: MutableExtent<ALIGN>) -> (r:
        Result<(), PartExtractionError>)
        requires
            old(self).wf(),
            is_power_of_two(ALIGN as int),
        ensures
            final(self).wf(),
            ({
                let start = ext.start_spec();
                let ext_end = extent_end(start as int, ext.size_spec() as int, ALIGN as int);
                let part_end = extent_end(
                    part.start_spec() as int,
                    part.size_spec() as int,
                    ALIGN as int,
                );
                let front_pages = pages_between(start as int, part.start_spec() as int, ALIGN as int);
                let rem_pages = pages_between(part_end, ext_end, ALIGN as int);
                let with_front = if front_pages == 0 {
                    old(self)@.remove(start)
                } else {
                    old(self)@.remove(start).insert(start, front_pages as u64)
                };
                if !(part.start_spec() >= start && part_end <= ext_end) {
                    r == Err::<(), PartExtractionError>(PartExtractionError::PartDoesNotFit)
                        && final(self)@ == old(self)@
                } else if !(old(self)@.contains_key(start) && old(self)@[start] == ext.size_spec()) {
                    r == Err::<(), PartExtractionError>(PartExtractionError::UnregisteredExtent)
                        && final(self)@ == old(self)@
                } else if rem_pages == 0 {
                    r is Ok && final(self)@ == with_front
                } else if with_front.contains_key(part_end as u64) {
                    r == Err::<(), PartExtractionError>(PartExtractionError::InternalError)
                        && final(self)@ == old(self)@
                } else {
                    r is Ok && final(self)@ == with_front.insert(part_end as u64, rem_pages as u64)
                }
            }),
    {
        let RemainingExtents { front, remainder } = match part.remove_from(ext) {
            Ok(rem_exts) => rem_exts,
            Err(_) => return Err(PartExtractionError::PartDoesNotFit),
        };
        if let Err(_) = self.extract_exact_extent(ext) {
            return Err(PartExtractionError::UnregisteredExtent);
        }
        let ghost removed = self@;
        if let Some(front) = &front {
            let inserted = self.insert_extent_fragmented(front);
            proof {
                assert(inserted is Ok);
            }
        }
        if let Some(rem) = remainder {
            if let Err(_) = self.insert_extent_fragmented(&rem) {
                if let Some(front) = front {
                    let extracted = self.extract_exact_extent(front);
                    proof {
                        assert(extracted is Ok);
                    }
                }
                let restored = self.insert_extent_fragmented(&ext);
                proof {
                    assert(restored is Ok);
                    assert(self@ =~= old(self)@);
                }
                return Err(PartExtractionError::InternalError);
            }
        }
        Ok(())
    }

    /// Splits the registered extent into its first `size` pages and the rest,
    /// keeping both in the map
    ///
    /// Returns `Err` (and changes nothing) if the extent is not registered or
    /// the rest cannot be registered
    pub fn split_extent(&mut self, ext: MutableExtent<ALIGN>, size: u64) -> (r: Result<(), ()>)
        requires
            old(self).wf(),
            0 < size < ext.size_spec(),
        ensures
            final(self).wf(),
            ({
                let start = ext.start_spec();
                let rest = extent_end(start as int, size as int, ALIGN as int) as u64;
                if !(old(self)@.contains_key(start) && old(self)@[start] == ext.size_spec()) {
                    r is Err && final(self)@ == old(self)@
                } else if rest == start || old(self)@.contains_key(rest) {
                    r is Err && final(self)@ == old(self)@
                } else {
                    r is Ok && final(self)@ == old(self)@.insert(start, size).insert(
                        rest,
                        (ext.size_spec() - size) as u64,
                    )
                }
            }),
    {
        if let Err(_) = self.extract_exact_extent(ext) {
            return Err(());
        }
        let whole = ext;
        let mut ext = ext;
        let remainder = match ext.split_unchecked(size) {
            Some(rem) => rem,
            None => {
                proof {
                    assert(false);
                }
                return Err(());
            },
        };
        let first = self.insert_extent_fragmented(&ext);
        proof {
            assert(first is Ok);
        }
        match self.insert_extent_fragmented(&remainder) {
            Ok(_) => {
                proof {
                    assert(old(self)@.remove(whole.start_spec()).insert(whole.start_spec(), size)
                        =~= old(self)@.insert(whole.start_spec(), size));
                }
                Ok(())
            },
            Err(_) => {
                let extracted = self.extract_exact_extent(ext);
                let restored = self.insert_extent_fragmented(&whole);
                proof {
                    assert(extracted is Ok);
                    assert(restored is Ok);
                    assert(self@ =~= old(self)@);
                }
                Err(())
            },
        }
    }
}

/// Inserting an extent that lies apart from the extents of the map and inside the
/// address space, as `AllocMap::insert_extent` does (the map it leaves is `freed`),
/// adds exactly its pages: merged with the extent right behind it, the extent holds
/// the pages of both
pub proof fn lemma_insert_extent_adds_pages(m: Map<u64, u64>, a: u64, s: u64, align: int)
    requires
        layout_consistent(m, Map::<u64, u64>::empty().insert(a, s), align),
        m.dom().finite(),
    ensures
        ({
            let end = extent_end(a as int, s as int, align) as u64;
            let merged = freed(m, a, s, align);
            &&& m.contains_key(end) ==> merged[a] == s + m[end] && !merged.contains_key(end)
            &&& map_pages(merged) == map_pages(m) + s
            &&& forall|x: int| #[trigger] covers(merged, align, x) == (covers(m, align, x) || a <= x < a + s * align)
        }),
{
    let used = Map::<u64, u64>::empty().insert(a, s);
    assert(used.contains_key(a) && used[a] == s);
    let end = extent_end(a as int, s as int, align) as u64;
    assert(valid_extent(a, s, align));
    assert(end == (a + s * align) as u64);
    if m.contains_key(end) {
        lemma_merge_adds_pages(m, used, a, align);
    }
    lemma_freed_pages(m, used, a, align);
    assert forall|x: int| #[trigger] covers(freed(m, a, s, align), align, x) == (covers(m, align, x) || a <= x < a + s
        * align) by {
        lemma_freed_covers(m, used, a, align, x);
    }
}

/// Returned by the `extract_extent_part()` function
#[derive(PartialEq, Eq, Structural)]
pub enum PartExtractionError {
    /// The given extent was not found in the map
    UnregisteredExtent,
    /// The part extent does not fit into the bigger extent
    PartDoesNotFit,
    /// Something went wrong, but the map was recovered
    InternalError,
}

impl PartExtractionError {
    pub fn into_dealloc_error(self) -> (r: PartDeallocError)
        ensures
            self == PartExtractionError::UnregisteredExtent ==> r == PartDeallocError::UnregisteredExtent,
            self == PartExtractionError::PartDoesNotFit ==> r == PartDeallocError::PartDoesNotFit,
            self == PartExtractionError::InternalError ==> r == PartDeallocError::InternalError,
    {
        match self {
            PartExtractionError::UnregisteredExtent => PartDeallocError::UnregisteredExtent,
            PartExtractionError::PartDoesNotFit => PartDeallocError::PartDoesNotFit,
            PartExtractionError::InternalError => PartDeallocError::InternalError,
        }
    }
}

} // verus!
