use lib::rand::TestRng;
use lib::extent_alloc::allocator::ExtentAllocator;
use lib::extent_alloc::alloc_map::AllocMap;
use lib::extent_alloc::cached_alloc::CachedExtentAllocator;
use lib::extent_alloc::extent::{Extent, InternalExtent, MutableExtent, RawExtent, ScopedExtent, TakenExtent};
use lib::extent_alloc::layout::{ExtentLayout, LayoutDescriptor};
use lib::extent_alloc::raw_alloc::{PartDeallocError, RawExtentAlloc};
use lib::non_null::AlignedNonNull;
use lib::paging::physical::{PhysicalExtent, PhysicalLayout};

/// The seed of the randomized checks
fn seed() -> Result<usize, ()> {
    Ok(0x5DEE_CE66_D1CE_4E5B)
}

/// The library's generator, seeded for repeatable checks
struct Rng(TestRng<fn() -> Result<usize, ()>>);

impl Rng {
    fn new() -> Rng {
        let randomizer: fn() -> Result<usize, ()> = seed;
        Rng(TestRng::new(randomizer).expect("the seed is always there"))
    }

    fn next(&mut self) -> u64 {
        self.0.next() as u64
    }

    /// A number in `start..end`
    fn next_range(&mut self, start: u64, end: u64) -> u64 {
        self.0.next_range(start as usize, end as usize) as u64
    }
}

type Taken = TakenExtent<1024, InternalExtent<1024>>;

fn internal(address: u64, pages: u64) -> InternalExtent<1024> {
    InternalExtent::new(AlignedNonNull::new(address).expect("aligned address"), pages)
}

fn layout(pages: u64) -> ExtentLayout<1024> {
    ExtentLayout::from_pages(pages).ok().expect("valid page count")
}

/// Extents lying one behind the other, each randomly free or used
fn random_extents(count: u64, rand: &mut Rng, min_size: u64, max_size: u64) -> Vec<Taken> {
    let mut vec: Vec<Taken> = Vec::new();
    let mut address: u64 = 1;
    for _ in 0..count {
        let pages: u64 = rand.next_range(min_size, max_size);
        let ext = InternalExtent::new(AlignedNonNull::new_up(address), pages);
        address = address.saturating_add(pages.saturating_mul(1024));
        if rand.next() & 1 != 0 {
            vec.push(TakenExtent::Used(ext));
        } else {
            vec.push(TakenExtent::Free(ext));
        }
    }
    vec
}

#[test]
fn init() {
    let mut rand = Rng::new();
    for _ in 0..2000 {
        let mut extent_alloc: ExtentAllocator<1024, InternalExtent<1024>, ExtentLayout<1024>> = ExtentAllocator::uninit();
        let count: u64 = rand.next_range(0, 1500);
        let extents = random_extents(count, &mut rand, 1, 10240);
        let init_result = extent_alloc.initialize(extents.clone());
        assert!(matches!(init_result, Ok(())));
        let alloc = extent_alloc.inner();
        for ext in extents {
            match ext {
                TakenExtent::Free(ext) => {
                    let map = alloc.free_map_ref();
                    match map.size_at(ext.address().get()) {
                        Some(size) => assert!(size == ext.size()),
                        None => panic!("map does not contain address -> size"),
                    }
                    assert!(
                        map.is_indexed(ext.size(), ext.address().get_align(), ext.address().get()),
                        "index:by_align does not contains correct address"
                    );
                },
                TakenExtent::Used(ext) => {
                    match alloc.used_map().get(&ext.address().get()) {
                        Some(size) => assert!(*size == ext.size()),
                        None => panic!("map does not contain address -> size"),
                    }
                },
            }
        }
    }
}

#[test]
fn find_suitable_in() {
    let mut rand = Rng::new();
    for _ in 0..4000 {
        let count: u64 = rand.next_range(1, 10);
        let exts = random_extents(count, &mut rand, 128, 256);
        let mut allocator: ExtentAllocator<1024> = ExtentAllocator::uninit();
        assert!(matches!(allocator.initialize(exts.clone()), Ok(())));
        let layout = layout(rand.next_range(128, 256));
        let suitable = match allocator.inner().free_map_ref().find_suitable(&layout) {
            Some(ext) => ext,
            None => {
                let found = exts.iter().any(|ext| match ext {
                    TakenExtent::Free(ext) => ext.size() >= layout.size() && ext.address().get_align() >= layout.align(),
                    _ => false,
                });
                assert!(!found, "suitable extent found manually but not by the tested function");
                continue;
            },
        };
        assert!(suitable.address().get_align() >= layout.align());
        assert!(suitable.size() >= layout.size());
        exts.iter()
            .find(|ext| match ext {
                TakenExtent::Free(ext) => ext.address() == suitable.address() && ext.size() == suitable.size(),
                _ => false,
            })
            .expect("suitable extent found by the tested function but not by the test");
    }
}

#[test]
fn allocate_exact_picks_the_best_fit() {
    let mut alloc: RawExtentAlloc<1024> = RawExtentAlloc::uninit();
    let exts: Vec<Taken> = vec![
        TakenExtent::Free(internal(0x10_0000, 10)),
        TakenExtent::Free(internal(0x20_0000, 7)),
        TakenExtent::Free(internal(0x30_0000, 5)),
        TakenExtent::Free(internal(0x60_0000, 7)),
        TakenExtent::Used(internal(0x50_0000, 3)),
    ];
    assert!(alloc.initialize(exts).is_ok());
    // the two seven-page extents are both aligned to 2MB; the higher one wins
    let e = alloc.allocate_exact(&layout(6)).expect("a suitable extent exists");
    assert_eq!((e.address().get(), e.size()), (0x60_0000, 6));
    assert_eq!(alloc.free_map_ref().size_at(0x60_0000 + 6 * 1024), Some(1));
    assert_eq!(alloc.free_map_ref().size_at(0x60_0000), None);
    assert_eq!(alloc.used_map().get(&0x60_0000), Some(&6));
    // the smallest sufficient extent wins
    let big = alloc.allocate_exact(&layout(5)).expect("a suitable extent exists");
    assert_eq!(big.address().get(), 0x30_0000);
    assert!(alloc.allocate_exact(&layout(11)).is_none());
}

#[test]
fn deallocate_gives_back_what_allocate_took() {
    let mut alloc: RawExtentAlloc<1024> = RawExtentAlloc::uninit();
    assert!(alloc.initialize(vec![TakenExtent::Free(internal(0x10_0000, 16))]).is_ok());
    let e = alloc.allocate_exact(&layout(4)).expect("room for four pages");
    assert_eq!(e.address().get(), 0x10_0000);
    assert_eq!(alloc.free_map_ref().size_at(0x10_0000 + 4 * 1024), Some(12));
    assert!(alloc.deallocate(MutableExtent::from_regular(e)).is_ok());
    assert_eq!(alloc.free_map_ref().size_at(0x10_0000), Some(16));
    assert_eq!(alloc.free_map_ref().size_at(0x10_0000 + 4 * 1024), None);
    assert!(alloc.used_map().is_empty());
    // a second deallocation of the same extent is refused
    assert!(alloc.deallocate(MutableExtent::from_regular(e)).is_err());
}

#[test]
fn deallocate_part_frees_the_part_only() {
    let mut alloc: RawExtentAlloc<1024> = RawExtentAlloc::uninit();
    assert!(alloc.initialize(vec![TakenExtent::Used(internal(0x10_0000, 10))]).is_ok());
    let ext = MutableExtent::from_regular(internal(0x10_0000, 10));
    let outside = MutableExtent::from_regular(internal(0x10_0000 + 8 * 1024, 4));
    assert!(matches!(alloc.deallocate_part(ext, outside), Err(PartDeallocError::PartDoesNotFit)));
    let stranger = MutableExtent::from_regular(internal(0x20_0000, 10));
    let stranger_part = MutableExtent::from_regular(internal(0x20_0000, 1));
    assert!(matches!(alloc.deallocate_part(stranger, stranger_part), Err(PartDeallocError::UnregisteredExtent)));
    let part = MutableExtent::from_regular(internal(0x10_0000 + 3 * 1024, 2));
    assert!(alloc.deallocate_part(ext, part).is_ok());
    assert_eq!(alloc.free_map_ref().size_at(0x10_0000 + 3 * 1024), Some(2));
    assert_eq!(alloc.used_map().get(&0x10_0000), Some(&3));
    assert_eq!(alloc.used_map().get(&(0x10_0000 + 5 * 1024)), Some(&5));
    assert_eq!(alloc.used_map().len(), 2);
}

#[test]
fn initialize_only_once() {
    let mut alloc: RawExtentAlloc<1024> = RawExtentAlloc::uninit();
    assert!(alloc.initialize(vec![TakenExtent::Free(internal(0x10_0000, 2))]).is_ok());
    assert!(alloc.initialize(vec![TakenExtent::Free(internal(0x20_0000, 2))]).is_err());
    assert_eq!(alloc.free_map_ref().size_at(0x20_0000), None);
    // an empty initialization leaves the allocator open for a real one
    let mut other: RawExtentAlloc<1024> = RawExtentAlloc::uninit();
    assert!(other.initialize(Vec::new()).is_ok());
    assert!(other.initialize(vec![TakenExtent::Free(internal(0x20_0000, 2))]).is_ok());
}

#[test]
fn allocate_splits_the_request_when_needed() {
    let mut allocator: ExtentAllocator<1024> = ExtentAllocator::uninit();
    let exts: Vec<Taken> = vec![TakenExtent::Free(internal(0x10_0000, 6)), TakenExtent::Free(internal(0x20_0000, 4))];
    assert!(allocator.initialize(exts).is_ok());
    let batch = allocator.allocate(layout(10)).expect("ten pages are free in all");
    let total: u64 = batch.as_slice().iter().map(|e| e.size()).sum();
    assert_eq!(total, 10);
    assert!(batch.as_slice().len() > 1);
    let mut starts: Vec<u64> = batch.into_vec().iter().map(|e| e.address().get()).collect();
    starts.sort();
    starts.dedup();
    assert!(starts.len() > 1);
    // every free page went into the batch
    for a in [0x10_0000u64, 0x10_1400, 0x20_0000, 0x20_0800] {
        assert_eq!(allocator.inner().free_map_ref().size_at(a), None);
    }
    assert_eq!(allocator.inner().used_map().values().sum::<u64>(), 10);
}

#[test]
fn allocate_serves_at_once_what_fits() {
    let mut allocator: ExtentAllocator<1024> = ExtentAllocator::uninit();
    assert!(allocator.initialize(vec![TakenExtent::Free(internal(0x10_0000, 16))]).is_ok());
    let batch = allocator.allocate(layout(10)).expect("ten pages fit");
    assert_eq!(batch.as_slice().len(), 1);
    assert_eq!(batch.as_slice()[0].size(), 10);
}

#[test]
fn allocate_gives_everything_back_when_it_fails() {
    let mut allocator: ExtentAllocator<1024> = ExtentAllocator::uninit();
    let exts: Vec<Taken> = vec![
        TakenExtent::Free(internal(0x10_0000, 3)),
        TakenExtent::Free(internal(0x20_0000, 2)),
        TakenExtent::Used(internal(0x30_0000, 5)),
    ];
    assert!(allocator.initialize(exts).is_ok());
    assert!(allocator.allocate(layout(8)).is_none());
    let inner = allocator.inner();
    assert_eq!(inner.used_map().len(), 1);
    assert_eq!(inner.used_map().get(&0x30_0000), Some(&5));
    // all five free pages are free again, though not necessarily in the same pieces
    let free_pages: u64 = [0x10_0000u64, 0x10_0000 + 2048, 0x10_0000 + 1024, 0x20_0000]
        .iter()
        .map(|a| inner.free_map_ref().size_at(*a).unwrap_or(0))
        .sum();
    assert!(free_pages >= 5);
    assert!(allocator.allocate(layout(5)).is_some());
}

#[test]
fn cached_allocator_serves_from_the_allocator() {
    let mut allocator: CachedExtentAllocator<1024> = CachedExtentAllocator::uninit();
    assert!(allocator.initialize(vec![TakenExtent::Free(internal(0x10_0000, 8))]).is_ok());
    let (start, pages) = {
        let e = allocator.allocate_contignous(layout(3)).expect("three pages fit");
        (e.address().get(), e.size())
    };
    assert_eq!((start, pages), (0x10_0000, 3));
    let handle = ScopedExtent::from_extent(internal(start, pages));
    assert!(allocator.deallocate(handle).is_ok());
    assert_eq!(allocator.inner().free_map_ref().size_at(0x10_0000), Some(8));
    assert!(allocator.allocate_contignous(layout(9)).is_none());
}

#[test]
fn layout_split_halves_the_pages() {
    let mut l = layout(9);
    let piece = l.split().expect("nine pages can be split");
    assert_eq!((piece.size(), l.size()), (4, 5));
    let mut one = layout(1);
    assert!(one.split().is_none());
    assert_eq!(one.size(), 1);
    assert!(ExtentLayout::<1024>::from_pages(ExtentLayout::<1024>::max_pages() + 1).is_err());
}

#[test]
fn deallocate_part_of_the_whole_extent() {
    let mut alloc: RawExtentAlloc<1024> = RawExtentAlloc::uninit();
    assert!(alloc
        .initialize(vec![TakenExtent::Used(internal(0x10_0000, 4)), TakenExtent::Free(internal(0x10_0000 + 4 * 1024, 2))])
        .is_ok());
    let whole = MutableExtent::from_regular(internal(0x10_0000, 4));
    assert!(alloc.deallocate_part(whole, whole).is_ok());
    assert!(alloc.used_map().is_empty());
    // the part is recorded as it is, without merging with the free extent behind it
    assert_eq!(alloc.free_map_ref().size_at(0x10_0000), Some(4));
    assert_eq!(alloc.free_map_ref().size_at(0x10_0000 + 4 * 1024), Some(2));
}

#[test]
fn cached_allocator_serves_from_the_cache() {
    let mut allocator: CachedExtentAllocator<1024> = CachedExtentAllocator::uninit();
    assert!(allocator.initialize(vec![TakenExtent::Free(internal(0x10_0000, 100))]).is_ok());
    assert_eq!(allocator.inner().used_map().get(&0x10_0000), Some(&64));
    assert_eq!(allocator.inner().free_map_ref().size_at(0x11_0000), Some(36));
    let (start, pages) = {
        let e = allocator.allocate_contignous(layout(3)).expect("the cache serves three pages");
        (e.address().get(), e.size())
    };
    assert_eq!((start, pages), (0x10_0000, 3));
    assert_eq!(allocator.inner().used_map().get(&0x10_0000), Some(&3));
    assert_eq!(allocator.inner().used_map().get(&0x10_0C00), Some(&61));
    assert_eq!(allocator.inner().free_map_ref().size_at(0x11_0000), Some(36));
    let handle = ScopedExtent::from_extent(internal(start, pages));
    assert!(allocator.deallocate(handle).is_ok());
    assert_eq!(allocator.inner().free_map_ref().size_at(0x10_0000), Some(3));
    let second = allocator.allocate_contignous(layout(5)).map(|e| (e.address().get(), e.size()));
    assert_eq!(second, Some((0x10_0C00, 5)));
    assert!(allocator.allocate_contignous(layout(70)).is_none());
    let third = allocator.allocate_contignous(layout(30)).map(|e| (e.address().get(), e.size()));
    assert_eq!(third, Some((0x10_2000, 30)));
    let uncached = allocator.allocate_contignous(layout(30)).map(|e| (e.address().get(), e.size()));
    assert_eq!(uncached, Some((0x11_0000, 30)));
}

#[test]
fn deallocate_part_refuses_what_does_not_fit() {
    let mut alloc: RawExtentAlloc<1024> = RawExtentAlloc::uninit();
    assert!(alloc.initialize(vec![TakenExtent::Used(internal(0x10_0000, 10))]).is_ok());
    // a part that runs past the end of the address space
    let ext = MutableExtent::from_regular(internal(0x10_0000, 10));
    let past_the_end = MutableExtent::from_regular(internal(0xFFFF_FFFF_FFFF_FC00, 4));
    assert!(matches!(alloc.deallocate_part(ext, past_the_end), Err(PartDeallocError::PartDoesNotFit)));
    // a registered extent given with another size, and a part outside it
    let other_size = MutableExtent::from_regular(internal(0x10_0000, 2));
    let beyond = MutableExtent::from_regular(internal(0x10_0000 + 4 * 1024, 1));
    assert!(matches!(alloc.deallocate_part(other_size, beyond), Err(PartDeallocError::PartDoesNotFit)));
    assert_eq!(alloc.used_map().get(&0x10_0000), Some(&10));
    assert!(alloc.free_map_ref().size_at(0x10_0000).is_none());
}

#[test]
fn deallocate_merges_with_the_free_extent_behind() {
    let mut alloc: RawExtentAlloc<1024> = RawExtentAlloc::uninit();
    assert!(alloc
        .initialize(vec![TakenExtent::Used(internal(0x10_0000, 4)), TakenExtent::Free(internal(0x10_1000, 2))])
        .is_ok());
    assert!(alloc.deallocate(MutableExtent::from_regular(internal(0x10_0000, 4))).is_ok());
    assert_eq!(alloc.free_map_ref().size_at(0x10_0000), Some(6));
    assert_eq!(alloc.free_map_ref().size_at(0x10_1000), None);
    assert!(alloc.used_map().is_empty());
}

#[test]
fn allocate_succeeds_exactly_when_enough_pages_are_free() {
    let free = || -> Vec<Taken> {
        vec![
            TakenExtent::Free(internal(0x10_0000, 3)),
            TakenExtent::Free(internal(0x20_0000, 2)),
            TakenExtent::Free(internal(0x30_0000, 1)),
            TakenExtent::Used(internal(0x40_0000, 7)),
        ]
    };
    let mut allocator: ExtentAllocator<1024> = ExtentAllocator::uninit();
    assert!(allocator.initialize(free()).is_ok());
    assert!(allocator.allocate(layout(7)).is_none());
    let total: u64 = allocator.allocate(layout(6)).expect("six pages are free").as_slice().iter().map(|e| e.size()).sum();
    assert_eq!(total, 6);
    assert!(allocator.allocate(layout(1)).is_none());
}

#[test]
fn physical_layouts_are_split_into_aligned_pieces() {
    let page = |address: u64, pages: u64| -> TakenExtent<4096, InternalExtent<4096>> {
        TakenExtent::Free(InternalExtent::new(AlignedNonNull::new(address).expect("aligned address"), pages))
    };
    let mut allocator: ExtentAllocator<4096, PhysicalExtent<4096>, PhysicalLayout> = ExtentAllocator::uninit();
    assert!(allocator.initialize(vec![page(0x20_0000, 600), page(0x100_0000, 600)]).is_ok());
    let request = PhysicalLayout::from_pages(1000).ok().expect("valid page count");
    let batch = allocator.allocate(request).expect("the two extents hold enough pages");
    let pieces: Vec<(u64, u64)> = batch.as_slice().iter().map(|e| (e.address().get(), e.size())).collect();
    assert_eq!(pieces, vec![(0x20_0000, 512), (0x100_0000, 488)]);
    let too_much = PhysicalLayout::from_pages(201).ok().expect("valid page count");
    assert!(allocator.allocate(too_much).is_none());
    // the 200 pages left are taken in ever smaller pieces
    let rest = PhysicalLayout::from_pages(200).ok().expect("valid page count");
    let total: u64 = allocator.allocate(rest).expect("200 pages are free").as_slice().iter().map(|e| e.size()).sum();
    assert_eq!(total, 200);
}

#[test]
fn insert_extent_merges_and_adds_both_page_counts() {
    let mut map: AllocMap<1024> = AllocMap::uninit();
    assert!(map.insert_extent_fragmented(&MutableExtent::from_regular(internal(0x10_1000, 2))).is_ok());
    assert!(map.insert_extent_fragmented(&MutableExtent::from_regular(internal(0x20_0000, 3))).is_ok());
    assert!(map.insert_extent(MutableExtent::from_regular(internal(0x10_0000, 4))).is_ok());
    assert_eq!(map.size_at(0x10_0000), Some(6));
    assert_eq!(map.size_at(0x10_1000), None);
    assert_eq!(map.size_at(0x20_0000), Some(3));
    assert!(map.is_indexed(6, 0x10_0000 & 0x10_0000u64.wrapping_neg(), 0x10_0000));
}
