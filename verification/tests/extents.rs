use lib::rand::TestRng;
use lib::extent_alloc::extent::{Extent, MutableExtent, RemainingExtents};
use lib::misc::Alignment;
use lib::non_null::AlignedNonNull;

/// The seed of the randomized checks
fn seed() -> Result<usize, ()> {
    Ok(0x0F1E_2D3C_4B5A_6978)
}

/// The library's generator, seeded for repeatable checks
struct Rng(TestRng<fn() -> Result<usize, ()>>);

impl Rng {
    fn new() -> Rng {
        let randomizer: fn() -> Result<usize, ()> = seed;
        Rng(TestRng::new(randomizer).expect("the seed is always there"))
    }

    fn next(&mut self) -> u64 {
        self.0.next() as u64
    }

    /// A number in `start..end`
    fn next_range(&mut self, start: u64, end: u64) -> u64 {
        self.0.next_range(start as usize, end as usize) as u64
    }
}

fn extent(address: u64, pages: u64) -> MutableExtent<1024> {
    MutableExtent::new(AlignedNonNull::new(address).expect("aligned address"), pages)
}

#[test]
fn remove_from_unchecked() {
    const BIGGER_ADDR: u64 = 1024;
    const BIGGER_SIZE: u64 = 1024 * 4;
    let mut rand = Rng::new();
    for _ in 0..30_000 {
        let big: MutableExtent<1024> = extent(BIGGER_ADDR, BIGGER_SIZE);
        let small = {
            let addr: u64 = rand.next_range(BIGGER_ADDR, BIGGER_ADDR + BIGGER_SIZE - 1);
            let addr = AlignedNonNull::<1024>::new_down(addr).expect("nonzero address");
            let size: u64 = rand.next_range(1, (big.end_address().get() - addr.get()) / 1024);
            MutableExtent::new(addr, size)
        };
        assert!(small.fits_into(&big));
        let RemainingExtents { front, remainder } = small.clone().remove_from_unchecked(big.clone());
        if small.address() == big.address() {
            assert!(matches!(front, None));
            if small.size() == big.size() {
                assert!(matches!(remainder, None));
            } else {
                let rem = remainder.expect("remainder is None instead of Some()");
                assert!(rem.address() == small.end_address());
                let expected_size: u64 = (big.end_address().get() - small.end_address().get()) / 1024;
                assert!(rem.size() == expected_size);
            }
        } else if small.end_address() == big.end_address() {
            assert!(matches!(remainder, None));
            let front = front.expect("front is None instead of Some()");
            assert!(front.address() == big.address());
            let expected_size: u64 = (small.address().get() - big.address().get()) / 1024;
            assert!(front.size() == expected_size);
        } else {
            let front = front.expect("front is None instead of Some");
            let rem = remainder.expect("remainder is None instead of Some");
            assert!(front.address() == big.address());
            let expected_size: u64 = (small.address().get() - big.address().get()) / 1024;
            assert!(front.size() == expected_size);
            assert!(rem.end_address() == big.end_address());
            let expected_size: u64 = (big.end_address().get() - small.end_address().get()) / 1024;
            assert!(rem.size() == expected_size);
        }
    }
}

#[test]
fn split_unchecked() {
    let mut rand = Rng::new();
    for _ in 0..200_000 {
        let addr: u64 = rand.next_range(1, 10240);
        let mut ext: MutableExtent<1024> = MutableExtent::new(AlignedNonNull::new_up(addr), rand.next_range(2, 10240));
        let before = ext.clone();
        let split_size: u64 = rand.next_range(1, ext.size());
        let splitted = ext.split_unchecked(split_size).expect("split failed");
        assert!(ext.address() == before.address());
        assert!(ext.size() == split_size);
        assert!(*splitted.address() == *ext.address().aligned_add(split_size as usize));
        assert!(splitted.size() == before.size() - split_size);
    }
}

#[test]
fn split() {
    let mut rand = Rng::new();
    for _ in 0..2000 {
        let mut ext: MutableExtent<1024> =
            MutableExtent::new(AlignedNonNull::new_up(rand.next_range(1, 10240)), rand.next_range(1, 10240));
        let before = ext.clone();
        let split_size: u64 = rand.next_range(1, ext.size() * 2);
        let splitted = match split_size.cmp(&ext.size()) {
            std::cmp::Ordering::Less => match ext.split(split_size) {
                Ok(Some(ext)) => ext,
                Ok(None) => panic!("split produced Ok(None) instead of Ok(Some())"),
                Err(_) => panic!("split failed when it should have succeeded"),
            },
            std::cmp::Ordering::Equal => match ext.split(split_size) {
                Ok(None) => continue,
                Ok(Some(_)) => panic!("split produced Ok(Some()) instead of Ok(None)"),
                Err(_) => panic!("split failed when it should have succeeded"),
            },
            std::cmp::Ordering::Greater => {
                assert!(matches!(ext.split(split_size), Err(())));
                continue;
            },
        };
        assert!(ext.address() == before.address());
        assert!(ext.size() == split_size);
        assert!(*splitted.address() == *ext.address().aligned_add(split_size as usize));
        assert!(splitted.size() == before.size() - split_size);
    }
}

#[test]
fn split_then_merge_gives_back_the_extent() {
    let mut rand = Rng::new();
    for _ in 0..2000 {
        let start: u64 = rand.next_range(1, 1 << 40).align_up(1024);
        let pages: u64 = rand.next_range(2, 100_000);
        let mut front = extent(start, pages);
        let at: u64 = rand.next_range(1, pages);
        let rest = front.split_unchecked(at).expect("a part is left behind");
        assert!(front.is_touching(&rest));
        assert!(front.merge(rest).is_ok());
        assert_eq!(front.address().get(), start);
        assert_eq!(front.size(), pages);
    }
}

#[test]
fn merge_refuses_extents_that_do_not_touch() {
    let mut a = extent(0x1000 * 1024, 4);
    let b = extent(0x1000 * 1024 + 5 * 1024, 2);
    let r = a.merge(b);
    assert!(matches!(r, Err(_)));
    assert_eq!(a.size(), 4);
    let mut c = extent(0x1000 * 1024 + 4 * 1024, 3);
    assert!(c.merge(a).is_ok());
    assert_eq!(c.address().get(), 0x1000 * 1024);
    assert_eq!(c.size(), 7);
}

#[test]
fn extent_relations() {
    let big = extent(1024, 8);
    let inside = extent(2048, 2);
    let across = extent(1024 * 8, 4);
    let behind = extent(1024 * 9, 1);
    assert!(inside.fits_into(&big));
    assert!(big.fits_into(&big));
    assert!(!big.fits_into(&inside));
    assert!(inside.is_overlapping(&big));
    assert!(across.is_overlapping(&big));
    assert!(!behind.is_overlapping(&big));
    assert!(behind.is_touching(&big));
    assert!(!inside.is_touching(&big));
    assert_eq!(big.end_address().get(), 1024 * 9);
}

#[test]
fn remove_from_refuses_what_does_not_fit() {
    let big = extent(1024, 8);
    let outside = extent(1024 * 8, 4);
    match outside.remove_from(big) {
        Err((a, b)) => {
            assert_eq!(a.address().get(), 1024 * 8);
            assert_eq!(b.size(), 8);
        },
        Ok(_) => panic!("the part does not fit"),
    }
    let part = extent(1024 * 3, 2);
    let rest = part.remove_from(big).ok().expect("the part fits");
    let front = rest.front.expect("space in front");
    let rem = rest.remainder.expect("space behind");
    assert_eq!((front.address().get(), front.size()), (1024, 2));
    assert_eq!((rem.address().get(), rem.size()), (1024 * 5, 4));
}
