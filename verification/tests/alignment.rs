use lib::rand::TestRng;
use lib::address::AlignedAddress;
use lib::misc::{Alignment, PageAlignment, PAGE_SIZE};
use lib::non_null::AlignedNonNull;

/// The seed of the randomized checks
fn seed() -> Result<usize, ()> {
    Ok(0x0123_4567_89AB_CDEF)
}

/// The library's generator, seeded for repeatable checks
struct Rng(TestRng<fn() -> Result<usize, ()>>);

impl Rng {
    fn new() -> Rng {
        let randomizer: fn() -> Result<usize, ()> = seed;
        Rng(TestRng::new(randomizer).expect("the seed is always there"))
    }

    fn next(&mut self) -> u64 {
        self.0.next() as u64
    }

    /// A number in `start..end`
    fn next_range(&mut self, start: u64, end: u64) -> u64 {
        self.0.next_range(start as usize, end as usize) as u64
    }
}

type AlignedAddr = AlignedAddress<usize, 1024>;
type AlignedNN = AlignedNonNull<1024>;

#[test]
fn mod_new() {
    let mut rand = Rng::new();
    for _ in 0..5000 {
        let ptr: usize = rand.next_range(0, usize::MAX as u64) as usize;
        if ptr.is_aligned_to(1024) {
            let addr = AlignedAddr::new(ptr).expect("new() returned None instead of Some()");
            assert!(*addr == ptr);
        } else {
            assert!(matches!(AlignedAddr::new(ptr), None));
        }
    }
}

#[test]
fn new_up_and_down() {
    let mut rand = Rng::new();
    for _ in 0..5000 {
        let ptr: usize = rand.next_range(0, usize::MAX as u64) as usize;
        let up = AlignedAddr::new_up(ptr);
        assert!(*up == ptr.align_up(1024));
        let down = AlignedAddr::new_down(ptr);
        assert!(*down == ptr.align_down(1024));
    }
}

#[test]
fn mod_aligned_add() {
    let mut rand = Rng::new();
    for _ in 0..5000 {
        let ptr: usize = (rand.next_range(0, (usize::MAX / 2) as u64) as usize).align_up(1024);
        let added: usize = rand.next_range(0, (usize::MAX / 2) as u64) as usize;
        let addr = AlignedAddr::new(ptr).expect("failed to construct AlignedAddr");
        let result = addr.aligned_add(added);
        let expected: usize = ptr.saturating_add(added.saturating_mul(1024)).align_down(1024);
        assert!(*result == expected);
        assert!(result.is_aligned_to(1024));
    }
}

#[test]
fn non_null_new() {
    let mut rand = Rng::new();
    for _ in 0..5000 {
        let ptr: u64 = rand.next().saturating_add(1);
        if ptr.is_aligned_to(1024) {
            let addr = AlignedNN::new(ptr).expect("new() returned None instead of Some()");
            assert!(*addr == ptr);
        } else {
            assert!(matches!(AlignedNN::new(ptr), None));
        }
    }
}

#[test]
fn new_up() {
    let mut rand = Rng::new();
    for _ in 0..5000 {
        let ptr: u64 = rand.next().saturating_add(1);
        let addr = AlignedNN::new_up(ptr);
        assert!(addr.as_inner() == ptr.align_up(1024));
    }
}

#[test]
fn new_down() {
    let mut rand = Rng::new();
    for _ in 0..5000 {
        let ptr: u64 = rand.next().saturating_add(1);
        let addr = match AlignedNN::new_down(ptr) {
            Some(a) => a,
            None => {
                assert!(ptr < 1024);
                continue;
            },
        };
        assert!(addr.as_inner() == ptr.align_down(1024));
    }
}

#[test]
fn non_null_aligned_add() {
    let mut rand = Rng::new();
    for _ in 0..5000 {
        let ptr: u64 = rand.next_range(1, u64::MAX / 2).align_up(1024);
        let added: usize = rand.next_range(0, (usize::MAX / 2) as u64) as usize;
        let addr = AlignedNN::new(ptr).expect("failed to construct AlignedNonNull");
        let result = addr.aligned_add(added);
        let expected: u64 = ptr.saturating_add((added as u64).saturating_mul(1024));
        assert!(*result == expected);
    }
}

#[test]
fn alignment() {
    let mut rand = Rng::new();
    for _ in 0..10000 {
        let align: usize = 1 << rand.next_range(0, 15);
        let value: usize = rand.next_range(0, (usize::MAX - align) as u64) as usize;
        if value % align == 0 {
            assert!(value.is_aligned_to(align));
            assert!(value.align_down(align) == value);
            assert!(value.align_up(align) == value);
        } else {
            assert!(!value.is_aligned_to(align));
            let aligned_down: usize = value - value % align;
            assert!(value.align_down(align) == aligned_down);
            assert!(value.align_up(align) == aligned_down + align);
        }
    }
}

#[test]
fn page_alignment() {
    let mut rand = Rng::new();
    for _ in 0..100 {
        let value: usize = rand.next_range(0, (usize::MAX - PAGE_SIZE) as u64) as usize;
        if value % PAGE_SIZE == 0 {
            assert!(value.is_page_aligned());
            assert!(value.page_align_down() == value);
            assert!(value.page_align_up() == value);
        } else {
            assert!(!value.is_page_aligned());
            let aligned_down: usize = value - value % PAGE_SIZE;
            assert!(value.page_align_down() == aligned_down);
            assert!(value.page_align_up() == aligned_down + PAGE_SIZE);
        }
    }
}

#[test]
fn align_up_saturates_at_the_top() {
    let top: u64 = u64::MAX - 5;
    assert_eq!(top.align_up(1024), u64::MAX - 1023);
    assert_eq!(top.align_down(1024), u64::MAX - 1023);
    assert_eq!(AlignedNN::new_up(top).as_inner(), u64::MAX - 1023);
}

#[test]
fn alignment_of_an_address() {
    let addr = AlignedNN::new(0x3000).expect("aligned");
    assert_eq!(addr.get_align(), 0x1000);
    assert_eq!(AlignedNN::new(0x400).expect("aligned").get_align(), 0x400);
    assert_eq!((0x28u64).get_align(), 0x8);
    assert_eq!((0u64).get_align(), 0);
}

#[test]
fn aligned_offset_moves_both_ways() {
    let addr = AlignedNN::new(0x10_0000).expect("aligned");
    assert_eq!(addr.aligned_offset(3).map(|a| a.as_inner()), Some(0x10_0000 + 3 * 1024));
    assert_eq!(addr.aligned_offset(-2).map(|a| a.as_inner()), Some(0x10_0000 - 2 * 1024));
    assert!(addr.aligned_offset(-0x400).is_none());
    let low = AlignedAddr::new(2048).expect("aligned");
    assert_eq!(*low.aligned_offset(-5), 0);
    assert_eq!(*low.aligned_offset(2), 4096);
}

#[test]
fn aligned_offset_stays_aligned_when_saturated() {
    assert_eq!(*AlignedAddr::new(1024).expect("aligned").aligned_offset(-1), 0);
    assert_eq!(*AlignedAddr::new(1024).expect("aligned").aligned_offset(2), 3072);
    let far = AlignedAddr::new(0).expect("aligned").aligned_offset(isize::MAX);
    assert_eq!(*far % 1024, 0);
    assert_eq!(*far, 0x7FFF_FFFF_FFFF_FC00);
}
