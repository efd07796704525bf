use lib::rand::TestRng;

fn zero() -> Result<usize, ()> {
    Ok(0)
}

fn broken() -> Result<usize, ()> {
    Err(())
}

#[test]
fn known_sequence_from_zero() {
    let randomizer: fn() -> Result<usize, ()> = zero;
    let mut rng = TestRng::new_uninit(randomizer);
    assert_eq!(rng.next() as u64, 0xE220_A839_7B1D_CDAF);
    assert_eq!(rng.next() as u64, 0x6E78_9E6A_A1B9_65F4);
    assert_eq!(rng.next() as u64, 0x06C4_5D18_8009_454F);
}

#[test]
fn seeding_and_reseeding() {
    let randomizer: fn() -> Result<usize, ()> = zero;
    let mut a = TestRng::new(randomizer).expect("the randomizer works");
    let mut b = TestRng::new_uninit_with(randomizer);
    assert_eq!(a.next(), b.next());
    assert!(a.initialize().is_ok());
    let mut c = TestRng::new_uninit(randomizer);
    assert_eq!(a.next(), c.next());
    assert!(a.reseed(Ok(5)).is_ok());
    assert!(b.initialize_with(|| Ok(5)).is_ok());
    assert_eq!(a.next(), b.next());
    assert!(a.mix(Ok(0xFF)).is_ok());
    assert!(b.randomize_with(|| Ok(0xFF)).is_ok());
    assert_eq!(a.next(), b.next());
    assert!(c.randomize().is_ok());
}

#[test]
fn failing_randomizer_keeps_the_state() {
    let failing: fn() -> Result<usize, ()> = broken;
    assert!(TestRng::new(failing).is_err());
    assert!(TestRng::from_seed(Err(()), failing).is_err());
    let mut rng = TestRng::new_uninit(failing);
    assert!(rng.initialize().is_err());
    assert!(rng.randomize().is_err());
    assert!(rng.initialize_with(|| Err(())).is_err());
    assert!(rng.reseed(Err(())).is_err());
    assert!(rng.mix(Err(())).is_err());
    assert_eq!(rng.next() as u64, 0xE220_A839_7B1D_CDAF);
}

#[test]
fn ranges() {
    let randomizer: fn() -> Result<usize, ()> = zero;
    let mut rng = TestRng::new_uninit(randomizer);
    assert_eq!(rng.next_range(10, 10), 0);
    assert_eq!(rng.next_range(12, 3), 0);
    assert_eq!(rng.next_range(100, 200), (0xE220_A839_7B1D_CDAFu64 % 100 + 100) as usize);
    for _ in 0..1000 {
        let r: usize = rng.next_range(7, 19);
        assert!(7 <= r && r < 19);
    }
    let mut signed = TestRng::new_uninit(randomizer);
    assert_eq!(signed.next_signed(), 0xE220_A839_7B1D_CDAFu64 as i64 as isize);
}

#[test]
fn next_char_draws_a_range_then_a_code_point() {
    let randomizer: fn() -> Result<usize, ()> = zero;
    let mut rng = TestRng::new_uninit(randomizer);
    assert_eq!(rng.next_char(), '\u{25D7}');
    let mut after = TestRng::new_uninit(randomizer);
    after.next();
    after.next();
    assert_eq!(rng.next(), after.next());
}

#[test]
fn strings_are_made_of_printable_characters() {
    let randomizer: fn() -> Result<usize, ()> = zero;
    let mut rng = TestRng::new_uninit(randomizer);
    let s = rng.new_string(50);
    assert_eq!(s.chars().count(), 50);
    assert!(s.chars().all(|c| {
        let n = c as u32;
        (0x20..=0x7E).contains(&n) || (0xA0..=0x024F).contains(&n) || (0x0370..=0x052F).contains(&n)
            || (0x25A1..=0x2603).contains(&n)
    }));
    let mut same = TestRng::new_uninit(randomizer);
    let mut appended = String::from("ab");
    same.string(&mut appended, 50);
    assert_eq!(appended, format!("ab{}", s));
    let mut first = TestRng::new_uninit(randomizer);
    assert_eq!(s.chars().next(), Some(first.next_char()));
}

#[test]
fn from_slice_picks_by_the_next_number() {
    let randomizer: fn() -> Result<usize, ()> = zero;
    let mut rng = TestRng::new_uninit(randomizer);
    let items = [10, 20, 30];
    assert_eq!(*rng.from_slice(&items), 20);
    assert_eq!(*rng.from_slice(&items), items[(0x6E78_9E6A_A1B9_65F4u64 % 3) as usize]);
}
