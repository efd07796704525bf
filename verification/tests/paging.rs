use lib::rand::TestRng;
use lib::extent_alloc::layout::LayoutDescriptor;
use lib::paging::bits::{KernelBits, PdSizedKernelBits, PdSizedUserBits, PtKernelBits, PtUserBits, UserBits};
use lib::paging::entries::{Either, PdEntry, PdEntryUnion};
use lib::paging::flags::{BITS_G, BITS_PK, BITS_PRESENT, BITS_PS, BITS_RW, BITS_US, BITS_XD};
use lib::paging::pdpt::PdptSizedEntry;
use lib::paging::physical::PhysicalLayout;
use lib::paging::pml4::Pml4Entry;
use lib::paging::table::PageTable;
use lib::paging::virt_addr::{PdIndexer, Pml4Indexer, PtIndexer, TableIndexer, VirtualAddress, HIGH_BITS};

/// The seed of the randomized checks
fn seed() -> Result<usize, ()> {
    Ok(0x2545_F491_4F6C_DD1D)
}

/// The library's generator, seeded for repeatable checks
struct Rng(TestRng<fn() -> Result<usize, ()>>);

impl Rng {
    fn new() -> Rng {
        let randomizer: fn() -> Result<usize, ()> = seed;
        Rng(TestRng::new(randomizer).expect("the seed is always there"))
    }

    fn next(&mut self) -> u64 {
        self.0.next() as u64
    }

    /// A number in `start..end`
    fn next_range(&mut self, start: u64, end: u64) -> u64 {
        self.0.next_range(start as usize, end as usize) as u64
    }
    fn random_address(&mut self, kernel: bool) -> VirtualAddress {
        VirtualAddress::from_parts(
            kernel,
            self.next() as u16,
            self.next() as u16,
            self.next() as u16,
            self.next() as u16,
            self.next() as u16,
        )
    }
}

#[test]
fn make_kernel() {
    let mut rand = Rng::new();
    for _ in 0..10_000 {
        let mut address = rand.random_address(false);
        let before = address;
        address.make_kernel();
        assert!(address.is_kernel_address() == true);
        assert!(address.offset() == before.offset());
        assert!(address.pt_index().as_u16() == before.pt_index().as_u16());
        assert!(address.pd_index().as_u16() == before.pd_index().as_u16());
        assert!(address.pdpt_index().as_u16() == before.pdpt_index().as_u16());
        assert!(address.pml4_index().into_u16() == before.pml4_index().into_u16());
    }
}

#[test]
fn make_user() {
    let mut rand = Rng::new();
    for _ in 0..10_000 {
        let mut address = rand.random_address(false);
        let before = address;
        address.make_user();
        assert!(address.is_kernel_address() == false);
        assert!(address.offset() == before.offset());
        assert!(address.pt_index().as_u16() == before.pt_index().as_u16());
        assert!(address.pd_index().as_u16() == before.pd_index().as_u16());
        assert!(address.pdpt_index().as_u16() == before.pdpt_index().as_u16());
        assert!(address.pml4_index().into_u16() == before.pml4_index().into_u16());
    }
}

/// The address after adding `added << shift` to the low 48 bits in shifted saturating arithmetic
fn expected_add(before: u64, added: u64, shift: u32) -> u64 {
    let high: u64 = before & HIGH_BITS;
    ((before << 16).saturating_add(added.wrapping_shl(16 + shift)) >> 16) | high
}

/// The address after subtracting `subtracted << shift` from the low 48 bits, saturating at zero
fn expected_sub(before: u64, subtracted: u64, shift: u32) -> u64 {
    (before & !HIGH_BITS).saturating_sub(subtracted.wrapping_shl(shift)) | (before & HIGH_BITS)
}

fn check_same_parts(address: &VirtualAddress, expected: u64, before: &VirtualAddress) {
    let expected = VirtualAddress::from_u64(expected);
    assert!(address.is_kernel_address() == before.is_kernel_address());
    assert!(address.offset() == expected.offset());
    assert!(address.index_pt() == expected.index_pt());
    assert!(address.index_pd() == expected.index_pd());
    assert!(address.index_pdpt() == expected.index_pdpt());
    assert!(address.index_pml4() == expected.index_pml4());
    assert!(address.pml4_index().into_u16() == expected.pml4_index().into_u16());
    assert!(address.as_u64() == expected.as_u64());
}

#[test]
fn add_and_sub_match_the_shifted_arithmetic() {
    let mut rand = Rng::new();
    let shifts: [u32; 5] = [0, 12, 21, 30, 39];
    for _ in 0..10_000 {
        let kernel: bool = rand.next() & 1 == 0;
        let before = rand.random_address(kernel);
        for (i, shift) in shifts.iter().enumerate() {
            let limit: u64 = if i < 2 { (u32::MAX / 2) as u64 } else { u16::MAX as u64 + 8 };
            let count: u64 = rand.next_range(0, limit);
            let mut added = before;
            match i {
                0 => added.add_offset(count as usize),
                1 => added.add_pt(count as usize),
                2 => added.add_pd(count as usize),
                3 => added.add_pdpt(count as usize),
                _ => added.add_pml4(count as usize),
            }
            check_same_parts(&added, expected_add(before.as_u64(), count, *shift), &before);
            let mut subtracted = before;
            match i {
                0 => subtracted.sub_offset(count as usize),
                1 => subtracted.sub_pt(count as usize),
                2 => subtracted.sub_pd(count as usize),
                3 => subtracted.sub_pdpt(count as usize),
                _ => subtracted.sub_pml4(count as usize),
            }
            check_same_parts(&subtracted, expected_sub(before.as_u64(), count, *shift), &before);
        }
    }
}

#[test]
fn set_index_keeps_the_rest() {
    let mut rand = Rng::new();
    for _ in 0..10_000 {
        let kernel: bool = rand.next() & 1 == 0;
        let before = rand.random_address(kernel);
        let new: u16 = rand.next_range(0, 0x1FF) as u16;
        let mut a = before;
        a.set_pt(new);
        assert_eq!(a.index_pt(), new);
        assert_eq!(a.offset(), before.offset());
        assert_eq!(a.index_pd(), before.index_pd());
        let mut b = before;
        b.set_pd(new);
        assert_eq!(b.index_pd(), new);
        assert_eq!(b.index_pt(), before.index_pt());
        let mut c = before;
        c.set_offset(new);
        assert_eq!(c.offset(), new);
        assert_eq!(c.index_pt(), before.index_pt());
        let mut d = before;
        d.set_pdpt(new);
        assert_eq!(d.index_pdpt(), new);
        let mut e = before;
        e.set_pml4(new);
        assert_eq!(e.index_pml4(), new);
        assert_eq!(e.is_kernel_address(), before.is_kernel_address());
    }
}

#[test]
fn saturating_moves() {
    let mut top = VirtualAddress::from_u64(0xFFFF_FFFF_FFFF_F000);
    top.add_pt(5);
    assert_eq!(top.as_u64(), u64::MAX);
    let mut bottom = VirtualAddress::from_u64(0x2000);
    bottom.sub_pt(3);
    assert_eq!(bottom.as_u64(), 0);
    let mut kernel_bottom = VirtualAddress::from_u64(HIGH_BITS | 0x1000);
    kernel_bottom.sub_offset(0x5000);
    assert_eq!(kernel_bottom.as_u64(), HIGH_BITS);
    let mut up = VirtualAddress::from_u64(0x1000);
    up.add_pt(2);
    up.sub_pt(2);
    assert_eq!(up.as_u64(), 0x1000);
}

#[test]
fn from_parts_and_back() {
    let a = VirtualAddress::from_parts(true, 0x1AB, 0x0CD, 0x123, 0x045, 0xABC);
    assert!(a.is_kernel_address());
    assert!(!a.is_user_address());
    assert_eq!(a.offset(), 0xABC);
    assert_eq!(a.index_pt(), 0x045);
    assert_eq!(a.index_pd(), 0x123);
    assert_eq!(a.index_pdpt(), 0x0CD);
    assert_eq!(a.pdpt_index().as_u16(), 0x0CD);
    assert_eq!(a.index_pml4(), 0x1AB);
    assert_eq!(a.unused_bits(), 0xFFFF);
    let user = VirtualAddress::from_parts(false, 0x12, 0, 0, 0, 0);
    assert!(user.is_user_address());
    assert_eq!(user.pml4_index().unwrap(), 0x12);
    assert!(matches!(user.pml4_index(), Pml4Indexer::User(0x12)));
    assert!(matches!(a.pml4_index(), Pml4Indexer::Kernel(0xAB)));
    assert_eq!(a.pml4_index().into_u16(), 0x1AB);
    assert_eq!(user.pml4_index().into_u16(), 0x12);
    let odd = VirtualAddress::from_parts(false, 1, 0, 0, 0, 0);
    assert_eq!(odd.index_pdpt(), 0);
    assert_eq!(odd.index_pml4(), 1);
    let mut low_kernel = VirtualAddress::from_parts(false, 0, 0, 0, 0, 0);
    low_kernel.make_kernel();
    assert!(matches!(low_kernel.pml4_index(), Pml4Indexer::User(0)));
    assert!(VirtualAddress::from_u64(0).is_null());
    assert!(!a.is_null());
}

#[test]
fn table_indexers() {
    assert!(PtIndexer::new(511).is_some());
    assert!(PtIndexer::new(512).is_none());
    assert_eq!(PdIndexer::new(7).map(|i| i.as_u16()), Some(7));
    let entries: [PdEntry; 512] = std::array::from_fn(|i| PdEntry::new_raw(i as u64));
    let table = PageTable::new(entries);
    let idx = PdIndexer::new(300).expect("in range");
    assert_eq!(table.index(idx).is_page_sized(), (300u64 & BITS_PS) != 0);
    let mut table = table;
    let idx = PdIndexer::new(5).expect("in range");
    *table.index_mut(idx) = PdEntry::new_raw(BITS_PS | BITS_PRESENT);
    assert!(table.index(PdIndexer::new(5).expect("in range")).is_page_sized());
}

#[test]
fn pdpt_entry_flags() {
    let mut e = PdptSizedEntry::new_unused();
    assert!(e.is_unused());
    assert!(!e.is_present());
    e.make_present();
    assert!(e.is_present());
    e.set_writeable(true);
    assert!(e.is_writeable());
    e.set_userspace(true);
    assert!(e.is_userspace());
    assert!(e.is_present());
    e.set_present(false);
    assert!(!e.is_present());
    assert!(e.is_writeable() && e.is_userspace());
    e.caching_disable();
    assert!(!e.is_cached());
    e.set_caching(true);
    assert!(e.is_cached());
    e.cache_write_through();
    assert!(e.is_write_through_cached());
    e.cache_write_back();
    assert!(!e.is_write_through_cached());
    e.set_caching_method(true);
    assert!(e.is_write_through_cached());
    e.set_caching_method(false);
    assert!(!e.is_write_through_cached());
    e.make_global();
    assert!(e.is_global());
    e.make_local();
    assert!(!e.is_global());
    e.pat_enable();
    assert!(e.get_pat());
    e.pat_disable();
    assert!(!e.get_pat());
    assert!(e.is_executable());
    e.disable_execute();
    assert!(!e.is_executable());
    e.make_executable();
    assert!(e.is_executable());
    e.set_executable(false);
    assert!(!e.is_executable());
    e.set_executable(true);
    assert!(e.is_executable());
    e.set_protection_key(0x1B);
    assert_eq!(e.protection_key(), 0xB);
    assert_eq!(e.as_u64() & BITS_PK, 0xB << 59);
    e.set_protection_key(0x3);
    assert_eq!(e.protection_key(), 0x3);
    assert!(!e.is_accessed() && !e.is_dirty());
    let raw = PdptSizedEntry::new_raw(0x4000_0000 | BITS_PRESENT);
    assert_eq!(raw.address(), Some(0x4000_0000));
    assert_eq!(raw.address_raw(), 0x4000_0000);
    assert_eq!(PdptSizedEntry::new_raw(0x1FFF_FFFF).address(), None);
}

#[test]
fn pml4_entry_flags() {
    let mut e = Pml4Entry::new_unused();
    assert!(e.is_unused());
    e.set_present(true);
    e.make_writeable();
    e.make_userspace();
    assert!(e.is_present() && e.is_writeable() && e.is_userspace());
    e.make_read_only();
    assert!(!e.is_writeable());
    assert!(e.is_present() && e.is_userspace());
    e.set_caching_method(true);
    assert!(e.is_write_through_cached());
    assert!(e.is_present() && e.is_userspace());
    e.set_caching_method(false);
    assert!(!e.is_write_through_cached());
    e.cache_write_through();
    assert!(e.is_write_through_cached());
    e.cache_write_back();
    assert!(!e.is_write_through_cached());
    e.make_kernel_only();
    e.make_unpresent();
    assert!(e.is_unused());
    let table = Pml4Entry::new_raw(0x1234_5000 | BITS_PRESENT | BITS_PS);
    assert_eq!(table.address(), Some(0x1234_5000));
    assert!(table.is_page_sized());
    assert!(table.is_cached());
    assert!(!table.is_accessed());
}

#[test]
fn entry_builders() {
    let k = KernelBits::new();
    assert_eq!(k.as_u64(), BITS_PRESENT | BITS_XD);
    let k = k.writeable().address(0x1234_5678);
    assert_eq!(k.as_u64(), BITS_PRESENT | BITS_XD | BITS_RW | 0x1234_5000);
    let u = UserBits::new().protection_key(0x15).unpresent();
    assert_eq!(u.as_u64(), BITS_US | BITS_XD | (0x5 << 59));
    let s = PdSizedKernelBits::new();
    assert_eq!(s.as_u64(), BITS_PRESENT | BITS_PS | BITS_XD);
    assert_eq!(s.address(0x1234_5678).as_u64() & 0xFFFF_FFFF_F000, 0x1220_0000);
    let entry = PdSizedUserBits::new().writeable().into_entry().expect("not executable");
    assert!(entry.is_writeable() && !entry.is_executable() && entry.is_present());
    assert!(PdSizedUserBits::new().writeable().executable().into_entry().is_none());
    assert!(PdSizedKernelBits::new().executable().into_entry().is_some());
    let pt = PtKernelBits::new();
    assert_eq!(pt.as_u64(), BITS_PRESENT | BITS_G | BITS_XD);
    assert_eq!(pt.local().as_u64(), BITS_PRESENT | BITS_XD);
    assert!(PtUserBits::new().writeable().executable().into_entry().is_none());
    let pte = PtUserBits::new().local().address(0x7000).into_entry().expect("not executable");
    assert_eq!(pte.as_u64(), BITS_PRESENT | BITS_US | BITS_XD | 0x7000);
}

#[test]
fn pd_entries() {
    let sized = PdEntry::new_raw(0x20_0000 | BITS_PS | BITS_PRESENT);
    assert!(sized.is_page_sized() && sized.is_present());
    assert!(matches!(sized.entry_copied(), Either::Sized(_)));
    assert!(sized.regular_entry_copied().is_none());
    assert_eq!(sized.sized_entry_copied().map(|e| e.as_u64()), Some(0x20_0000 | BITS_PS | BITS_PRESENT));
    let regular = PdEntry::new_raw(0x3000);
    assert!(!regular.is_page_sized() && !regular.is_present());
    assert!(matches!(regular.entry_copied(), Either::Regular(_)));
    assert!(regular.sized_entry_copied().is_none());
    let union = PdEntryUnion::new_raw(BITS_PS);
    assert!(union.is_page_sized() && !union.is_present());
}

#[test]
fn align() {
    let mut rand = Rng::new();
    for _ in 0..200 {
        let count: u64 = rand.next();
        if count == 0 {
            continue;
        }
        let layout = match PhysicalLayout::from_pages(count) {
            Ok(lay) => {
                assert!(count <= PhysicalLayout::max_pages());
                lay
            },
            Err(_) => {
                assert!(count > PhysicalLayout::max_pages());
                continue;
            },
        };
        let align: u64 = layout.align();
        const MASK_4KB: u64 = 0x1FF;
        const MASK_2MB: u64 = 0x3_FE00;
        const MASK_1GB: u64 = 0xF_FFFF_FFFC_0000;
        const MASK_4KB_ADD: u64 = MASK_4KB + 1;
        const MASK_2MB_ADD: u64 = MASK_2MB + 1;
        match layout.size() {
            0..=MASK_4KB => assert!(align == 4 * 1024),
            MASK_4KB_ADD..=MASK_2MB => assert!(align == 2 * 1024 * 1024),
            MASK_2MB_ADD..=MASK_1GB => assert!(align == 1024 * 1024 * 1024),
            _ => unreachable!(),
        }
    }
}

#[test]
fn physical_layout_alignments_and_split() {
    let small = PhysicalLayout::from_pages(3).ok().expect("small");
    assert_eq!((small.size(), small.align()), (3, 4096));
    let middle = PhysicalLayout::from_pages(0x3_FE00).ok().expect("middle");
    assert_eq!(middle.align(), 2 * 1024 * 1024);
    let huge = PhysicalLayout::from_pages(0x4_0000).ok().expect("huge");
    assert_eq!(huge.align(), 1024 * 1024 * 1024);
    let above = PhysicalLayout::from_pages(0x3_FE01).ok().expect("above");
    assert_eq!(above.align(), 1024 * 1024 * 1024);
    assert!(PhysicalLayout::from_pages(1 << 52).is_err());

    let mut l = PhysicalLayout::from_pages(5000).ok().expect("valid");
    let piece = l.split().expect("splits");
    assert_eq!(piece.size(), 2048);
    assert_eq!(l.size(), 5000 - 2048);
    assert_eq!((piece.align(), l.align()), (2 * 1024 * 1024, 2 * 1024 * 1024));

    let mut k = PhysicalLayout::from_pages(1000).ok().expect("valid");
    let piece = k.split().expect("splits");
    assert_eq!((piece.size(), k.size()), (512, 488));
    assert_eq!((piece.align(), k.align()), (2 * 1024 * 1024, 4096));

    let mut m = PhysicalLayout::from_pages(600).ok().expect("valid");
    let piece = m.split().expect("splits");
    assert_eq!((piece.size(), m.size()), (512, 88));

    let mut h = PhysicalLayout::from_pages(500).ok().expect("valid");
    let piece = h.split().expect("splits");
    assert_eq!((piece.size(), h.size()), (250, 250));

    let mut n = PhysicalLayout::from_pages(1500).ok().expect("valid");
    let piece = n.split().expect("splits");
    assert_eq!((piece.size(), n.size()), (512, 988));

    let mut one = PhysicalLayout::from_pages(1).ok().expect("valid");
    assert!(one.split().is_none());
    assert_eq!(one.size(), 1);
    assert_eq!(PhysicalLayout::get_align(0x4_0000), 30);
    assert_eq!(PhysicalLayout::get_align(0x200), 21);
    assert_eq!(PhysicalLayout::get_align(0x1FF), 12);
    assert_eq!(PhysicalLayout::get_align(0x3_FE00), 21);
    assert_eq!(PhysicalLayout::get_align(0x3_FE01), 30);
}
