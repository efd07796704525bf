//! Sizes, alignment arithmetic and page alignment of integer addresses
use vstd::prelude::*;
use vstd::arithmetic::power2::{pow2, lemma_pow2_pos, lemma2_to64};
use vstd::arithmetic::div_mod::lemma_fundamental_div_mod_converse;
use vstd::bits::{
    low_bits_mask, lemma_u64_low_bits_mask_is_mod, lemma_usize_low_bits_mask_is_mod,
    lemma_u64_shl_is_mul, lemma_u64_shr_is_div, lemma_u64_pow2_no_overflow,
};
use vstd::std_specs::bits::{u64_trailing_zeros, axiom_u64_trailing_zeros};

verus! {

/// One kilobyte (1024 bytes)
pub const KB: usize = 1024;

/// One megabyte (1024 kilobytes)
pub const MB: usize = 1024 * KB;

/// One gigabyte (1024 megabytes)
pub const GB: usize = 1024 * MB;

/// One terabyte (1024 gigabytes)
pub const TB: u64 = 0x100_0000_0000;

/// Size of one memory page on x86_64
pub const PAGE_SIZE: usize = 4096;

/// Count of entries in one x86_64 page table
pub const PAGE_TABLE_ENTRY_COUNT: usize = 512;

/// `a` is a power of two that fits into 64 bits
pub open spec fn is_power_of_two(a: int) -> bool {
    exists|n: nat| n < 64 && #[trigger] pow2(n) == a
}

/// `x` aligned down to a multiple of `a`
pub open spec fn align_down_spec(x: int, a: int) -> int {
    x - x % a
}

/// `x` aligned up to a multiple of `a`; when the next multiple would exceed
/// `max`, the result saturates to the largest multiple of `a` that fits
pub open spec fn align_up_spec(x: int, a: int, max: int) -> int {
    if x % a == 0 {
        x
    } else if x - x % a + a <= max {
        x - x % a + a
    } else {
        x - x % a
    }
}

/// `r` is the lowest set bit of `x` (zero for zero)
pub open spec fn is_lowest_set_bit(x: int, r: int) -> bool {
    if x == 0 {
        r == 0
    } else {
        is_power_of_two(r) && x % r == 0 && (x / r) % 2 == 1
    }
}

/// The lowest set bit of a 64-bit value, as the bit pattern `x & -x`
pub open spec fn lowest_one(x: u64) -> u64 {
    x & ((!x + 1) as u64)
}

/// The lowest set bit of a nonzero value is at least one
pub proof fn lemma_lowest_one_positive(x: u64)
    requires
        x != 0,
    ensures
        lowest_one(x) >= 1,
{
    lemma_u64_lowest_set_bit(x, lowest_one(x));
    lemma_power_of_two_facts(lowest_one(x) as int);
}

/// The exponent of a power of two
pub open spec fn log2_of(a: int) -> nat {
    choose|n: nat| n < 64 && #[trigger] pow2(n) == a
}

pub proof fn lemma_power_of_two_facts(a: int)
    requires
        is_power_of_two(a),
    ensures
        0 < a,
        a <= 0x8000_0000_0000_0000,
        pow2(log2_of(a)) == a,
        log2_of(a) < 64,
        low_bits_mask(log2_of(a)) == a - 1,
{
    let n = log2_of(a);
    lemma_pow2_pos(n);
    lemma_u64_pow2_no_overflow(n);
    if n < 63 {
        vstd::arithmetic::power2::lemma_pow2_strictly_increases(n, 63);
    }
    lemma2_to64();
    vstd::arithmetic::power2::lemma2_to64_rest();
}

/// Aligning a value: an aligned value stays where it is; any other value goes down
/// to the multiple of `a` below it, or up to the multiple of `a` above it when that fits
/// under `max`; both results are multiples of `a`
pub proof fn lemma_alignment(x: int, a: int, max: int)
    requires
        0 <= x <= max,
        0 < a,
    ensures
        align_down_spec(x, a) % a == 0,
        align_down_spec(x, a) <= x < align_down_spec(x, a) + a,
        align_up_spec(x, a, max) % a == 0,
        x % a == 0 ==> align_down_spec(x, a) == x && align_up_spec(x, a, max) == x,
        x % a != 0 && x + a <= max ==> align_up_spec(x, a, max) == align_down_spec(x, a) + a,
        x + a <= max ==> x <= align_up_spec(x, a, max) < x + a,
{
    let q = x / a;
    vstd::arithmetic::div_mod::lemma_fundamental_div_mod(x, a);
    vstd::arithmetic::div_mod::lemma_mod_pos_bound(x, a);
    assert(x - x % a == a * q);
    vstd::arithmetic::div_mod::lemma_mod_multiples_basic(q, a);
    vstd::arithmetic::div_mod::lemma_mod_multiples_basic(q + 1, a);
    assert(a * q == q * a) by (nonlinear_arith);
    assert(a * q + a == (q + 1) * a) by (nonlinear_arith);
}

/// Masking with a power of two computes the remainder and the aligned-down value
pub proof fn lemma_u64_mask(x: u64, a: u64)
    requires
        is_power_of_two(a as int),
    ensures
        x & ((a - 1) as u64) == x % a,
        x & !((a - 1) as u64) == x - x % a,
{
    lemma_power_of_two_facts(a as int);
    lemma_u64_low_bits_mask_is_mod(x, log2_of(a as int));
    let m = (a - 1) as u64;
    assert(x & !m == x - (x & m)) by (bit_vector);
}

/// Masking with a power of two computes the remainder and the aligned-down value
pub proof fn lemma_usize_mask(x: usize, a: usize)
    requires
        is_power_of_two(a as int),
    ensures
        x & ((a - 1) as usize) == x % a,
        x & !((a - 1) as usize) == x - x % a,
{
    lemma_power_of_two_facts(a as int);
    let n = log2_of(a as int);
    assert(n < usize::BITS) by {
        if usize::BITS == 32 && n >= 32 {
            if n > 32 {
                vstd::arithmetic::power2::lemma_pow2_strictly_increases(32, n);
            }
            lemma2_to64();
            vstd::arithmetic::power2::lemma2_to64_rest();
        }
    }
    lemma_usize_low_bits_mask_is_mod(x, n);
    let m = (a - 1) as usize;
    assert(x & !m == x - (x & m)) by (bit_vector);
}

/// The arithmetic behind rounding up with `(x + a - 1) & !(a - 1)`
pub proof fn lemma_align_up_arith(x: int, a: int, y: int)
    requires
        0 <= x,
        0 < a,
        y == x + a - 1,
    ensures
        y - y % a == (if x % a == 0 { x } else { x - x % a + a }),
{
    let q = x / a;
    let r = x % a;
    vstd::arithmetic::div_mod::lemma_fundamental_div_mod(x, a);
    if r == 0 {
        assert(y == q * a + (a - 1));
        lemma_fundamental_div_mod_converse(y, a, q, a - 1);
    } else {
        assert(y == (q + 1) * a + (r - 1)) by (nonlinear_arith)
            requires
                y == x + a - 1,
                x == a * q + r,
        ;
        lemma_fundamental_div_mod_converse(y, a, q + 1, r - 1);
    }
}

/// When `x + a - 1` overflows, masking the saturated value gives the last multiple of `a`
pub proof fn lemma_align_up_saturated(x: int, a: int, max: int)
    requires
        0 <= x <= max,
        0 < a,
        (max + 1) % a == 0,
        x + a - 1 > max,
    ensures
        max - max % a == x - x % a,
        x % a != 0 ==> x - x % a + a > max,
        x % a == 0 ==> x == max - max % a,
{
    let k = (max + 1) / a;
    vstd::arithmetic::div_mod::lemma_fundamental_div_mod(max + 1, a);
    assert(max == (k - 1) * a + (a - 1)) by (nonlinear_arith)
        requires
            max + 1 == a * k,
    ;
    lemma_fundamental_div_mod_converse(max, a, k - 1, a - 1);
    vstd::arithmetic::div_mod::lemma_fundamental_div_mod(x, a);
    let q = x / a;
    // x lies in [(k - 1) * a, max]
    assert(x >= (k - 1) * a) by (nonlinear_arith)
        requires
            x + a - 1 > max,
            max == (k - 1) * a + (a - 1),
    ;
    assert(q == k - 1) by (nonlinear_arith)
        requires
            x == a * q + x % a,
            0 <= x % a < a,
            x >= (k - 1) * a,
            x <= (k - 1) * a + (a - 1),
            a > 0,
    ;
    assert(x - x % a == (k - 1) * a) by (nonlinear_arith)
        requires
            x == a * q + x % a,
            q == k - 1,
    ;
    assert((k - 1) * a + a == max + 1) by (nonlinear_arith)
        requires
            max + 1 == a * k,
    ;
}

/// `max + 1` is a multiple of any power of two for the 64-bit maximum
pub proof fn lemma_u64_max_multiple(a: int)
    requires
        is_power_of_two(a),
    ensures
        (u64::MAX + 1) % a == 0,
{
    lemma_power_of_two_facts(a);
    let n = log2_of(a);
    vstd::arithmetic::power2::lemma_pow2_adds(n, (64 - n) as nat);
    lemma2_to64();
    vstd::arithmetic::power2::lemma2_to64_rest();
    lemma_pow2_pos((64 - n) as nat);
    vstd::arithmetic::div_mod::lemma_mod_multiples_basic(pow2((64 - n) as nat) as int, a);
    assert(pow2(n) * pow2((64 - n) as nat) == pow2((64 - n) as nat) * pow2(n)) by (nonlinear_arith);
}

/// `max + 1` is a multiple of any power of two that fits into `usize`
pub proof fn lemma_usize_max_multiple(a: int)
    requires
        is_power_of_two(a),
        a <= usize::MAX,
    ensures
        (usize::MAX + 1) % a == 0,
{
    lemma_power_of_two_facts(a);
    let n = log2_of(a);
    let w: nat = usize::BITS as nat;
    lemma2_to64();
    vstd::arithmetic::power2::lemma2_to64_rest();
    assert(usize::MAX + 1 == pow2(w));
    if n > w {
        vstd::arithmetic::power2::lemma_pow2_strictly_increases(w, n);
    }
    assert(n <= w);
    vstd::arithmetic::power2::lemma_pow2_adds(n, (w - n) as nat);
    lemma_pow2_pos((w - n) as nat);
    vstd::arithmetic::div_mod::lemma_mod_multiples_basic(pow2((w - n) as nat) as int, a);
    assert(pow2(n) * pow2((w - n) as nat) == pow2((w - n) as nat) * pow2(n)) by (nonlinear_arith);
}

/// A single set bit is a power of two
pub proof fn lemma_single_bit_is_power_of_two(r: u64)
    requires
        r != 0,
        r & ((r - 1) as u64) == 0,
    ensures
        is_power_of_two(r as int),
        pow2(u64_trailing_zeros(r) as nat) == r,
        u64_trailing_zeros(r) < 64,
{
    axiom_u64_trailing_zeros(r);
    let tz = u64_trailing_zeros(r) as u64;
    assert(tz < 64);
    assert(r == 1u64 << tz) by (bit_vector)
        requires
            r != 0,
            r & ((r - 1) as u64) == 0,
            tz < 64,
            (r >> tz) & 1u64 == 1u64,
            r << ((64 - tz) as u64) == 0,
    ;
    lemma_u64_pow2_no_overflow(tz as nat);
    lemma_u64_shl_is_mul(1, tz);
    assert(pow2(tz as nat) == r);
}

/// `x & (!x + 1)` isolates the lowest set bit of a nonzero value
pub proof fn lemma_u64_lowest_set_bit(x: u64, r: u64)
    requires
        x != 0,
        r == x & ((!x + 1) as u64),
    ensures
        is_lowest_set_bit(x as int, r as int),
        r <= x,
{
    assert(r != 0 && r & ((r - 1) as u64) == 0 && x & ((r - 1) as u64) == 0 && x & r == r && r <= x)
        by (bit_vector)
        requires
            x != 0,
            r == x & ((!x + 1) as u64),
    ;
    lemma_single_bit_is_power_of_two(r);
    lemma_u64_mask(x, r);
    let tz = u64_trailing_zeros(r) as u64;
    lemma_u64_pow2_no_overflow(tz as nat);
    lemma_u64_shl_is_mul(1, tz);
    lemma_u64_shr_is_div(x, tz);
    assert((x >> tz) & 1u64 == 1u64) by (bit_vector)
        requires
            tz < 64,
            r == 1u64 << tz,
            x & r == r,
    ;
    let y = x >> tz;
    assert(y & 1u64 == 1u64 ==> y % 2 == 1) by (bit_vector);
}

/// The lowest set bit of a 64-bit value
pub fn lowest_set_bit_u64(x: u64) -> (r: u64)
    ensures
        is_lowest_set_bit(x as int, r as int),
        r == lowest_one(x),
        r <= x,
{
    if x == 0 {
        assert(lowest_one(0) == 0) by (bit_vector);
        0
    } else {
        assert(!x < u64::MAX) by (bit_vector)
            requires
                x != 0,
        ;
        let r = x & (!x + 1);
        proof {
            lemma_u64_lowest_set_bit(x, r);
        }
        r
    }
}

/// Manipulates the alignment of integer addresses
pub trait Alignment: Sized + Copy {
    /// The integer value of the address
    spec fn value(&self) -> int;

    /// The largest value the type can hold
    spec fn max_value() -> int;

    /// Aligns the address up to a specific boundary
    /// - The given `align` is required to be a power of two
    /// - Saturates to the last aligned value that fits
    fn align_up(self, align: usize) -> (r: Self)
        requires
            is_power_of_two(align as int),
            align as int <= Self::max_value(),
        ensures
            r.value() == align_up_spec(self.value(), align as int, Self::max_value()),
    ;

    /// Aligns the address down to a specific boundary
    /// - The given `align` is required to be a power of two
    fn align_down(self, align: usize) -> (r: Self)
        requires
            is_power_of_two(align as int),
            align as int <= Self::max_value(),
        ensures
            r.value() == align_down_spec(self.value(), align as int),
    ;

    /// Indicates if the address is aligned to a specific boundary
    /// - The given `align` is required to be a power of two
    fn is_aligned_to(&self, align: usize) -> (r: bool)
        requires
            is_power_of_two(align as int),
            align as int <= Self::max_value(),
        ensures
            r == (self.value() % align as int == 0),
    ;

    /// Returns the alignment of `self`: the lowest bit that is set
    fn get_align(&self) -> (r: Self)
        ensures
            is_lowest_set_bit(self.value(), r.value()),
    ;
}

/// Aligns integer addresses to the 4 KiB page boundary
pub trait PageAlignment: Alignment {
    /// Aligns the address up to a page boundary
    fn page_align_up(self) -> (r: Self)
        requires
            self.value() + PAGE_SIZE - 1 <= Self::max_value(),
        ensures
            r.value() == align_up_spec(self.value(), PAGE_SIZE as int, Self::max_value()),
    ;

    /// Aligns the address down to a page boundary
    fn page_align_down(self) -> (r: Self)
        ensures
            r.value() == align_down_spec(self.value(), PAGE_SIZE as int),
    ;

    /// Indicates whether an address is aligned to a page boundary
    fn is_page_aligned(&self) -> (r: bool)
        ensures
            r == (self.value() % PAGE_SIZE as int == 0),
    ;
}

pub proof fn lemma_page_size_is_power_of_two()
    ensures
        is_power_of_two(PAGE_SIZE as int),
{
    lemma2_to64();
    assert(pow2(12) == PAGE_SIZE);
}

impl Alignment for u64 {
    open spec fn value(&self) -> int {
        *self as int
    }

    open spec fn max_value() -> int {
        u64::MAX as int
    }

    fn align_up(self, align: usize) -> (r: u64) {
        proof {
            lemma_power_of_two_facts(align as int);
        }
        let a = align as u64;
        let y = self.saturating_add(a - 1);
        let r = y & !(a - 1);
        proof {
            lemma_u64_mask(y, a);
            if self as int + a - 1 <= u64::MAX {
                lemma_align_up_arith(self as int, a as int, y as int);
            } else {
                lemma_u64_max_multiple(a as int);
                lemma_align_up_saturated(self as int, a as int, u64::MAX as int);
            }
        }
        r
    }

    fn align_down(self, align: usize) -> (r: u64) {
        proof {
            lemma_power_of_two_facts(align as int);
            lemma_u64_mask(self, align as u64);
        }
        self & !((align as u64) - 1)
    }

    fn is_aligned_to(&self, align: usize) -> (r: bool) {
        proof {
            lemma_power_of_two_facts(align as int);
            lemma_u64_mask(*self, align as u64);
        }
        (*self & !((align as u64) - 1)) == *self
    }

    fn get_align(&self) -> (r: u64) {
        lowest_set_bit_u64(*self)
    }
}

impl PageAlignment for u64 {
    fn page_align_up(self) -> (r: u64) {
        proof {
            lemma_page_size_is_power_of_two();
        }
        self.align_up(PAGE_SIZE)
    }

    fn page_align_down(self) -> (r: u64) {
        proof {
            lemma_page_size_is_power_of_two();
            lemma_u64_mask(self, PAGE_SIZE as u64);
        }
        self & !((PAGE_SIZE as u64) - 1)
    }

    fn is_page_aligned(&self) -> (r: bool) {
        proof {
            lemma_page_size_is_power_of_two();
            lemma_u64_mask(*self, PAGE_SIZE as u64);
        }
        (*self & !((PAGE_SIZE as u64) - 1)) == *self
    }
}

impl Alignment for usize {
    open spec fn value(&self) -> int {
        *self as int
    }

    open spec fn max_value() -> int {
        usize::MAX as int
    }

    fn align_up(self, align: usize) -> (r: usize) {
        proof {
            lemma_power_of_two_facts(align as int);
        }
        let y = self.saturating_add(align - 1);
        let r = y & !(align - 1);
        proof {
            lemma_usize_mask(y, align);
            if self as int + align - 1 <= usize::MAX {
                lemma_align_up_arith(self as int, align as int, y as int);
            } else {
                lemma_usize_max_multiple(align as int);
                lemma_align_up_saturated(self as int, align as int, usize::MAX as int);
            }
        }
        r
    }

    fn align_down(self, align: usize) -> (r: usize) {
        proof {
            lemma_power_of_two_facts(align as int);
            lemma_usize_mask(self, align);
        }
        self & !(align - 1)
    }

    fn is_aligned_to(&self, align: usize) -> (r: bool) {
        proof {
            lemma_power_of_two_facts(align as int);
            lemma_usize_mask(*self, align);
        }
        (*self & !(align - 1)) == *self
    }

    fn get_align(&self) -> (r: usize) {
        let r = lowest_set_bit_u64(*self as u64);
        r as usize
    }
}

impl PageAlignment for usize {
    fn page_align_up(self) -> (r: usize) {
        proof {
            lemma_page_size_is_power_of_two();
            lemma_align_up_arith(self as int, PAGE_SIZE as int, self + PAGE_SIZE - 1);
            lemma_usize_mask((self + (PAGE_SIZE - 1)) as usize, PAGE_SIZE);
        }
        (self + (PAGE_SIZE - 1)) & !(PAGE_SIZE - 1)
    }

    fn page_align_down(self) -> (r: usize) {
        proof {
            lemma_page_size_is_power_of_two();
            lemma_usize_mask(self, PAGE_SIZE);
        }
        self & !(PAGE_SIZE - 1)
    }

    fn is_page_aligned(&self) -> (r: bool) {
        proof {
            lemma_page_size_is_power_of_two();
            lemma_usize_mask(*self, PAGE_SIZE);
        }
        (*self & !(PAGE_SIZE - 1)) == *self
    }
}

} // verus!
