//! A simple pseudo random number generator made for unit testing and fuzzing
//! - It is **NOT** a cryptographically safe generator
use vstd::prelude::*;

verus! {

/// The state after one step of the generator
pub open spec fn next_state(s: u64) -> u64 {
    s.wrapping_add(0x9E37_79B9_7F4A_7C15)
}

/// The number the generator gives out for the state it has stepped to
pub open spec fn scramble(z: u64) -> u64 {
    let z1 = (z ^ (z >> 30u64)).wrapping_mul(0xBF58_476D_1CE4_E5B9);
    let z2 = (z1 ^ (z1 >> 27u64)).wrapping_mul(0x94D0_49BB_1331_11EB);
    z2 ^ (z2 >> 31u64)
}

/// Calls the randomizer closure: `FnMut::call_mut` of std with no arguments
///
/// Claims only that the result is one the closure can return: it meets the
/// closure's own postcondition, as Verus takes of every call of a closure
#[verifier::external_body]
fn draw<R: FnMut() -> Result<usize, ()>>(f: &mut R) -> (r: Result<usize, ()>)
    ensures
        call_ensures(*old(f), (), r),
{
    f()
}

/// Calls `char::from_u32` of std
///
/// Claims what its documentation says: the character with the code point `n`,
/// and `None` exactly when `n` is no Unicode scalar value (a surrogate or above `0x10FFFF`)
#[verifier::external_body]
fn char_from_u32(n: u32) -> (r: Option<char>)
    ensures
        r is Some <==> (n < 0xD800 || (0xE000 <= n && n <= 0x10FFFF)),
        r matches Some(c) ==> c as u32 == n,
{
    char::from_u32(n)
}

/// Calls `String::push` of std
///
/// Claims what its documentation says: the character is appended to the end of the string
#[verifier::external_body]
fn push_char(string: &mut String, c: char)
    ensures
        final(string)@ == old(string)@.push(c),
{
    string.push(c)
}

/// The code-point ranges of the printable characters: ASCII, Latin extended,
/// Greek and Cyrillic, shapes and symbols, emoticons
pub open spec fn char_range(i: int) -> (u32, u32) {
    if i == 0 {
        (0x20, 0x7E)
    } else if i == 1 {
        (0xA0, 0x024F)
    } else if i == 2 {
        (0x0370, 0x052F)
    } else if i == 3 {
        (0x25A1, 0x2603)
    } else {
        (0x1F600, 0x1F64F)
    }
}

/// The bounds of the `i`-th range of printable characters
fn char_range_of(i: usize) -> (r: (usize, usize))
    ensures
        r.0 == char_range(i as int).0,
        r.1 == char_range(i as int).1,
{
    if i == 0 {
        (0x20, 0x7E)
    } else if i == 1 {
        (0xA0, 0x024F)
    } else if i == 2 {
        (0x0370, 0x052F)
    } else if i == 3 {
        (0x25A1, 0x2603)
    } else {
        (0x1F600, 0x1F64F)
    }
}

/// The code point of the character that `TestRng::next_char` draws from the state `s`:
/// one of the first four ranges, then a code point in it
pub open spec fn char_code(s: u64) -> u32 {
    let s1 = next_state(s);
    let range = char_range(((scramble(s1) as usize) % 4usize) as int);
    let s2 = next_state(s1);
    ((scramble(s2) as usize) % ((range.1 + 1 - range.0) as usize) + range.0) as u32
}

/// The state after `n` characters drawn from the state `s`
pub open spec fn after_chars(s: u64, n: nat) -> u64
    decreases n,
{
    if n == 0 {
        s
    } else {
        after_chars(next_state(next_state(s)), (n - 1) as nat)
    }
}

/// The code points of `n` characters drawn one after another from the state `s`
pub open spec fn char_codes(s: u64, n: nat) -> Seq<u32>
    decreases n,
{
    if n == 0 {
        Seq::empty()
    } else {
        seq![char_code(s)] + char_codes(next_state(next_state(s)), (n - 1) as nat)
    }
}

/// The `i`-th of `n` characters drawn from `s` is the one drawn from the state after `i` characters
pub proof fn lemma_char_codes(s: u64, n: nat, i: nat)
    requires
        i < n,
    ensures
        char_codes(s, n).len() == n,
        char_codes(s, n)[i as int] == char_code(after_chars(s, i)),
    decreases n,
{
    lemma_char_codes_len(s, n);
    if i > 0 {
        lemma_char_codes(next_state(next_state(s)), (n - 1) as nat, (i - 1) as nat);
    }
}

/// `n` characters are drawn
pub proof fn lemma_char_codes_len(s: u64, n: nat)
    ensures
        char_codes(s, n).len() == n,
    decreases n,
{
    if n > 0 {
        lemma_char_codes_len(next_state(next_state(s)), (n - 1) as nat);
    }
}

/// One more character drawn moves the state two steps on
proof fn lemma_after_chars_step(s: u64, n: nat)
    ensures
        after_chars(s, n + 1) == next_state(next_state(after_chars(s, n))),
    decreases n,
{
    let t = next_state(next_state(s));
    assert(after_chars(s, n + 1) == after_chars(t, n));
    if n > 0 {
        lemma_after_chars_step(t, (n - 1) as nat);
        assert(after_chars(s, n) == after_chars(t, (n - 1) as nat));
    } else {
        assert(after_chars(t, 0) == t);
    }
}

/// Simple pseudo random number generator made for unit testing and (maybe) fuzzing
/// - This is **NOT** cryptographically safe RNG
pub struct TestRng<R> {
    state: u64,
    f: R,
}

impl<R: FnMut() -> Result<usize, ()>> TestRng<R> {
    /// The state of the generator
    pub closed spec fn state(&self) -> u64 {
        self.state
    }

    /// The randomizer closure of the generator
    pub closed spec fn randomizer(&self) -> R {
        self.f
    }

    /// Constructs new uninitialized generator with state equal to zero
    pub fn new_uninit(randomizer: R) -> (r: Self)
        ensures
            r.state() == 0,
    {
        TestRng { state: 0, f: randomizer }
    }

    /// Constructs new uninitialized generator with the randomizer
    pub fn new_uninit_with(randomizer: R) -> (r: Self)
        ensures
            r.state() == 0,
    {
        TestRng { state: 0, f: randomizer }
    }

    /// Creates new generator and initializes it by the given randomizer: the state
    /// is the number the randomizer returns
    /// - Returns `Err` if the randomizer fails
    pub fn new(randomizer: R) -> (r: Result<Self, ()>)
        ensures
            r is Err ==> call_ensures(randomizer, (), Err::<usize, ()>(())),
            r matches Ok(rng) ==> exists|s: usize| #[trigger] call_ensures(randomizer, (), Ok::<usize, ()>(s))
                && rng.state() == s as u64,
    {
        let mut randomizer = randomizer;
        let ghost given = randomizer;
        let seed = draw(&mut randomizer);
        proof {
            match seed {
                Ok(x) => assert(call_ensures(given, (), Ok::<usize, ()>(x))),
                Err(e) => assert(e == () && seed == Err::<usize, ()>(())),
            }
        }
        Self::from_seed(seed, randomizer)
    }

    /// Creates new generator from what its randomizer gave: its state is the seed
    /// - Returns `Err` if the randomizer failed
    pub fn from_seed(seed: Result<usize, ()>, randomizer: R) -> (r: Result<Self, ()>)
        ensures
            r is Err <==> seed is Err,
            r matches Ok(rng) ==> rng.state() == seed->Ok_0 as u64,
    {
        match seed {
            Ok(s) => Ok(TestRng { state: s as u64, f: randomizer }),
            Err(e) => Err(e),
        }
    }

    /// Initializes the generator by using the randomizer closure
    /// - Returns `Err` (and keeps the state) if the randomizer fails
    pub fn initialize(&mut self) -> (r: Result<(), ()>)
        ensures
            r is Err ==> final(self).state() == old(self).state(),
            r is Err ==> call_ensures(old(self).randomizer(), (), Err::<usize, ()>(())),
            r is Ok ==> exists|s: usize| #[trigger] call_ensures(old(self).randomizer(), (), Ok::<usize, ()>(s))
                && final(self).state() == s as u64,
    {
        let seed = draw(&mut self.f);
        proof {
            match seed {
                Ok(x) => assert(call_ensures(old(self).randomizer(), (), Ok::<usize, ()>(x))),
                Err(e) => assert(e == () && seed == Err::<usize, ()>(())),
            }
        }
        self.reseed(seed)
    }

    /// Initializes the generator by using the given closure
    /// - Returns `Err` (and keeps the state) if the closure fails
    pub fn initialize_with<X: FnMut() -> Result<usize, ()>>(&mut self, f: X) -> (r: Result<(), ()>)
        ensures
            r is Err ==> final(self).state() == old(self).state(),
            r is Err ==> call_ensures(f, (), Err::<usize, ()>(())),
            r is Ok ==> exists|s: usize| #[trigger] call_ensures(f, (), Ok::<usize, ()>(s)) && final(self).state()
                == s as u64,
    {
        let mut f = f;
        let ghost given = f;
        let seed = draw(&mut f);
        proof {
            match seed {
                Ok(x) => assert(call_ensures(given, (), Ok::<usize, ()>(x))),
                Err(e) => assert(e == () && seed == Err::<usize, ()>(())),
            }
        }
        self.reseed(seed)
    }

    /// Replaces the state by what a randomizer gave
    /// - Returns `Err` (and keeps the state) if the randomizer failed
    pub fn reseed(&mut self, seed: Result<usize, ()>) -> (r: Result<(), ()>)
        ensures
            r is Err <==> seed is Err,
            r is Err ==> final(self).state() == old(self).state(),
            r is Ok ==> final(self).state() == seed->Ok_0 as u64,
    {
        match seed {
            Ok(s) => {
                self.state = s as u64;
                Ok(())
            },
            Err(e) => Err(e),
        }
    }

    /// Randomizes the generator by xorring its state with the value returned by the randomizer
    /// - Returns `Err` (and keeps the state) if the randomizer fails
    pub fn randomize(&mut self) -> (r: Result<(), ()>)
        ensures
            r is Err ==> final(self).state() == old(self).state(),
            r is Err ==> call_ensures(old(self).randomizer(), (), Err::<usize, ()>(())),
            r is Ok ==> exists|v: usize| #[trigger] call_ensures(old(self).randomizer(), (), Ok::<usize, ()>(v))
                && final(self).state() == old(self).state() ^ (v as u64),
    {
        let value = draw(&mut self.f);
        proof {
            match value {
                Ok(x) => assert(call_ensures(old(self).randomizer(), (), Ok::<usize, ()>(x))),
                Err(e) => assert(e == () && value == Err::<usize, ()>(())),
            }
        }
        self.mix(value)
    }

    /// Randomizes the generator by xorring its state with the value returned by the given randomizer
    /// - Returns `Err` (and keeps the state) if the randomizer fails
    pub fn randomize_with<X: FnMut() -> Result<usize, ()>>(&mut self, f: X) -> (r: Result<(), ()>)
        ensures
            r is Err ==> final(self).state() == old(self).state(),
            r is Err ==> call_ensures(f, (), Err::<usize, ()>(())),
            r is Ok ==> exists|v: usize| #[trigger] call_ensures(f, (), Ok::<usize, ()>(v)) && final(self).state()
                == old(self).state() ^ (v as u64),
    {
        let mut f = f;
        let ghost given = f;
        let value = draw(&mut f);
        proof {
            match value {
                Ok(x) => assert(call_ensures(given, (), Ok::<usize, ()>(x))),
                Err(e) => assert(e == () && value == Err::<usize, ()>(())),
            }
        }
        self.mix(value)
    }

    /// Xors the state with what a randomizer gave
    /// - Returns `Err` (and keeps the state) if the randomizer failed
    pub fn mix(&mut self, value: Result<usize, ()>) -> (r: Result<(), ()>)
        ensures
            r is Err <==> value is Err,
            r is Err ==> final(self).state() == old(self).state(),
            r is Ok ==> final(self).state() == old(self).state() ^ (value->Ok_0 as u64),
    {
        match value {
            Ok(v) => {
                self.state = self.state ^ (v as u64);
                Ok(())
            },
            Err(e) => Err(e),
        }
    }

    /// Returns next random number
    pub fn next(&mut self) -> (r: usize)
        ensures
            final(self).state() == next_state(old(self).state()),
            r == scramble(final(self).state()) as usize,
    {
        self.state = self.state.wrapping_add(0x9E37_79B9_7F4A_7C15);
        let mut z = self.state;
        z = (z ^ (z >> 30u64)).wrapping_mul(0xBF58_476D_1CE4_E5B9);
        z = (z ^ (z >> 27u64)).wrapping_mul(0x94D0_49BB_1331_11EB);
        (z ^ (z >> 31u64)) as usize
    }

    /// Returns next random number in `start..end`, or zero if that range is empty
    pub fn next_range(&mut self, start: usize, end: usize) -> (r: usize)
        ensures
            final(self).state() == (if end > start {
                next_state(old(self).state())
            } else {
                old(self).state()
            }),
            end > start ==> r == (scramble(final(self).state()) as usize) % ((end - start) as usize) + start,
            end <= start ==> r == 0,
    {
        let dif = end.saturating_sub(start);
        if dif == 0 {
            0
        } else {
            self.next() % dif + start
        }
    }

    /// Generates a random printable character
    pub fn next_char(&mut self) -> (r: char)
        ensures
            final(self).state() == next_state(next_state(old(self).state())),
            r as u32 == char_code(old(self).state()),
    {
        let idx = self.next_range(0, 4);
        let (start, end) = char_range_of(idx);
        let num = self.next_range(start, end + 1) as u32;
        match char_from_u32(num) {
            Some(c) => c,
            None => {
                proof {
                    assert(false);
                }
                ' '
            },
        }
    }

    /// Generates `len` random printable characters and appends them to the `string`
    pub fn string(&mut self, string: &mut String, len: usize)
        ensures
            final(self).state() == after_chars(old(self).state(), len as nat),
            final(string)@.len() == old(string)@.len() + len,
            final(string)@.subrange(0, old(string)@.len() as int) == old(string)@,
            forall|i: int| 0 <= i < len ==> #[trigger] final(string)@[old(string)@.len() + i] as u32 == char_codes(
                old(self).state(),
                len as nat,
            )[i],
    {
        let ghost s0 = self.state;
        let ghost start = string@;
        let mut i: usize = 0;
        while i < len
            invariant
                i <= len,
                self.state == after_chars(s0, i as nat),
                string@.len() == start.len() + i,
                string@.subrange(0, start.len() as int) == start,
                forall|j: int| 0 <= j < i ==> #[trigger] string@[start.len() + j] as u32 == char_codes(s0, len as nat)[j],
            decreases len - i,
        {
            let ghost before = string@;
            let c = self.next_char();
            push_char(string, c);
            proof {
                lemma_after_chars_step(s0, i as nat);
                lemma_char_codes(s0, len as nat, i as nat);
                assert(string@.subrange(0, start.len() as int) =~= before.subrange(0, start.len() as int));
                assert forall|j: int| 0 <= j < i + 1 implies #[trigger] string@[start.len() + j] as u32 == char_codes(
                    s0,
                    len as nat,
                )[j] by {
                    if j < i {
                        assert(string@[start.len() + j] == before[start.len() + j]);
                    }
                }
            }
            i = i + 1;
        }
        proof {
            lemma_char_codes_len(s0, len as nat);
        }
    }

    /// Generates a new random string of `len` printable characters
    pub fn new_string(&mut self, len: usize) -> (r: String)
        ensures
            final(self).state() == after_chars(old(self).state(), len as nat),
            r@.len() == len,
            forall|i: int| 0 <= i < len ==> #[trigger] r@[i] as u32 == char_codes(old(self).state(), len as nat)[i],
    {
        let mut string = String::new();
        self.string(&mut string, len);
        proof {
            assert forall|i: int| 0 <= i < len implies #[trigger] string@[i] as u32 == char_codes(
                old(self).state(),
                len as nat,
            )[i] by {
                assert(string@[0 + i] as u32 == char_codes(old(self).state(), len as nat)[i]);
            }
        }
        string
    }

    /// Returns a random element of the nonempty `slice`
    pub fn from_slice<'l, T>(&mut self, slice: &'l [T]) -> (r: &'l T)
        requires
            slice@.len() > 0,
        ensures
            final(self).state() == next_state(old(self).state()),
            *r == slice@[((scramble(final(self).state()) as usize) % (slice@.len() as usize)) as int],
    {
        let i = self.next_range(0, slice.len());
        &slice[i]
    }

    /// Returns next random number as `isize`
    pub fn next_signed(&mut self) -> (r: isize)
        ensures
            final(self).state() == next_state(old(self).state()),
            r == scramble(final(self).state()) as usize as isize,
    {
        self.next() as isize
    }
}

} // verus!
