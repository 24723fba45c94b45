//! The hashing state behind the map: keyed SipHash-1-3 hashers, the builder
//! that seeds them, and the Park–Miller–Lehmer generator that draws the keys.
use vstd::prelude::*;
use core::hash::{BuildHasher, Hasher};
use siphasher::sip::SipHasher13;
use vstd::string::StringSliceAdditionalSpecFns;
use vstd::arithmetic::power::pow;
use vstd::utf8::{
    encode_utf8, encode_scalar, leading_byte_width_1, leading_byte_width_2, leading_byte_width_3,
    leading_byte_width_4, last_continuation_byte, second_last_continuation_byte,
    third_last_continuation_byte,
};

verus! {

#[verifier::external_type_specification]
#[verifier::external_body]
pub struct ExSipHasher13(SipHasher13);

/// The bytes written so far into a `siphasher` SipHash-1-3 hasher.
pub uninterp spec fn sip13_written(h: SipHasher13) -> Seq<u8>;

/// The two keys that a `siphasher` SipHash-1-3 hasher was made with.
pub uninterp spec fn sip13_keys(h: SipHasher13) -> (u64, u64);

/// The SipHash-1-3 digest of `msg` under the keys `k0` and `k1`.
pub uninterp spec fn sip13_digest(k0: u64, k1: u64, msg: Seq<u8>) -> u64;

/// Calls `siphasher::sip::SipHasher13::new_with_keys`: a hasher keyed with
/// `k0` and `k1` that has been written nothing.
#[verifier::external_body]
fn sip13_new(k0: u64, k1: u64) -> (r: SipHasher13)
    ensures
        sip13_keys(r) == (k0, k1),
        sip13_written(r) == Seq::<u8>::empty(),
{
    SipHasher13::new_with_keys(k0, k1)
}

/// Calls `<siphasher::sip::SipHasher13 as Hasher>::write`: the hasher has then
/// been written `msg` after what it had been written before (its source keeps
/// a tail buffer, so only the concatenation matters). The source counts the
/// bytes in a `usize`; that more than `usize::MAX` bytes written into one
/// hasher would overflow that count is left unsaid, since `Hasher::write`
/// admits no precondition.
#[verifier::external_body]
fn sip13_write(h: &mut SipHasher13, msg: &[u8])
    ensures
        sip13_keys(*final(h)) == sip13_keys(*old(h)),
        sip13_written(*final(h)) == sip13_written(*old(h)) + msg@,
{
    h.write(msg)
}

/// Calls `<siphasher::sip::SipHasher13 as Hasher>::finish`: the digest of
/// everything written, under the hasher's keys.
#[verifier::external_body]
fn sip13_finish(h: &SipHasher13) -> (r: u64)
    ensures
        r == sip13_digest(sip13_keys(*h).0, sip13_keys(*h).1, sip13_written(*h)),
{
    h.finish()
}

/// `siphasher::sip::SipHasher13` derives `Clone` (and `Copy`): the copy has
/// the same keys and the same bytes written.
pub assume_specification[ <SipHasher13 as Clone>::clone ](h: &SipHasher13) -> (r: SipHasher13)
    ensures
        sip13_keys(r) == sip13_keys(*h),
        sip13_written(r) == sip13_written(*h),
;

/// A SipHash-1-3 hasher.
#[derive(Debug)]
pub struct DefaultHasher(SipHasher13);

impl Clone for DefaultHasher {
    /// A hasher in the same state: the same keys and the same bytes written.
    fn clone(&self) -> (r: DefaultHasher)
        ensures
            r.keys() == self.keys(),
            r.written() == self.written(),
    {
        DefaultHasher(self.0.clone())
    }
}

impl DefaultHasher {
    /// The keys this hasher was made with.
    pub closed spec fn keys(&self) -> (u64, u64) {
        sip13_keys(self.0)
    }

    /// The bytes written into this hasher so far.
    pub closed spec fn written(&self) -> Seq<u8> {
        sip13_written(self.0)
    }

    /// A hasher with both keys zero.
    pub fn new() -> (r: DefaultHasher)
        ensures
            r.keys() == (0u64, 0u64),
            r.written() == Seq::<u8>::empty(),
    {
        DefaultHasher(sip13_new(0, 0))
    }
}

impl Default for DefaultHasher {
    /// A hasher with both keys zero, as [`DefaultHasher::new`].
    fn default() -> (r: DefaultHasher)
        ensures
            r.keys() == (0u64, 0u64),
            r.written() == Seq::<u8>::empty(),
    {
        DefaultHasher::new()
    }
}

impl DefaultHasher {
    /// Write the UTF-8 bytes of `s` followed by the byte `0xff`, which cannot
    /// occur in UTF-8, so that no string's input is a prefix of another's.
    pub fn write_str(&mut self, s: &str)
        ensures
            final(self).keys() == old(self).keys(),
            final(self).written() == old(self).written() + s.spec_bytes() + seq![0xffu8],
    {
        sip13_write(&mut self.0, s.as_bytes());
        let end: [u8; 1] = [0xff];
        sip13_write(&mut self.0, end.as_slice());
        assert(end@ =~= seq![0xffu8]);
    }
}

impl Hasher for DefaultHasher {
    /// Append `msg` to the bytes written so far.
    fn write(&mut self, msg: &[u8])
        ensures
            final(self).keys() == old(self).keys(),
            final(self).written() == old(self).written() + msg@,
    {
        sip13_write(&mut self.0, msg)
    }

    /// The SipHash-1-3 digest of the bytes written so far, under the keys.
    fn finish(&self) -> (r: u64)
        ensures
            r == sip13_digest(self.keys().0, self.keys().1, self.written()),
    {
        sip13_finish(&self.0)
    }
}

/// A hasher builder: the two keys that every hasher it builds starts from.
pub struct RandomState {
    k0: u64,
    k1: u64,
}

impl RandomState {
    /// The keys of the hashers this builder builds.
    pub closed spec fn keys(&self) -> (u64, u64) {
        (self.k0, self.k1)
    }

    /// A builder keyed from 128 random bits: the high half is the first key,
    /// the low half the second.
    pub fn new(random_bits: u128) -> (r: RandomState)
        ensures
            r.keys().0 == random_bits / 0x1_0000_0000_0000_0000,
            r.keys().1 == random_bits % 0x1_0000_0000_0000_0000,
    {
        let ret = random_bits;
        assert((ret >> 64u128) as u64 == ret / 0x1_0000_0000_0000_0000) by (bit_vector);
        assert((ret & 0x0000_0000_ffff_ffff_ffff_ffffu128) as u64 == ret % 0x1_0000_0000_0000_0000)
            by (bit_vector);
        RandomState {
            k0: (ret >> 64) as u64,
            k1: (ret & 0x0000_0000_ffff_ffff_ffff_ffff) as u64,
        }
    }
}

impl BuildHasher for RandomState {
    type Hasher = DefaultHasher;

    /// A fresh hasher with this builder's keys.
    fn build_hasher(&self) -> (r: DefaultHasher)
        ensures
            r.keys() == self.keys(),
            r.written() == Seq::<u8>::empty(),
    {
        DefaultHasher(sip13_new(self.k0, self.k1))
    }
}

/// The modulus of the Park–Miller–Lehmer generator, `2^32 - 1`.
pub const RAND_MAX: u64 = 4_294_967_295;

/// One step of the Park–Miller–Lehmer generator.
pub open spec fn lehmer_step(seed: u32) -> u32 {
    ((seed as nat * 48271) % (RAND_MAX as nat)) as u32
}

/// The generator's state after `n` steps from `seed`.
pub open spec fn lehmer_state(seed: u32, n: nat) -> u32
    decreases n,
{
    if n == 0 {
        seed
    } else {
        lehmer_step(lehmer_state(seed, (n - 1) as nat))
    }
}

/// The states after steps `1..=n` from `seed`, 32 bits each, the earliest
/// in the most significant place.
pub open spec fn lehmer_bits(seed: u32, n: nat) -> nat
    decreases n,
{
    if n == 0 {
        0
    } else {
        lehmer_bits(seed, (n - 1) as nat) * 0x1_0000_0000 + lehmer_state(seed, n) as nat
    }
}

/// The state the generator starts from: the stored seed, or, while that is
/// still zero, the low 32 bits of the clock in microseconds.
pub open spec fn lehmer_start(seed: u32, clock_micros: u128) -> u32 {
    if seed == 0 {
        clock_micros as u32
    } else {
        seed
    }
}

/// Draw 128 random bits: four steps of the generator, each contributing its
/// new state as the next 32 bits. A zero seed is first replaced from the
/// clock.
pub fn random_next(seed: &mut u32, clock_micros: u128) -> (r: u128)
    ensures
        *final(seed) == lehmer_state(lehmer_start(*old(seed), clock_micros), 4),
        r == lehmer_bits(lehmer_start(*old(seed), clock_micros), 4),
{
    if *seed == 0 {
        *seed = clock_micros as u32;
    }
    let ghost start = *seed;
    let mut ret: u128 = 0;
    let mut i: u32 = 0;
    while i < 4
        invariant
            i <= 4,
            *seed == lehmer_state(start, i as nat),
            ret == lehmer_bits(start, i as nat),
            ret < pow_word(i as nat),
        decreases 4 - i,
    {
        let next = ((*seed as u64 * 48271) % RAND_MAX) as u32;
        let shifted = ret << 32;
        assert(ret < pow_word(3)) by {
            lemma_pow_word_monotone(i as nat, 3);
        }
        assert(pow_word(3) == 0x1_0000_0000_0000_0000_0000_0000) by {
            reveal_with_fuel(pow_word, 4);
        }
        assert((ret << 32u128) | (next as u128) == ret * 0x1_0000_0000 + next) by (bit_vector)
            requires
                ret < 0x1_0000_0000_0000_0000_0000_0000u128,
        ;
        *seed = next;
        ret = shifted | (*seed as u128);
        assert(pow_word((i + 1) as nat) == pow_word(i as nat) * 0x1_0000_0000);
        i = i + 1;
    }
    ret
}

/// `2^(32 n)`.
pub open spec fn pow_word(n: nat) -> nat
    decreases n,
{
    if n == 0 {
        1
    } else {
        pow_word((n - 1) as nat) * 0x1_0000_0000
    }
}

proof fn lemma_pow_word_monotone(m: nat, n: nat)
    requires
        m <= n,
    ensures
        pow_word(m) <= pow_word(n),
    decreases n - m,
{
    if m < n {
        lemma_pow_word_monotone(m, (n - 1) as nat);
        assert(pow_word(n) == pow_word((n - 1) as nat) * 0x1_0000_0000);
    }
}


/// Stepping the generator `m` times and then `n` more is stepping it `m + n`
/// times.
pub proof fn lemma_lehmer_state_adds(seed: u32, m: nat, n: nat)
    ensures
        lehmer_state(lehmer_state(seed, m), n) == lehmer_state(seed, m + n),
    decreases n,
{
    if n > 0 {
        lemma_lehmer_state_adds(seed, m, (n - 1) as nat);
    }
}

/// Successive draws continue one Park–Miller–Lehmer sequence: once seeded,
/// a second draw yields the states that follow those of the first, and every
/// state after a step is below the modulus.
pub proof fn lemma_draws_continue(seed: u32, clock1: u128, clock2: u128)
    ensures
        ({
            let start = lehmer_start(seed, clock1);
            let after_first = lehmer_state(start, 4);
            &&& after_first < RAND_MAX
            &&& after_first != 0 ==> lehmer_state(lehmer_start(after_first, clock2), 4)
                == lehmer_state(start, 8)
        }),
{
    lemma_lehmer_state_adds(lehmer_start(seed, clock1), 4, 4);
}

/// No byte of a UTF-8 encoding is `0xff`.
pub proof fn lemma_utf8_has_no_ff(chars: Seq<char>)
    ensures
        forall|i: int| 0 <= i < encode_utf8(chars).len() ==> encode_utf8(chars)[i] != 0xffu8,
    decreases chars.len(),
{
    if chars.len() > 0 {
        let c = chars[0] as u32;
        lemma_utf8_has_no_ff(chars.drop_first());
        assert(leading_byte_width_1(c) != 0xffu8) by (bit_vector);
        assert(leading_byte_width_2(c) != 0xffu8) by (bit_vector);
        assert(leading_byte_width_3(c) != 0xffu8) by (bit_vector);
        assert(leading_byte_width_4(c) != 0xffu8) by (bit_vector);
        assert(last_continuation_byte(c) != 0xffu8) by (bit_vector);
        assert(second_last_continuation_byte(c) != 0xffu8) by (bit_vector);
        assert(third_last_continuation_byte(c) != 0xffu8) by (bit_vector);
        let head = encode_scalar(c);
        let tail = encode_utf8(chars.drop_first());
        assert forall|i: int| 0 <= i < encode_utf8(chars).len() implies encode_utf8(chars)[i]
            != 0xffu8 by {
            if i < head.len() {
                assert(encode_utf8(chars)[i] == head[i]);
            } else {
                assert(encode_utf8(chars)[i] == tail[i - head.len()]);
            }
        }
    }
}

/// What `write_str` feeds a hasher is prefix-free: if the input for one
/// string is a prefix of the input for another, the two strings have the
/// same bytes.
pub proof fn lemma_write_str_prefix_free(s1: Seq<char>, s2: Seq<char>)
    ensures
        (encode_utf8(s1) + seq![0xffu8]).is_prefix_of(encode_utf8(s2) + seq![0xffu8])
            ==> encode_utf8(s1) == encode_utf8(s2),
{
    let a = encode_utf8(s1);
    let b = encode_utf8(s2);
    if (a + seq![0xffu8]).is_prefix_of(b + seq![0xffu8]) {
        lemma_utf8_has_no_ff(s1);
        lemma_utf8_has_no_ff(s2);
        let n = a.len() as int;
        assert((a + seq![0xffu8])[n] == 0xffu8);
        assert((b + seq![0xffu8])[n] == 0xffu8);
        if n < b.len() {
            assert((b + seq![0xffu8])[n] == b[n]);
        }
        assert(n == b.len());
        assert forall|i: int| 0 <= i < n implies a[i] == b[i] by {
            assert((a + seq![0xffu8])[i] == (b + seq![0xffu8])[i]);
        }
        assert(a =~= b);
    }
}


/// One input fed to a hasher: raw bytes through `write`, or a string through
/// `write_str`.
pub enum HashInput {
    Bytes(Seq<u8>),
    Str(Seq<char>),
}

/// The bytes that one input appends to what a hasher has absorbed.
pub open spec fn input_bytes(input: HashInput) -> Seq<u8> {
    match input {
        HashInput::Bytes(bytes) => bytes,
        HashInput::Str(chars) => encode_utf8(chars) + seq![0xffu8],
    }
}

/// The bytes that the inputs `inputs`, fed in order, append.
pub open spec fn absorbed(inputs: Seq<HashInput>) -> Seq<u8>
    decreases inputs.len(),
{
    if inputs.len() == 0 {
        Seq::empty()
    } else {
        absorbed(inputs.drop_last()) + input_bytes(inputs.last())
    }
}

/// Feeding a hasher depends only on where it starts: two hashers with the
/// same keys and the same bytes written, fed the same inputs in order (each
/// `write` and `write_str` appends its input's bytes), finish with the same
/// digest, which is the digest of everything they absorbed. `new()` and
/// `default()` start alike (both keys zero, nothing written), so they agree
/// on every sequence of inputs.
pub proof fn lemma_same_start_same_digest(h1: DefaultHasher, h2: DefaultHasher, inputs: Seq<HashInput>)
    requires
        h1.keys() == h2.keys(),
        h1.written() == h2.written(),
    ensures
        sip13_digest(h1.keys().0, h1.keys().1, h1.written() + absorbed(inputs)) == sip13_digest(
            h2.keys().0,
            h2.keys().1,
            h2.written() + absorbed(inputs),
        ),
{
}

/// Feeding inputs one after another appends their bytes one after another.
pub proof fn lemma_absorbed_push(inputs: Seq<HashInput>, input: HashInput)
    ensures
        absorbed(inputs.push(input)) == absorbed(inputs) + input_bytes(input),
{
    assert(inputs.push(input).drop_last() =~= inputs);
}


/// After `n >= 1` steps from `seed` the generator's state is
/// `seed * 48271^n mod (2^32 - 1)`: the Park–Miller–Lehmer sequence with
/// multiplier 48271.
pub proof fn lemma_lehmer_closed_form(seed: u32, n: nat)
    requires
        n >= 1,
    ensures
        lehmer_state(seed, n) as int == (seed as int * pow(48271, n)) % 4_294_967_295,
    decreases n,
{
    reveal(pow);
    let m: int = 4_294_967_295;
    if n == 1 {
        assert(pow(48271, 1) == 48271 * pow(48271, 0));
        assert(pow(48271, 0) == 1);
        assert(0 <= (seed as int * 48271) % m < m) by {
            vstd::arithmetic::div_mod::lemma_mod_bound(seed as int * 48271, m);
        }
        assert(lehmer_state(seed, 0) == seed);
        assert(lehmer_state(seed, 1) == lehmer_step(seed));
    } else {
        lemma_lehmer_closed_form(seed, (n - 1) as nat);
        let prev = lehmer_state(seed, (n - 1) as nat) as int;
        let x = seed as int * pow(48271, (n - 1) as nat);
        assert(prev == x % m);
        vstd::arithmetic::div_mod::lemma_mul_mod_noop_left(x, 48271, m);
        assert(pow(48271, n) == 48271 * pow(48271, (n - 1) as nat));
        assert(x * 48271 == seed as int * pow(48271, n)) by (nonlinear_arith)
            requires
                x == seed as int * pow(48271, (n - 1) as nat),
                pow(48271, n) == 48271 * pow(48271, (n - 1) as nat),
        ;
        assert(0 <= (prev * 48271) % m < m) by {
            vstd::arithmetic::div_mod::lemma_mod_bound(prev * 48271, m);
        }
        assert(lehmer_state(seed, n) == lehmer_step(lehmer_state(seed, (n - 1) as nat)));
    }
}

/// A draw packs the four states it steps through into 128 bits, the first
/// state in the top 32 bits and the last in the bottom 32 bits.
pub proof fn lemma_draw_words(seed: u32)
    ensures
        lehmer_bits(seed, 4) == lehmer_state(seed, 1) as nat * 0x1_0000_0000_0000_0000_0000_0000
            + lehmer_state(seed, 2) as nat * 0x1_0000_0000_0000_0000 + lehmer_state(seed, 3) as nat
            * 0x1_0000_0000 + lehmer_state(seed, 4) as nat,
{
    reveal_with_fuel(lehmer_bits, 5);
    let a = lehmer_state(seed, 1) as nat;
    let b = lehmer_state(seed, 2) as nat;
    let c = lehmer_state(seed, 3) as nat;
    assert(((a * 0x1_0000_0000 + b) * 0x1_0000_0000 + c) * 0x1_0000_0000 == a
        * 0x1_0000_0000_0000_0000_0000_0000 + b * 0x1_0000_0000_0000_0000 + c * 0x1_0000_0000)
        by (nonlinear_arith);
}

} // verus!
