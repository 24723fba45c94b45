//! Power-of-two alignment helpers shared by the allocators.
use vstd::prelude::*;
use vstd::arithmetic::power2::pow2;
use vstd::bits::{lemma_usize_pow2_no_overflow, lemma_usize_shl_is_mul, lemma_usize_shr_is_div};
use vstd::arithmetic::div_mod::lemma_fundamental_div_mod;

verus! {

/// `n` has exactly one bit set: it is `1 << k` for some `k` below the word width.
pub open spec fn is_pow2(n: usize) -> bool {
    exists|k: usize| k < usize::BITS && n == 1usize << k
}

/// The largest multiple of `a` that is at most `x`.
pub open spec fn round_down(x: int, a: int) -> int {
    (x / a) * a
}

/// The smallest multiple of `a` that is at least `x`.
pub open spec fn round_up(x: int, a: int) -> int {
    ((x + a - 1) / a) * a
}

/// A power of two below the word width is `pow2(k)`, so it is positive.
pub proof fn lemma_shifted_one(k: usize)
    requires
        k < usize::BITS,
    ensures
        (1usize << k) as nat == pow2(k as nat),
        (1usize << k) > 0,
{
    lemma_usize_pow2_no_overflow(k as nat);
    lemma_usize_shl_is_mul(1, k);
}

/// Masking with the two's complement negation of a power of two rounds down.
pub proof fn lemma_neg_mask_rounds_down(x: usize, a: usize)
    requires
        is_pow2(a),
    ensures
        a > 0,
        !a < usize::MAX,
        x & ((!a + 1) as usize) == round_down(x as int, a as int),
        x & !((a - 1) as usize) == round_down(x as int, a as int),
        round_down(x as int, a as int) <= x,
        x - round_down(x as int, a as int) < a,
        round_down(x as int, a as int) % (a as int) == 0,
{
    let k = choose|k: usize| k < usize::BITS && a == 1usize << k;
    lemma_shifted_one(k);
    assert(a != 0usize ==> !a < !0usize) by (bit_vector);
    assert(x & ((!a + 1) as usize) == (x >> k) << k) by (bit_vector)
        requires
            a == 1usize << k,
            k < usize::BITS,
    ;
    assert(x & !((a - 1) as usize) == (x >> k) << k) by (bit_vector)
        requires
            a == 1usize << k,
            k < usize::BITS,
    ;
    lemma_usize_shr_is_div(x, k);
    let q = x as int / a as int;
    lemma_fundamental_div_mod(x as int, a as int);
    assert(q * a <= x);
    assert((x >> k) * pow2(k as nat) <= usize::MAX);
    lemma_usize_shl_is_mul(x >> k, k);
    assert(round_down(x as int, a as int) % (a as int) == 0) by {
        vstd::arithmetic::div_mod::lemma_mod_multiples_basic(q, a as int);
    }
}

/// Rounding down or up to a positive `a` lands on a multiple of `a` within
/// `a` of the value rounded.
pub proof fn lemma_round_bounds(x: int, a: int)
    requires
        a > 0,
    ensures
        round_down(x, a) <= x < round_down(x, a) + a,
        round_down(x, a) % a == 0,
        x <= round_up(x, a) < x + a,
        round_up(x, a) % a == 0,
{
    lemma_fundamental_div_mod(x, a);
    lemma_fundamental_div_mod(x + a - 1, a);
    vstd::arithmetic::mul::lemma_mul_is_commutative(x / a, a);
    vstd::arithmetic::mul::lemma_mul_is_commutative((x + a - 1) / a, a);
    vstd::arithmetic::div_mod::lemma_mod_multiples_basic(x / a, a);
    vstd::arithmetic::div_mod::lemma_mod_multiples_basic((x + a - 1) / a, a);
    assert(0 <= x % a < a) by {
        vstd::arithmetic::div_mod::lemma_mod_bound(x, a);
    }
    assert(0 <= (x + a - 1) % a < a) by {
        vstd::arithmetic::div_mod::lemma_mod_bound(x + a - 1, a);
    }
}

/// A power of two is positive.
pub proof fn lemma_pow2_positive(a: usize)
    requires
        is_pow2(a),
    ensures
        a > 0,
{
    let k = choose|k: usize| k < usize::BITS && a == 1usize << k;
    lemma_shifted_one(k);
}

/// Whether `n` is a power of two.
pub fn is_power_of_two(n: usize) -> (r: bool)
    ensures
        r == is_pow2(n),
{
    let mut k: usize = 0;
    while k < usize::BITS as usize
        invariant
            k <= usize::BITS,
            forall|j: usize| j < k ==> n != 1usize << j,
        decreases usize::BITS - k,
    {
        if n == 1usize << k {
            return true;
        }
        k = k + 1;
    }
    false
}

/// Round `pos` down to a multiple of the power of two `align`.
pub fn align_down(pos: usize, align: usize) -> (r: usize)
    requires
        is_pow2(align),
    ensures
        r == round_down(pos as int, align as int),
{
    proof {
        lemma_neg_mask_rounds_down(pos, align);
    }
    pos & !(align - 1)
}

/// Round `pos` up to a multiple of the power of two `align`.
pub fn align_up(pos: usize, align: usize) -> (r: usize)
    requires
        is_pow2(align),
        pos + align <= usize::MAX,
    ensures
        r == round_up(pos as int, align as int),
{
    proof {
        lemma_neg_mask_rounds_down((pos + align - 1) as usize, align);
    }
    (pos + align - 1) & !(align - 1)
}

} // verus!
