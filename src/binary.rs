use vstd::arithmetic::power2::{lemma2_to64, lemma_pow2_pos, pow2};
use vstd::bits::{
    lemma_u32_low_bits_mask_is_mod, lemma_u32_pow2_no_overflow, lemma_u32_shl_is_mul,
    lemma_u32_shr_is_div, low_bits_mask,
};
use vstd::prelude::*;

verus! {

/// The field of `i` that starts at bit `low` and is `width` bits wide.
pub open spec fn bit_field(i: u32, low: nat, width: nat) -> nat {
    ((i as nat) / pow2(low)) % pow2(width)
}

/// Bit `k` of `i`, as 0 or 1.
pub open spec fn bit_at(i: u32, k: nat) -> nat {
    ((i as nat) / pow2(k)) % 2
}

/// The number of set bits of `i` among its `k` lowest bits.
pub open spec fn ones_below(i: u32, k: nat) -> nat
    decreases k,
{
    if k == 0 {
        0
    } else {
        ones_below(i, (k - 1) as nat) + bit_at(i, (k - 1) as nat)
    }
}

/// True when every bit set in `mask` is also set in `i`.
pub fn matches_mask(i: u32, mask: u32) -> (r: bool)
    ensures
        r == (i & mask == mask),
{
    (i & mask) == mask
}

/// A word whose `n` lowest bits are set and the others clear.
pub fn n_ones(n: u32) -> (r: u32)
    requires
        n < 32,
    ensures
        r as nat == low_bits_mask(n as nat),
        r as nat + 1 == pow2(n as nat),
{
    proof {
        lemma_u32_pow2_no_overflow(n as nat);
        lemma_u32_shl_is_mul(1, n);
        lemma_pow2_pos(n as nat);
    }
    (1u32 << n) - 1
}

/// The bits `low..=high` of `i`, shifted down to bit 0.
pub fn briz(i: u32, low: u32, high: u32) -> (r: u32)
    requires
        low <= high < 32,
        high - low < 31,
    ensures
        r as nat == bit_field(i, low as nat, (high - low + 1) as nat),
        (r as nat) < pow2((high - low + 1) as nat),
{
    let width: u32 = high - low + 1;
    let mask = n_ones(width);
    let shifted = i >> low;
    proof {
        lemma_u32_shr_is_div(i, low);
        lemma_u32_low_bits_mask_is_mod(shifted, width as nat);
        lemma_pow2_pos(width as nat);
        lemma_u32_pow2_no_overflow(width as nat);
    }
    shifted & mask
}

/// Bit `bit_index` of `i` as a boolean.
pub fn bit_as_bool(i: u32, bit_index: u32) -> (r: bool)
    requires
        bit_index < 32,
    ensures
        r == (bit_at(i, bit_index as nat) == 1),
{
    let shifted = i >> bit_index;
    proof {
        lemma_u32_shr_is_div(i, bit_index);
        lemma_u32_low_bits_mask_is_mod(shifted, 1);
        lemma2_to64();
    }
    (shifted & 1) == 1
}

/// A Thumb-2 instruction word is 32 bits wide; a Thumb one fits in its low half.
pub fn is_32_bit(i: u32) -> (r: bool)
    ensures
        r == (i >= 0x10000),
{
    let hi = i >> 16;
    proof {
        lemma_u32_shr_is_div(i, 16);
        lemma2_to64();
    }
    hi != 0
}

/// The number of set bits in `i`.
pub fn hamming_weight(i: u32) -> (r: u32)
    ensures
        r as nat == ones_below(i, 32),
        r <= 32,
{
    let mut count: u32 = 0;
    let mut k: u32 = 0;
    while k < 32
        invariant
            k <= 32,
            count as nat == ones_below(i, k as nat),
            count <= k,
        decreases 32 - k,
    {
        let bit = bit_as_bool(i, k);
        if bit {
            count = count + 1;
        }
        k = k + 1;
    }
    count
}

} // verus!
