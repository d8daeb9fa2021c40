//! Arithmetic of the packed handle word.
//!
//! A handle word is `generation * span + slot_number`, where `span` is the
//! least power of two above the live cap. The table computes with shifts and
//! masks; the lemmas here say what those compute as numbers.

use vstd::prelude::*;

verus! {

/// The number of binary digits of `n`; zero has none.
pub open spec fn bit_width(n: nat) -> nat
    decreases n,
{
    if n == 0 {
        0
    } else {
        1 + bit_width(n / 2)
    }
}

/// The number of distinct slot numbers, zero included, that a table with the
/// given live cap sets aside in a handle word.
pub open spec fn span(max_live: nat) -> nat {
    vstd::arithmetic::power2::pow2(bit_width(max_live))
}

/// A positive number lies between the two powers of two that its width names.
proof fn lemma_bit_width_bounds(n: nat)
    requires
        n > 0,
    ensures
        bit_width(n) >= 1,
        vstd::arithmetic::power2::pow2((bit_width(n) - 1) as nat) <= n,
        n < vstd::arithmetic::power2::pow2(bit_width(n)),
    decreases n,
{
    let w = bit_width(n);
    vstd::arithmetic::power2::lemma_pow2_unfold(w);
    if n == 1 {
        assert(bit_width(0) == 0);
        vstd::arithmetic::power2::lemma2_to64();
    } else {
        lemma_bit_width_bounds(n / 2);
        vstd::arithmetic::power2::lemma_pow2_unfold((w - 1) as nat);
    }
}

/// The width is the only exponent whose powers of two enclose the number.
proof fn lemma_bit_width_unique(n: nat, w: nat)
    requires
        w >= 1,
        vstd::arithmetic::power2::pow2((w - 1) as nat) <= n,
        n < vstd::arithmetic::power2::pow2(w),
    ensures
        bit_width(n) == w,
{
    vstd::arithmetic::power2::lemma_pow2_pos((w - 1) as nat);
    lemma_bit_width_bounds(n);
    let b = bit_width(n);
    if b < w {
        if b < w - 1 {
            vstd::arithmetic::power2::lemma_pow2_strictly_increases(b, (w - 1) as nat);
        }
    } else if w < b {
        if w < b - 1 {
            vstd::arithmetic::power2::lemma_pow2_strictly_increases(w, (b - 1) as nat);
        }
    }
}

/// A table's span exceeds its cap and fits in the low half of the word.
pub proof fn lemma_span_bounds(max_live: nat)
    requires
        0 < max_live <= 0xffff,
    ensures
        1 <= bit_width(max_live) <= 16,
        max_live < span(max_live) <= 0x1_0000,
{
    vstd::arithmetic::power2::lemma2_to64();
    lemma_bit_width_bounds(max_live);
    let w = bit_width(max_live);
    if w > 16 {
        if w > 17 {
            vstd::arithmetic::power2::lemma_pow2_strictly_increases(16, (w - 1) as nat);
        }
    } else if w < 16 {
        vstd::arithmetic::power2::lemma_pow2_strictly_increases(w, 16);
    }
}

/// The span is the least power of two above the cap.
pub proof fn lemma_span_is_least_power_of_two(max_live: nat)
    requires
        max_live > 0,
    ensures
        exists|exponent: nat| #[trigger]
            vstd::arithmetic::power2::pow2(exponent) == span(max_live),
        max_live < span(max_live) <= 2 * max_live,
{
    let w = bit_width(max_live);
    lemma_bit_width_bounds(max_live);
    vstd::arithmetic::power2::lemma_pow2_unfold(w);
    assert(vstd::arithmetic::power2::pow2(w) == span(max_live));
}

/// Counting leading zeros gives the width of the cap.
pub proof fn lemma_width_from_leading_zeros(max_live: u16)
    requires
        max_live > 0,
    ensures
        vstd::std_specs::bits::u32_leading_zeros(max_live as u32) < 32,
        32 - vstd::std_specs::bits::u32_leading_zeros(max_live as u32) == bit_width(
            max_live as nat,
        ),
{
    let x = max_live as u32;
    vstd::std_specs::bits::axiom_u32_leading_zeros(x);
    let lz = vstd::std_specs::bits::u32_leading_zeros(x);
    let b = (32 - lz) as u32;
    assert(1 <= b <= 16 && x < (1u32 << b) && (1u32 << ((b - 1) as u32)) <= x) by (bit_vector)
        requires
            1 <= b <= 32,
            0 < x <= 0xffff,
            x >> b == 0,
            (x >> ((b - 1) as u32)) & 1u32 != 0u32,
    ;
    vstd::arithmetic::power2::lemma2_to64();
    vstd::arithmetic::power2::lemma_pow2_pos(b as nat);
    if b < 16 {
        vstd::arithmetic::power2::lemma_pow2_strictly_increases(b as nat, 16);
    }
    vstd::arithmetic::power2::lemma_pow2_unfold(b as nat);
    vstd::bits::lemma_u32_shl_is_mul(1, b);
    vstd::bits::lemma_u32_shl_is_mul(1, (b - 1) as u32);
    lemma_bit_width_unique(max_live as nat, b as nat);
}

/// A one bit shifted left by the slot bits is the span.
pub proof fn lemma_shifted_one_is_span(max_live: nat, slot_bits: u32)
    requires
        0 < max_live <= 0xffff,
        slot_bits == bit_width(max_live),
    ensures
        1u32 << slot_bits == span(max_live),
{
    lemma_span_bounds(max_live);
    vstd::bits::lemma_u32_shl_is_mul(1, slot_bits);
}

/// Masking and shifting a word give its remainder and its quotient by the span.
pub proof fn lemma_split_word(max_live: nat, slot_bits: u32, slot_mask: u32, word: u32)
    requires
        0 < max_live <= 0xffff,
        slot_bits == bit_width(max_live),
        slot_mask == span(max_live) - 1,
    ensures
        word & slot_mask == word as nat % span(max_live),
        word >> slot_bits == word as nat / span(max_live),
{
    lemma_span_bounds(max_live);
    vstd::bits::lemma_u32_low_bits_mask_is_mod(word, slot_bits as nat);
    vstd::bits::lemma_u32_shr_is_div(word, slot_bits);
}

/// Shifting and joining give the packed number, which fits in a word.
pub proof fn lemma_join_word(max_live: nat, slot_bits: u32, generation: u32, slot_number: u32)
    requires
        0 < max_live <= 0xffff,
        slot_bits == bit_width(max_live),
        generation <= u32::MAX as nat / span(max_live),
        slot_number < span(max_live),
    ensures
        (generation << slot_bits) | slot_number == generation * span(max_live) + slot_number,
        generation * span(max_live) + slot_number <= u32::MAX,
{
    lemma_span_bounds(max_live);
    lemma_shifted_one_is_span(max_live, slot_bits);
    lemma_packed_fits(max_live, generation as nat, slot_number as nat);
    let span = span(max_live);
    assert(generation * span <= u32::MAX);
    vstd::bits::lemma_u32_shl_is_mul(generation, slot_bits);
    assert((generation << slot_bits) | slot_number == (generation << slot_bits) + slot_number)
        by (bit_vector)
        requires
            1 <= slot_bits <= 16,
            slot_number < 1u32 << slot_bits,
    ;
}

/// Every generation up to the last one leaves room for every slot number.
pub proof fn lemma_packed_fits(max_live: nat, generation: nat, slot_number: nat)
    requires
        0 < max_live <= 0xffff,
        generation <= u32::MAX as nat / span(max_live),
        slot_number < span(max_live),
    ensures
        generation * span(max_live) + slot_number <= u32::MAX,
{
    lemma_span_bounds(max_live);
    let w = bit_width(max_live);
    let s = span(max_live);
    let rest = vstd::arithmetic::power2::pow2((32 - w) as nat);
    vstd::arithmetic::power2::lemma_pow2_adds(w, (32 - w) as nat);
    vstd::arithmetic::power2::lemma2_to64();
    assert(s * rest == 0x1_0000_0000);
    assert(u32::MAX as nat / s < rest) by (nonlinear_arith)
        requires
            s * rest == 0x1_0000_0000,
            s > 0,
    ;
    assert(generation * s + slot_number < rest * s) by (nonlinear_arith)
        requires
            generation + 1 <= rest,
            slot_number < s,
    ;
    assert(rest * s == s * rest) by (nonlinear_arith);
}

/// Splitting a packed number gives back what was packed.
pub proof fn lemma_split_packed(max_live: nat, generation: nat, slot_number: nat)
    requires
        slot_number < span(max_live),
    ensures
        (generation * span(max_live) + slot_number) % span(max_live) == slot_number,
        (generation * span(max_live) + slot_number) / span(max_live) == generation,
{
    vstd::arithmetic::div_mod::lemma_fundamental_div_mod_converse(
        (generation * span(max_live) + slot_number) as int,
        span(max_live) as int,
        generation as int,
        slot_number as int,
    );
}

/// Packing what a word splits into gives back the word.
pub proof fn lemma_pack_split(max_live: nat, word: u32)
    ensures
        span(max_live) > 0,
        (word as nat / span(max_live)) * span(max_live) + word as nat % span(max_live) == word,
        word as nat % span(max_live) < span(max_live),
        word as nat / span(max_live) <= u32::MAX as nat / span(max_live),
{
    vstd::arithmetic::power2::lemma_pow2_pos(bit_width(max_live));
    let s = span(max_live) as int;
    vstd::arithmetic::div_mod::lemma_fundamental_div_mod(word as int, s);
    assert(s * (word as int / s) == (word as int / s) * s) by (nonlinear_arith);
    vstd::arithmetic::div_mod::lemma_div_is_ordered(word as int, u32::MAX as int, s);
}

} // verus!
