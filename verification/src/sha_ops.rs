use std::ops::{BitAnd, BitXor, Not};

use vstd::prelude::*;
use vstd::std_specs::ops::{BitAndSpec, BitXorSpec, NotSpec};

use crate::types::{
    compose, compose_bits, lemma_limbs_of_word, limb_high, limb_low, limb_mid,
    bit_of, right_rotation, right_shift, rotr, Limb, Word,
};

verus! {

/// The bitwise majority of three values: each bit is the one held by at least two of them.
pub open spec fn maj_bits<T: BitAnd<Output = T> + BitXor<Output = T>>(x: T, y: T, z: T) -> T {
    x.bitand_spec(y).bitxor_spec(x.bitand_spec(z)).bitxor_spec(y.bitand_spec(z))
}

/// The bitwise choice of three values: each bit comes from `y` where `x` has a one, from
/// `z` where `x` has a zero.
pub open spec fn ch_bits<T: BitAnd<Output = T> + BitXor<Output = T> + Not<Output = T>>(
    x: T,
    y: T,
    z: T,
) -> T {
    x.bitand_spec(y).bitxor_spec(x.not_spec().bitand_spec(z))
}

/// Majority of three words.
pub open spec fn maj32(x: Word, y: Word, z: Word) -> Word {
    (x & y) ^ (x & z) ^ (y & z)
}

/// Choice of three words.
pub open spec fn ch32(x: Word, y: Word, z: Word) -> Word {
    (x & y) ^ (!x & z)
}

/// Majority of three limbs.
pub open spec fn maj16(x: Limb, y: Limb, z: Limb) -> Limb {
    (x & y) ^ (x & z) ^ (y & z)
}

/// Choice of three limbs.
pub open spec fn ch16(x: Limb, y: Limb, z: Limb) -> Limb {
    (x & y) ^ (!x & z)
}

/// The SHA-256 function `Σ0`.
pub open spec fn big_sigma0(a: Word) -> Word {
    rotr(a, 2) ^ rotr(a, 13) ^ rotr(a, 22)
}

/// The SHA-256 function `Σ1`.
pub open spec fn big_sigma1(e: Word) -> Word {
    rotr(e, 6) ^ rotr(e, 11) ^ rotr(e, 25)
}

/// The SHA-256 message schedule function `σ0`.
pub open spec fn small_sigma0(w: Word) -> Word {
    rotr(w, 7) ^ rotr(w, 18) ^ (w >> 3u32)
}

/// The SHA-256 message schedule function `σ1`.
pub open spec fn small_sigma1(w: Word) -> Word {
    rotr(w, 17) ^ rotr(w, 19) ^ (w >> 10u32)
}

/// `Σ0` of the word that the limbs make up.
pub fn rot0(a_limbs: [Limb; 3]) -> (r: Word)
    ensures
        r == big_sigma0(compose_bits(a_limbs[0], a_limbs[1], a_limbs[2])),
{
    let a = compose(&a_limbs);
    right_rotation(a, 2) ^ right_rotation(a, 13) ^ right_rotation(a, 22)
}

/// `Σ1` of the word that the limbs make up.
pub fn rot1(e_limbs: [Limb; 3]) -> (r: Word)
    ensures
        r == big_sigma1(compose_bits(e_limbs[0], e_limbs[1], e_limbs[2])),
{
    let e = compose(&e_limbs);
    right_rotation(e, 6) ^ right_rotation(e, 11) ^ right_rotation(e, 25)
}

/// `σ1`, the function applied to the word two places back in the message schedule.
pub fn witness_op1(w: Word) -> (r: Word)
    ensures
        r == small_sigma1(w),
{
    right_rotation(w, 17) ^ right_rotation(w, 19) ^ right_shift(w, 10)
}

/// `σ0`, the function applied to the word fifteen places back in the message schedule.
pub fn witness_op2(w: Word) -> (r: Word)
    ensures
        r == small_sigma0(w),
{
    right_rotation(w, 7) ^ right_rotation(w, 18) ^ right_shift(w, 3)
}

/// Bitwise majority of `x`, `y` and `z`.
pub fn majority<T: Copy + BitAnd<Output = T> + BitXor<Output = T>>(x: T, y: T, z: T) -> (r: T)
    requires
        forall|a: T, b: T| #[trigger] a.bitand_req(b),
        forall|a: T, b: T| #[trigger] a.bitxor_req(b),
    ensures
        T::obeys_bitand_spec() && T::obeys_bitxor_spec() ==> r == maj_bits(x, y, z),
{
    (x & y) ^ (x & z) ^ (y & z)
}

/// Bitwise choice by `x` between `y` and `z`.
pub fn choice<T: Copy + BitAnd<Output = T> + BitXor<Output = T> + Not<Output = T>>(
    x: T,
    y: T,
    z: T,
) -> (r: T)
    requires
        forall|a: T, b: T| #[trigger] a.bitand_req(b),
        forall|a: T, b: T| #[trigger] a.bitxor_req(b),
        forall|a: T| #[trigger] a.not_req(),
    ensures
        T::obeys_bitand_spec() && T::obeys_bitxor_spec() && T::obeys_not_spec() ==> r == ch_bits(
            x,
            y,
            z,
        ),
{
    (x & y) ^ (!x & z)
}

/// Majority commutes with splitting into limbs: the limbs of the majority of three words
/// are the majorities of their limbs, place by place.
pub proof fn lemma_majority_limbwise(x: Word, y: Word, z: Word)
    ensures
        limb_high(maj32(x, y, z)) == maj16(limb_high(x), limb_high(y), limb_high(z)),
        limb_mid(maj32(x, y, z)) == maj16(limb_mid(x), limb_mid(y), limb_mid(z)),
        limb_low(maj32(x, y, z)) == maj16(limb_low(x), limb_low(y), limb_low(z)),
{
    assert((((x & y) ^ (x & z) ^ (y & z)) / 0x20_0000) as u16 == ((((x / 0x20_0000) as u16) & ((y
        / 0x20_0000) as u16)) ^ (((x / 0x20_0000) as u16) & ((z / 0x20_0000) as u16)) ^ (((y
        / 0x20_0000) as u16) & ((z / 0x20_0000) as u16)))) by (bit_vector);
    assert(((((x & y) ^ (x & z) ^ (y & z)) / 0x400) % 0x800) as u16 == (((((x / 0x400) % 0x800)
        as u16) & (((y / 0x400) % 0x800) as u16)) ^ ((((x / 0x400) % 0x800) as u16) & (((z / 0x400)
        % 0x800) as u16)) ^ ((((y / 0x400) % 0x800) as u16) & (((z / 0x400) % 0x800) as u16))))
        by (bit_vector);
    assert((((x & y) ^ (x & z) ^ (y & z)) % 0x400) as u16 == ((((x % 0x400) as u16) & ((y % 0x400)
        as u16)) ^ (((x % 0x400) as u16) & ((z % 0x400) as u16)) ^ (((y % 0x400) as u16) & ((z
        % 0x400) as u16)))) by (bit_vector);
}

/// Choice commutes with splitting into limbs: the limbs of the choice of three words are
/// the choices of their limbs, place by place.
pub proof fn lemma_choice_limbwise(x: Word, y: Word, z: Word)
    ensures
        limb_high(ch32(x, y, z)) == ch16(limb_high(x), limb_high(y), limb_high(z)),
        limb_mid(ch32(x, y, z)) == ch16(limb_mid(x), limb_mid(y), limb_mid(z)),
        limb_low(ch32(x, y, z)) == ch16(limb_low(x), limb_low(y), limb_low(z)),
{
    assert((((x & y) ^ (!x & z)) / 0x20_0000) as u16 == ((((x / 0x20_0000) as u16) & ((y
        / 0x20_0000) as u16)) ^ (!((x / 0x20_0000) as u16) & ((z / 0x20_0000) as u16))))
        by (bit_vector);
    assert(((((x & y) ^ (!x & z)) / 0x400) % 0x800) as u16 == (((((x / 0x400) % 0x800) as u16)
        & (((y / 0x400) % 0x800) as u16)) ^ (!(((x / 0x400) % 0x800) as u16) & (((z / 0x400)
        % 0x800) as u16)))) by (bit_vector);
    assert((((x & y) ^ (!x & z)) % 0x400) as u16 == ((((x % 0x400) as u16) & ((y % 0x400) as u16))
        ^ (!((x % 0x400) as u16) & ((z % 0x400) as u16)))) by (bit_vector);
}

/// `rot0` on the limbs of a word is `Σ0` of the word, and `rot1` is `Σ1`.
pub proof fn lemma_rotations_of_limbs(w: Word)
    ensures
        big_sigma0(compose_bits(limb_high(w), limb_mid(w), limb_low(w))) == big_sigma0(w),
        big_sigma1(compose_bits(limb_high(w), limb_mid(w), limb_low(w))) == big_sigma1(w),
{
    lemma_limbs_of_word(w);
}

/// Each bit of the majority of three words is set exactly when the bit is set in at least
/// two of them.
pub proof fn lemma_majority_bits(x: Word, y: Word, z: Word, i: u32)
    requires
        i < 32,
    ensures
        bit_of(maj32(x, y, z), i) == ((bit_of(x, i) && bit_of(y, i)) || (bit_of(x, i) && bit_of(
            z,
            i,
        )) || (bit_of(y, i) && bit_of(z, i))),
{
    assert((((x & y) ^ (x & z) ^ (y & z)) >> i) & 1u32 == 1u32 <==> ((((x >> i) & 1u32 == 1u32)
        && ((y >> i) & 1u32 == 1u32)) || (((x >> i) & 1u32 == 1u32) && ((z >> i) & 1u32 == 1u32))
        || (((y >> i) & 1u32 == 1u32) && ((z >> i) & 1u32 == 1u32)))) by (bit_vector)
        requires
            i < 32,
    ;
}

/// Each bit of the choice of three words comes from `y` where `x` has the bit set, and
/// from `z` where it does not.
pub proof fn lemma_choice_bits(x: Word, y: Word, z: Word, i: u32)
    requires
        i < 32,
    ensures
        bit_of(ch32(x, y, z), i) == if bit_of(x, i) {
            bit_of(y, i)
        } else {
            bit_of(z, i)
        },
{
    assert((((x & y) ^ (!x & z)) >> i) & 1u32 == 1u32 <==> (if (x >> i) & 1u32 == 1u32 {
        (y >> i) & 1u32 == 1u32
    } else {
        (z >> i) & 1u32 == 1u32
    })) by (bit_vector)
        requires
            i < 32,
    ;
}

/// Bit `i` of `Σ0(a)` is the exclusive or of the bits of `a` 2, 13 and 22 places above it,
/// counting round the word.
pub proof fn lemma_big_sigma0_bits(a: Word, i: u32)
    requires
        i < 32,
    ensures
        bit_of(big_sigma0(a), i) == (bit_of(a, ((i + 2) % 32) as u32) ^ bit_of(a, ((i + 13) % 32) as u32) ^ bit_of(
            a,
            ((i + 22) % 32) as u32,
        )),
{
    assert(((((a >> 2u32) | (a << 30u32)) ^ ((a >> 13u32) | (a << 19u32)) ^ ((a >> 22u32) | (a
        << 10u32))) >> i) & 1u32 == 1u32 <==> (((a >> (((i + 2) % 32) as u32)) & 1u32 == 1u32) ^ ((a >> (((i + 13) % 32) as u32)) & 1u32 == 1u32) ^ ((a >> (((i + 22) % 32) as u32)) & 1u32 == 1u32))) by (bit_vector)
        requires
            i < 32,
    ;
}

/// Bit `i` of `Σ1(e)` is the exclusive or of the bits of `e` 6, 11 and 25 places above it,
/// counting round the word.
pub proof fn lemma_big_sigma1_bits(e: Word, i: u32)
    requires
        i < 32,
    ensures
        bit_of(big_sigma1(e), i) == (bit_of(e, ((i + 6) % 32) as u32) ^ bit_of(e, ((i + 11) % 32) as u32) ^ bit_of(
            e,
            ((i + 25) % 32) as u32,
        )),
{
    assert(((((e >> 6u32) | (e << 26u32)) ^ ((e >> 11u32) | (e << 21u32)) ^ ((e >> 25u32) | (e
        << 7u32))) >> i) & 1u32 == 1u32 <==> (((e >> (((i + 6) % 32) as u32)) & 1u32 == 1u32) ^ ((e >> (((i + 11) % 32) as u32)) & 1u32 == 1u32) ^ ((e >> (((i + 25) % 32) as u32)) & 1u32 == 1u32))) by (bit_vector)
        requires
            i < 32,
    ;
}

/// Bit `i` of `σ0(w)` is the exclusive or of the bits of `w` 7 and 18 places above it,
/// counting round the word, and of the bit 3 places above it if there is one.
pub proof fn lemma_small_sigma0_bits(w: Word, i: u32)
    requires
        i < 32,
    ensures
        bit_of(small_sigma0(w), i) == (bit_of(w, ((i + 7) % 32) as u32) ^ bit_of(w, ((i + 18) % 32) as u32) ^ (i
            + 3 < 32 && bit_of(w, (i + 3) as u32))),
{
    assert(((((w >> 7u32) | (w << 25u32)) ^ ((w >> 18u32) | (w << 14u32)) ^ (w >> 3u32)) >> i)
        & 1u32 == 1u32 <==> (((w >> (((i + 7) % 32) as u32)) & 1u32 == 1u32) ^ ((w >> (((i + 18) % 32) as u32))
        & 1u32 == 1u32) ^ (i + 3 < 32 && (w >> ((i + 3) as u32)) & 1u32 == 1u32))) by (bit_vector)
        requires
            i < 32,
    ;
}

/// Bit `i` of `σ1(w)` is the exclusive or of the bits of `w` 17 and 19 places above it,
/// counting round the word, and of the bit 10 places above it if there is one.
pub proof fn lemma_small_sigma1_bits(w: Word, i: u32)
    requires
        i < 32,
    ensures
        bit_of(small_sigma1(w), i) == (bit_of(w, ((i + 17) % 32) as u32) ^ bit_of(w, ((i + 19) % 32) as u32) ^ (i
            + 10 < 32 && bit_of(w, (i + 10) as u32))),
{
    assert(((((w >> 17u32) | (w << 15u32)) ^ ((w >> 19u32) | (w << 13u32)) ^ (w >> 10u32)) >> i)
        & 1u32 == 1u32 <==> (((w >> (((i + 17) % 32) as u32)) & 1u32 == 1u32) ^ ((w >> (((i + 19) % 32) as u32))
        & 1u32 == 1u32) ^ (i + 10 < 32 && (w >> ((i + 10) as u32)) & 1u32 == 1u32))) by (bit_vector)
        requires
            i < 32,
    ;
}

} // verus!
