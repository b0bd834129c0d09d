use vstd::prelude::*;

use crate::sha_ops::{
    big_sigma0, big_sigma1, ch16, choice, maj16, majority, rot0, rot1, small_sigma0, small_sigma1,
    witness_op1, witness_op2,
};
use crate::types::{compose_bits, decompose, limb_array, Limb, Word, WordSum};

verus! {

/// A table of query and result pairs that the circuit looks values up in.
pub trait LookupTable {
    type Query;
    type Result;

    fn lookup(query: Self::Query) -> Self::Result;
}

/// Majority of three limbs.
pub struct TMaj;

impl LookupTable for TMaj {
    type Query = [Limb; 3];
    type Result = Limb;

    fn lookup(query: [Limb; 3]) -> (r: Limb)
        ensures
            r == maj16(query[0], query[1], query[2]),
    {
        majority(query[0], query[1], query[2])
    }
}

/// Choice of three limbs.
pub struct TCh;

impl LookupTable for TCh {
    type Query = [Limb; 3];
    type Result = Limb;

    fn lookup(query: [Limb; 3]) -> (r: Limb)
        ensures
            r == ch16(query[0], query[1], query[2]),
    {
        choice(query[0], query[1], query[2])
    }
}

/// `Σ0` of the word made of three limbs.
pub struct TRot0;

impl LookupTable for TRot0 {
    type Query = [Limb; 3];
    type Result = Word;

    fn lookup(query: [Limb; 3]) -> (r: Word)
        ensures
            r == big_sigma0(compose_bits(query[0], query[1], query[2])),
    {
        rot0(query)
    }
}

/// `Σ1` of the word made of three limbs.
pub struct TRot1;

impl LookupTable for TRot1 {
    type Query = [Limb; 3];
    type Result = Word;

    fn lookup(query: [Limb; 3]) -> (r: Word)
        ensures
            r == big_sigma1(compose_bits(query[0], query[1], query[2])),
    {
        rot1(query)
    }
}

/// The limbs of the low 32 bits of a sum of words.
pub struct TDec;

impl LookupTable for TDec {
    type Query = WordSum;
    type Result = [Limb; 3];

    fn lookup(query: WordSum) -> (r: [Limb; 3])
        ensures
            r == limb_array(query as Word),
    {
        let limbs = decompose(&(query as Word));
        proof {
            assert(limbs =~= limb_array(query as Word));
        }
        limbs
    }
}

/// `σ1` of a word.
pub struct TW1;

impl LookupTable for TW1 {
    type Query = Word;
    type Result = Word;

    fn lookup(query: Word) -> (r: Word)
        ensures
            r == small_sigma1(query),
    {
        witness_op1(query)
    }
}

/// `σ0` of a word.
pub struct TW2;

impl LookupTable for TW2 {
    type Query = Word;
    type Result = Word;

    fn lookup(query: Word) -> (r: Word)
        ensures
            r == small_sigma0(query),
    {
        witness_op2(query)
    }
}

/// The low 32 bits of a sum of words.
pub struct TMod;

impl LookupTable for TMod {
    type Query = WordSum;
    type Result = Word;

    fn lookup(query: WordSum) -> (r: Word)
        ensures
            r == query as Word,
    {
        query as Word
    }
}

} // verus!
