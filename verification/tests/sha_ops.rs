use sha_on_cq::lookup_tables::{LookupTable, TCh, TDec, TMaj, TMod, TRot0, TRot1, TW1, TW2};
use sha_on_cq::sha_ops::{choice, majority, rot0, rot1, witness_op1, witness_op2};
use sha_on_cq::types::{decompose, Limb, Word};

fn rotr(x: Word, n: u32) -> Word {
    x.rotate_right(n)
}

#[test]
fn majority_and_choice_on_words() {
    assert_eq!(majority(0b1100u32, 0b1010, 0b0110), 0b1110);
    assert_eq!(choice(0b1100u32, 0b1010, 0b0110), 0b1010);
    assert_eq!(choice(0xffff_0000u32, 0x1234_5678, 0x9abc_def0), 0x1234_def0);
}

#[test]
fn majority_and_choice_commute_with_limbs() {
    let (x, y, z): (Word, Word, Word) = (0x6a09e667, 0xbb67ae85, 0x3c6ef372);
    let (lx, ly, lz) = (decompose(&x), decompose(&y), decompose(&z));
    let maj = decompose(&majority(x, y, z));
    let ch = decompose(&choice(x, y, z));
    for i in 0..3 {
        assert_eq!(maj[i], majority::<Limb>(lx[i], ly[i], lz[i]));
        assert_eq!(ch[i], choice::<Limb>(lx[i], ly[i], lz[i]));
    }
}

#[test]
fn rotations_match_big_sigmas() {
    let a: Word = 0x6a09e667;
    let e: Word = 0x510e527f;
    assert_eq!(rot0(decompose(&a)), rotr(a, 2) ^ rotr(a, 13) ^ rotr(a, 22));
    assert_eq!(rot1(decompose(&e)), rotr(e, 6) ^ rotr(e, 11) ^ rotr(e, 25));
}

#[test]
fn witness_ops_match_small_sigmas() {
    let w: Word = 0x8000_0000;
    assert_eq!(witness_op1(w), rotr(w, 17) ^ rotr(w, 19) ^ (w >> 10));
    assert_eq!(witness_op2(w), rotr(w, 7) ^ rotr(w, 18) ^ (w >> 3));
    assert_eq!(witness_op2(1), 0x0200_4000);
}

#[test]
fn lookup_tables_compute_their_functions() {
    let q: [Limb; 3] = [0b101, 0b011, 0b110];
    assert_eq!(TMaj::lookup(q), 0b111);
    assert_eq!(TCh::lookup(q), 0b011);
    assert_eq!(TRot0::lookup(decompose(&1)), rotr(1, 2) ^ rotr(1, 13) ^ rotr(1, 22));
    assert_eq!(TRot1::lookup(decompose(&1)), rotr(1, 6) ^ rotr(1, 11) ^ rotr(1, 25));
    assert_eq!(TDec::lookup(0x1_ffff_ffff), [0x7ff, 0x7ff, 0x3ff]);
    assert_eq!(TW1::lookup(7), witness_op1(7));
    assert_eq!(TW2::lookup(7), witness_op2(7));
    assert_eq!(TMod::lookup(0x3_0000_0005), 5);
}
