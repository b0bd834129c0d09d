use sha_on_cq::types::{
    bytes_to_words, compose, decompose, decompose_many, format_limb_bits, format_word_bits,
    format_wordsum_bits, right_rotation, right_shift, Bitem, Limb, Word, WordSum,
};

#[test]
fn decompose_splits_into_11_11_10_bits() {
    let word: Word = 0b10101010101_11001100110_1111000011;
    assert_eq!(decompose(&word), [0b10101010101, 0b11001100110, 0b1111000011]);
    assert_eq!(decompose(&0xffff_ffff), [0x7ff, 0x7ff, 0x3ff]);
    assert_eq!(decompose(&0), [0, 0, 0]);
}

#[test]
fn compose_undoes_decompose() {
    for word in [0u32, 1, 0x3ff, 0x400, 0x1f_ffff, 0x20_0000, 0x6a09e667, 0xffff_ffff] {
        assert_eq!(compose(&decompose(&word)), word);
    }
}

#[test]
fn decompose_undoes_compose_on_limbs_in_range() {
    let limbs: [Limb; 3] = [0x5a5, 0x7ff, 0x001];
    assert_eq!(decompose(&compose(&limbs)), limbs);
}

#[test]
fn compose_of_overlong_limbs_ors_the_overlap() {
    // A middle limb of 12 bits spills into the high limb's lowest bit.
    assert_eq!(compose(&[0, 0xfff, 0]), 0xfff << 10);
    assert_eq!(compose(&[1, 0x800, 0]), 1 << 21);
}

#[test]
fn right_rotation_moves_low_bits_to_the_top() {
    assert_eq!(right_rotation(1, 1), 0x8000_0000);
    assert_eq!(right_rotation(0x1234_5678, 8), 0x7812_3456);
    assert_eq!(right_rotation(0x8000_0001, 31), 0x0000_0003);
}

#[test]
fn right_shift_drops_low_bits() {
    assert_eq!(right_shift(0x8000_0000, 31), 1);
    assert_eq!(right_shift(0x1234_5678, 4), 0x0123_4567);
    assert_eq!(right_shift(7, 0), 7);
}

#[test]
fn bitem_from_sum_truncates() {
    let b = Bitem::from(0x1_2345_6789 as WordSum);
    assert_eq!(b.full, 0x1_2345_6789);
    assert_eq!(b.word, 0x2345_6789);
    assert_eq!(b.limbs, decompose(&0x2345_6789));
    let c = Bitem::from(0xdead_beef as Word);
    assert_eq!(c.full, 0xdead_beef);
    assert_eq!(c.word, 0xdead_beef);
    let d = Bitem::default();
    assert_eq!((d.full, d.word, d.limbs), (0, 0, [0, 0, 0]));
}

#[test]
fn format_bits_pads_to_width() {
    assert_eq!(format_word_bits(5), "00000000000000000000000000000101");
    assert_eq!(format_limb_bits(0x8001), "1000000000000001");
    assert_eq!(format_wordsum_bits(1 << 63), format!("1{}", "0".repeat(63)));
    assert_eq!(format_wordsum_bits(0x1_0000_0003), format!("{:064b}", 0x1_0000_0003u64));
}

#[test]
fn bytes_to_words_reads_big_endian() {
    let words: [Word; 2] = bytes_to_words(&[0x01, 0x02, 0x03, 0x04, 0xff, 0x00, 0x00, 0x80]);
    assert_eq!(words, [0x0102_0304, 0xff00_0080]);
}

#[test]
fn decompose_many_concatenates_limbs() {
    let words: [Word; 2] = [0xffff_ffff, 0x0020_0401];
    let limbs: [Limb; 6] = decompose_many(&words);
    assert_eq!(limbs, [0x7ff, 0x7ff, 0x3ff, 1, 1, 1]);
}
