use sha_on_cq::sha::{prepare_input, sha_hash};
use sha_on_cq::types::Word;

#[test]
fn test_prepare_empty_input() {
    const EXPECTED: [Word; 16] = [
        0b10000000000000000000000000000000,
        0b00000000000000000000000000000000,
        0b00000000000000000000000000000000,
        0b00000000000000000000000000000000,
        0b00000000000000000000000000000000,
        0b00000000000000000000000000000000,
        0b00000000000000000000000000000000,
        0b00000000000000000000000000000000,
        0b00000000000000000000000000000000,
        0b00000000000000000000000000000000,
        0b00000000000000000000000000000000,
        0b00000000000000000000000000000000,
        0b00000000000000000000000000000000,
        0b00000000000000000000000000000000,
        0b00000000000000000000000000000000,
        0b00000000000000000000000000000000,
    ];

    assert_eq!(prepare_input(""), EXPECTED);
}

#[test]
fn test_sha_hash_empty_input() {
    const EXPECTED: [Word; 8] = [
        0xe3b0c442, 0x98fc1c14, 0x9afbf4c8, 0x996fb924, 0x27ae41e4, 0x649b934c, 0xa495991b,
        0x7852b855,
    ];
    assert_eq!(sha_hash(""), EXPECTED);
}

#[test]
fn test_prepare_input_hello_world() {
    const EXPECTED: [Word; 16] = [
        0b01101000011001010110110001101100,
        0b01101111001000000111011101101111,
        0b01110010011011000110010010000000,
        0b00000000000000000000000000000000,
        0b00000000000000000000000000000000,
        0b00000000000000000000000000000000,
        0b00000000000000000000000000000000,
        0b00000000000000000000000000000000,
        0b00000000000000000000000000000000,
        0b00000000000000000000000000000000,
        0b00000000000000000000000000000000,
        0b00000000000000000000000000000000,
        0b00000000000000000000000000000000,
        0b00000000000000000000000000000000,
        0b00000000000000000000000000000000,
        0b00000000000000000000000001011000,
    ];
    assert_eq!(prepare_input("hello world"), EXPECTED);
}

#[test]
fn test_sha_hash_hello_world() {
    const EXPECTED: [Word; 8] = [
        0xb94d27b9, 0x934d3e08, 0xa52e52d7, 0xda7dabfa, 0xc484efe3, 0x7a5380ee, 0x9088f7ac,
        0xe2efcde9,
    ];
    assert_eq!(sha_hash("hello world"), EXPECTED);
}

#[test]
fn prepare_input_longest_single_block_message() {
    let message = "abcdefghijklmnopqrstuvwxyzabcdefghijklmnopqrstuvwxyzab";
    assert_eq!(message.len(), 54);
    let words = prepare_input(message);
    assert_eq!(words[0], 0x61626364);
    assert_eq!(words[12], u32::from_be_bytes(*b"wxyz"));
    // The one bit directly follows the message, then the length in bits (432).
    assert_eq!(words[13], 0x61628000);
    assert_eq!(words[14], 0);
    assert_eq!(words[15], 432);
}

#[test]
fn prepare_input_places_one_bit_and_length() {
    let words = prepare_input("abc");
    assert_eq!(words[0], 0x61626380);
    for word in &words[1..15] {
        assert_eq!(*word, 0);
    }
    assert_eq!(words[15], 24);
}

#[test]
fn sha_hash_abc() {
    assert_eq!(
        sha_hash("abc"),
        [
            0xba7816bf, 0x8f01cfea, 0x414140de, 0x5dae2223, 0xb00361a3, 0x96177a9c, 0xb410ff61,
            0xf20015ad
        ]
    );
}

#[test]
fn prepare_input_accepts_55_bytes() {
    let message = "abcdefghijklmnopqrstuvwxyzabcdefghijklmnopqrstuvwxyzabc";
    assert_eq!(message.len(), 55);
    let words = prepare_input(message);
    // The one bit takes the last byte before the length; no zero bytes are added.
    assert_eq!(words[13], 0x61626380);
    assert_eq!(words[14], 0);
    assert_eq!(words[15], 440);
}
