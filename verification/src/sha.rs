use sha2::Digest;
use vstd::prelude::*;
use vstd::string::StringSliceAdditionalSpecFns;
use vstd::string::StrSliceExecFns;

use crate::trace::compression;
use crate::types::{be_word, bytes_to_words, lemma_be_word_bytes, word_byte, Word};

verus! {

/// The SHA-256 digest of `data`, as the `sha2` crate computes it.
pub uninterp spec fn sha256_digest(data: Seq<u8>) -> Seq<u8>;

/// The SHA-256 digest of `data`, computed by the `sha2` crate.
///
/// Trusted: `Sha256::digest` is taken to be a function of the bytes alone whose result is
/// named `sha256_digest`, of 32 bytes (the output size of `Sha256` in `sha2`), and, as the
/// crate documents, to be SHA-256: for a message that fits one chunk with its padding, the
/// words of the digest are the compression of the padded chunk from the initial hash value.
/// What it gives for longer messages is not stated beyond the name.
#[verifier::external_body]
fn sha256(data: &[u8]) -> (digest: Vec<u8>)
    ensures
        digest@ == sha256_digest(data@),
        digest@.len() == 32,
        data@.len() <= 55 ==> digest_words(digest@) == compression(message_words(data@)),
{
    sha2::Sha256::digest(data).to_vec()
}

/// The 8 bytes of `bits`, most significant first.
pub open spec fn length_bytes(bits: u64) -> Seq<u8> {
    Seq::new(8, |i: int| ((bits >> ((56 - 8 * i) as u64)) % 256) as u8)
}

/// The single 64-byte block that SHA-256 hashes for a message of at most 55 bytes: the
/// message, a one bit, zeros, and the length of the message in bits.
pub open spec fn padded_block(message: Seq<u8>) -> Seq<u8> {
    message + seq![0x80u8] + Seq::new((55 - message.len()) as nat, |i: int| 0u8) + length_bytes(
        (message.len() * 8) as u64,
    )
}

/// The 16 big-endian words of the padded block of `message`.
pub open spec fn message_words(message: Seq<u8>) -> Seq<Word> {
    Seq::new(16, |i: int| be_word(padded_block(message), i))
}

/// The 8 big-endian words of a 32-byte digest.
pub open spec fn digest_words(digest: Seq<u8>) -> Seq<Word> {
    Seq::new(8, |i: int| be_word(digest, i))
}

/// Convert `input` into an array of 16 words, which defines message schedule. The message
/// must fit a single chunk together with its padding: at most 55 bytes.
pub fn prepare_input(input: &str) -> (words: [Word; 16])
    requires
        input.spec_bytes().len() <= 55,
    ensures
        words@ == message_words(input.spec_bytes()),
{
    let mut bytes = input.as_bytes_vec();
    let ghost message = bytes@;

    let len = bytes.len() as u64;

    bytes.push(0b10000000);
    while bytes.len() % 64 != 56
        invariant
            message.len() == len,
            len <= 55,
            message.len() + 1 <= bytes@.len() <= 56,
            bytes@ == message + seq![0x80u8] + Seq::new(
                (bytes@.len() - message.len() - 1) as nat,
                |i: int| 0u8,
            ),
        decreases 56 - bytes@.len(),
    {
        bytes.push(0);
        assert(bytes@ =~= message + seq![0x80u8] + Seq::new(
            (bytes@.len() - message.len() - 1) as nat,
            |i: int| 0u8,
        ));
    }

    let message_len = len;
    let len = len << 3;
    assert(len == message_len * 8) by (bit_vector)
        requires
            len == message_len << 3u64,
            message_len <= 55,
    ;
    let ghost prefix = bytes@;
    for i in 0..8
        invariant
            prefix.len() == 56,
            bytes@ == prefix + length_bytes(len).take(i as int),
    {
        bytes.push(((len >> (56 - 8 * i)) % 256) as u8);
        assert(bytes@ =~= prefix + length_bytes(len).take(i + 1));
    }
    assert(bytes@ =~= padded_block(message));

    let words = bytes_to_words::<16>(bytes.as_slice());
    assert(words@ =~= message_words(message));
    words
}

/// The SHA-256 hash of `input` as 8 big-endian words.
pub fn sha_hash(input: &str) -> (words: [Word; 8])
    ensures
        words@ == digest_words(sha256_digest(input.spec_bytes())),
        input.spec_bytes().len() <= 55 ==> words@ == compression(
            message_words(input.spec_bytes()),
        ),
{
    let hash = sha256(input.as_bytes());
    let words = bytes_to_words::<8>(hash.as_slice());
    assert(words@ =~= digest_words(sha256_digest(input.spec_bytes())));
    words
}

/// The bytes of the length field of a short message: six zero bytes, then the length in
/// bits over the last two.
proof fn lemma_length_field(bits: u64)
    by (bit_vector)
    requires
        bits < 0x1_0000,
    ensures
        (bits >> 56u64) % 256 == 0,
        (bits >> 48u64) % 256 == 0,
        (bits >> 40u64) % 256 == 0,
        (bits >> 32u64) % 256 == 0,
        (bits >> 24u64) % 256 == 0,
        (bits >> 16u64) % 256 == 0,
        ((bits >> 8u64) % 256) * 0x100 + (bits >> 0u64) % 256 == bits,
{
}

/// Byte `k` of the words of the chunk of a short message is byte `k` of its padded block.
proof fn lemma_chunk_byte(m: Seq<u8>, k: int)
    requires
        m.len() <= 55,
        0 <= k < 64,
    ensures
        word_byte(message_words(m), k) == padded_block(m)[k],
{
    let block = padded_block(m);
    let i = k / 4;
    let t = k % 4;
    assert(k == 4 * i + t);
    lemma_be_word_bytes(
        block[4 * i],
        block[4 * i + 1],
        block[4 * i + 2],
        block[4 * i + 3],
        message_words(m)[i],
    );
    if t == 0 {
        assert(4 * i == k);
    } else if t == 1 {
        assert(4 * i + 1 == k);
    } else if t == 2 {
        assert(4 * i + 2 == k);
    } else {
        assert(4 * i + 3 == k);
    }
}

/// The chunk that `prepare_input` makes of a message of at most 55 bytes: its words hold
/// the message's bytes as they are, in order, then the byte 0x80, then zeros up to the last
/// two words, which hold the length of the message in bits.
pub proof fn lemma_chunk_of_message(m: Seq<u8>)
    requires
        m.len() <= 55,
    ensures
        forall|k: int| 0 <= k < m.len() ==> #[trigger] word_byte(message_words(m), k) == m[k],
        word_byte(message_words(m), m.len() as int) == 0x80,
        forall|k: int| m.len() < k < 56 ==> #[trigger] word_byte(message_words(m), k) == 0,
        message_words(m)[14] == 0,
        message_words(m)[15] == 8 * m.len(),
{
    let block = padded_block(m);
    assert forall|k: int| 0 <= k < m.len() implies #[trigger] word_byte(message_words(m), k)
        == m[k] by {
        lemma_chunk_byte(m, k);
    }
    lemma_chunk_byte(m, m.len() as int);
    assert forall|k: int| m.len() < k < 56 implies #[trigger] word_byte(message_words(m), k)
        == 0 by {
        lemma_chunk_byte(m, k);
    }
    let bits = (m.len() * 8) as u64;
    lemma_length_field(bits);
    assert(block.subrange(56, 64) =~= length_bytes(bits));
    assert(block[56] == length_bytes(bits)[0]);
    assert(block[57] == length_bytes(bits)[1]);
    assert(block[58] == length_bytes(bits)[2]);
    assert(block[59] == length_bytes(bits)[3]);
    assert(block[60] == length_bytes(bits)[4]);
    assert(block[61] == length_bytes(bits)[5]);
    assert(block[62] == length_bytes(bits)[6]);
    assert(block[63] == length_bytes(bits)[7]);
}

} // verus!
