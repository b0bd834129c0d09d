use vstd::prelude::*;
use vstd::std_specs::convert::FromSpecImpl;
use vstd::string::StringExecFns;
use vstd::arithmetic::div_mod::{lemma_basic_div, lemma_div_denominator, lemma_fundamental_div_mod};
use vstd::arithmetic::power2::{lemma2_to64, lemma_pow2_pos, lemma_pow2_unfold, pow2};
use vstd::bits::lemma_u64_shr_is_div;

verus! {

/// A value that may hold the sum of several words (at most 64 bits).
pub type WordSum = u64;

/// A 32-bit SHA-256 word.
pub type Word = u32;

/// One of the three pieces (of 11, 11 and 10 bits) that a word is split into.
pub type Limb = u16;

/// A row or column position in the table.
pub type Index = usize;

/// The most significant limb of `w`: its top 11 bits.
pub open spec fn limb_high(w: Word) -> Limb {
    (w / 0x20_0000) as Limb
}

/// The middle limb of `w`: bits 10 to 20.
pub open spec fn limb_mid(w: Word) -> Limb {
    ((w / 0x400) % 0x800) as Limb
}

/// The least significant limb of `w`: its low 10 bits.
pub open spec fn limb_low(w: Word) -> Limb {
    (w % 0x400) as Limb
}

/// The three limbs of `w`, most significant first.
pub open spec fn limbs_of(w: Word) -> Seq<Limb> {
    seq![limb_high(w), limb_mid(w), limb_low(w)]
}

/// Whether each limb fits its width: 11, 11 and 10 bits.
pub open spec fn limbs_in_range(limbs: Seq<Limb>) -> bool {
    &&& limbs.len() == 3
    &&& limbs[0] < 0x800
    &&& limbs[1] < 0x800
    &&& limbs[2] < 0x400
}

/// The word whose limbs are `limbs`, when they fit their widths.
pub open spec fn value_of_limbs(limbs: Seq<Limb>) -> int {
    limbs[0] * 0x20_0000 + limbs[1] * 0x400 + limbs[2]
}

/// What `compose` computes on any three limbs: each limb shifted to its place in a
/// 32-bit word (bits shifted past bit 31 are lost), the three combined by bitwise or.
pub open spec fn compose_bits(l0: Limb, l1: Limb, l2: Limb) -> Word {
    ((l0 as Word) << 21u32) | ((l1 as Word) << 10u32) | (l2 as Word)
}

/// The limbs of a word are in range, and they put back together give the word.
pub proof fn lemma_limbs_of_word(w: Word)
    ensures
        limbs_in_range(limbs_of(w)),
        value_of_limbs(limbs_of(w)) == w,
        compose_bits(limb_high(w), limb_mid(w), limb_low(w)) == w,
{
    assert(((w / 0x20_0000) as u16) < 0x800 && (((w / 0x400) % 0x800) as u16) < 0x800 && ((w
        % 0x400) as u16) < 0x400 && ((w / 0x20_0000) as u16) as u32 * 0x20_0000u32 + (((w / 0x400)
        % 0x800) as u16) as u32 * 0x400u32 + ((w % 0x400) as u16) as u32 == w) by (bit_vector);
    assert(((w / 0x20_0000) as u16 as u32) << 21u32 | ((((w / 0x400) % 0x800) as u16 as u32)
        << 10u32) | ((w % 0x400) as u16 as u32) == w) by (bit_vector);
}

/// Limbs that fit their widths, put together and split again, come back unchanged.
pub proof fn lemma_decompose_compose(l0: Limb, l1: Limb, l2: Limb)
    requires
        l0 < 0x800,
        l1 < 0x800,
        l2 < 0x400,
    ensures
        limbs_of(compose_bits(l0, l1, l2)) == seq![l0, l1, l2],
{
    lemma_compose_in_range(l0, l1, l2);
    let w = compose_bits(l0, l1, l2);
    assert(w == l0 * 0x20_0000 + l1 * 0x400 + l2);
    assert(limb_high(w) == l0 && limb_mid(w) == l1 && limb_low(w) == l2) by (nonlinear_arith)
        requires
            w == l0 * 0x20_0000 + l1 * 0x400 + l2,
            l0 < 0x800,
            l1 < 0x800,
            l2 < 0x400,
            limb_high(w) == (w / 0x20_0000) as Limb,
            limb_mid(w) == ((w / 0x400) % 0x800) as Limb,
            limb_low(w) == (w % 0x400) as Limb,
    ;
    assert(limbs_of(w) =~= seq![l0, l1, l2]);
}

/// Splits a word into its three limbs, most significant first.
pub fn decompose(word: &Word) -> (limbs: [Limb; 3])
    ensures
        limbs@ == limbs_of(*word),
{
    let w = *word;
    assert((1u32 << 11u32) == 0x800 && (1u32 << 10u32) == 0x400) by (bit_vector);
    assert((w >> 21u32) % 0x800 == w / 0x20_0000 && w / 0x20_0000 < 0x800) by (bit_vector);
    assert((w >> 10u32) % 0x800 == (w / 0x400) % 0x800) by (bit_vector);
    [((w >> 21) % (1 << 11)) as Limb, ((w >> 10) % (1 << 11)) as Limb, (w % (1 << 10)) as Limb]
}

/// Puts three limbs back together into a word.
pub fn compose(limbs: &[Limb; 3]) -> (word: Word)
    ensures
        word == compose_bits(limbs[0], limbs[1], limbs[2]),
        limbs_in_range(limbs@) ==> word == value_of_limbs(limbs@),
{
    let r = (limbs[0] as Word) << 21 | (limbs[1] as Word) << 10 | limbs[2] as Word;
    proof {
        lemma_compose_in_range(limbs[0], limbs[1], limbs[2]);
    }
    r
}

/// Composing limbs that fit their widths is the same as adding them at their places.
pub proof fn lemma_compose_in_range(l0: Limb, l1: Limb, l2: Limb)
    ensures
        (l0 < 0x800 && l1 < 0x800 && l2 < 0x400) ==> compose_bits(l0, l1, l2) == l0 * 0x20_0000
            + l1 * 0x400 + l2,
{
    if l0 < 0x800 && l1 < 0x800 && l2 < 0x400 {
        assert((l0 as u32) << 21u32 | (l1 as u32) << 10u32 | (l2 as u32) == (l0 as u32) * 0x20_0000u32
            + (l1 as u32) * 0x400u32 + (l2 as u32)) by (bit_vector)
            requires
                l0 < 0x800 && l1 < 0x800 && l2 < 0x400,
        ;
    }
}

/// Rotation of a word `n` places to the right.
pub open spec fn rotr(w: Word, n: u32) -> Word
    recommends
        0 < n < 32,
{
    (w >> n) | (w << ((32 - n) as u32))
}

/// Whether bit `i` (counted from the least significant) of `w` is set.
pub open spec fn bit_of(w: Word, i: u32) -> bool {
    (w >> i) & 1u32 == 1u32
}

/// Rotates a word `n` places to the right.
pub fn right_rotation(word: Word, n: usize) -> (r: Word)
    requires
        0 < n < 32,
    ensures
        r == rotr(word, n as u32),
        forall|i: u32| i < 32 ==> #[trigger] bit_of(r, i) == bit_of(word, ((i + n) % 32) as u32),
{
    let k = n as u32;
    let r = (word >> k) | (word << (32 - k));
    assert(forall|i: u32| i < 32 ==> #[trigger] bit_of(r, i) == bit_of(word, ((i + k) % 32) as u32)) by (bit_vector)
        requires
            0 < k < 32,
            r == (word >> k) | (word << ((32 - k) as u32)),
    ;
    r
}

/// Shifts a word `n` places to the right.
pub fn right_shift(word: Word, n: usize) -> (r: Word)
    requires
        n < 32,
    ensures
        r == word >> (n as u32),
        r == word as nat / vstd::arithmetic::power2::pow2(n as nat),
{
    proof {
        vstd::bits::lemma_u32_shr_is_div(word, n as u32);
    }
    word >> n
}

/// The big-endian word made of bytes `4 * i` to `4 * i + 3` of `bytes`.
pub open spec fn be_word(bytes: Seq<u8>, i: int) -> Word {
    (bytes[4 * i] * 0x100_0000 + bytes[4 * i + 1] * 0x1_0000 + bytes[4 * i + 2] * 0x100 + bytes[4
        * i + 3]) as Word
}

/// Byte `k` of a sequence of big-endian words: byte `k % 4`, counted from the most
/// significant end, of word `k / 4`.
pub open spec fn word_byte(words: Seq<Word>, k: int) -> u8 {
    ((words[k / 4] >> ((24 - 8 * (k % 4)) as u32)) & 0xff) as u8
}

/// The bytes of a big-endian word read back from it.
pub proof fn lemma_be_word_bytes(b0: u8, b1: u8, b2: u8, b3: u8, w: Word)
    by (bit_vector)
    requires
        w == (b0 * 0x100_0000 + b1 * 0x1_0000 + b2 * 0x100 + b3) as Word,
    ensures
        ((w >> 24u32) & 0xff) as u8 == b0,
        ((w >> 16u32) & 0xff) as u8 == b1,
        ((w >> 8u32) & 0xff) as u8 == b2,
        ((w >> 0u32) & 0xff) as u8 == b3,
{
}

/// Reading `n` big-endian words from bytes keeps every byte: byte `k` of the words is byte
/// `k` of the input.
pub proof fn lemma_words_hold_bytes(bytes: Seq<u8>, n: int, k: int)
    requires
        bytes.len() == 4 * n,
        0 <= k < 4 * n,
    ensures
        word_byte(Seq::new(n as nat, |i: int| be_word(bytes, i)), k) == bytes[k],
{
    let i = k / 4;
    let t = k % 4;
    assert(k == 4 * i + t);
    lemma_be_word_bytes(bytes[4 * i], bytes[4 * i + 1], bytes[4 * i + 2], bytes[4 * i + 3], be_word(bytes, i));
    if t == 0 {
        assert(4 * i == k);
    } else if t == 1 {
        assert(4 * i + 1 == k);
    } else if t == 2 {
        assert(4 * i + 2 == k);
    } else {
        assert(4 * i + 3 == k);
    }
}

/// Reads `N` big-endian words from `4 * N` bytes.
pub fn bytes_to_words<const N: usize>(bytes: &[u8]) -> (words: [Word; N])
    requires
        bytes@.len() == 4 * N,
    ensures
        forall|i: int| 0 <= i < N ==> #[trigger] words@[i] == be_word(bytes@, i),
{
    let mut words = [0u32; N];
    let len = bytes.len();
    for i in 0..N
        invariant
            bytes@.len() == 4 * N,
            len == bytes@.len(),
            forall|j: int| 0 <= j < i ==> #[trigger] words@[j] == be_word(bytes@, j),
    {
        let b0 = bytes[4 * i] as Word;
        let b1 = bytes[4 * i + 1] as Word;
        let b2 = bytes[4 * i + 2] as Word;
        let b3 = bytes[4 * i + 3] as Word;
        assert(b0 * 0x100_0000 + b1 * 0x1_0000 + b2 * 0x100 + b3 <= 0xffff_ffff) by (nonlinear_arith)
            requires
                b0 < 256 && b1 < 256 && b2 < 256 && b3 < 256,
        ;
        let word = b0 * 0x100_0000 + b1 * 0x1_0000 + b2 * 0x100 + b3;
        words[i] = word;
    }
    words
}

/// The binary digits of the low `width` bits of `value`, most significant first.
pub open spec fn binary_digits(value: WordSum, width: nat) -> Seq<char> {
    Seq::new(
        width,
        |i: int|
            if (value >> ((width - 1 - i) as WordSum)) & 1 == 1 {
                '1'
            } else {
                '0'
            },
    )
}

/// The decimal digit `d` (below 10) as a character.
pub open spec fn digit_char(d: int) -> char {
    seq!['0', '1', '2', '3', '4', '5', '6', '7', '8', '9'][d]
}

/// The decimal numeral of `n`, most significant digit first, without leading zeros.
pub open spec fn decimal(n: nat) -> Seq<char>
    decreases n,
{
    if n < 10 {
        seq![digit_char(n as int)]
    } else {
        decimal(n / 10).push(digit_char((n % 10) as int))
    }
}

/// The decimal digit `d` (below 10) as a string.
fn digit_text(d: u64) -> (s: &'static str)
    requires
        d < 10,
    ensures
        s@ == seq![digit_char(d as int)],
{
    proof {
        reveal_strlit("0");
        reveal_strlit("1");
        reveal_strlit("2");
        reveal_strlit("3");
        reveal_strlit("4");
        reveal_strlit("5");
        reveal_strlit("6");
        reveal_strlit("7");
        reveal_strlit("8");
        reveal_strlit("9");
    }
    match d {
        0 => "0",
        1 => "1",
        2 => "2",
        3 => "3",
        4 => "4",
        5 => "5",
        6 => "6",
        7 => "7",
        8 => "8",
        _ => "9",
    }
}

/// Writes `n` in decimal.
pub fn decimal_text(n: u64) -> (s: String)
    ensures
        s@ == decimal(n as nat),
    decreases n,
{
    let last = digit_text(n % 10);
    if n < 10 {
        String::from_str(last)
    } else {
        let mut s = decimal_text(n / 10);
        s.append(last);
        s
    }
}

/// The value of a decimal digit character; zero for any other character.
pub open spec fn digit_value(c: char) -> nat {
    if '0' as int <= c as int <= '9' as int {
        (c as int - '0' as int) as nat
    } else {
        0
    }
}

/// The number that a string of decimal digits stands for, most significant digit first.
pub open spec fn decimal_value(digits: Seq<char>) -> nat
    decreases digits.len(),
{
    if digits.len() == 0 {
        0
    } else {
        10 * decimal_value(digits.drop_last()) + digit_value(digits.last())
    }
}

/// The character of a decimal digit stands for that digit.
proof fn lemma_digit_value(d: int)
    requires
        0 <= d < 10,
    ensures
        digit_value(digit_char(d)) == d,
{
    let digits = seq!['0', '1', '2', '3', '4', '5', '6', '7', '8', '9'];
    assert(digits[0] == '0' && digits[1] == '1' && digits[2] == '2' && digits[3] == '3'
        && digits[4] == '4' && digits[5] == '5' && digits[6] == '6' && digits[7] == '7'
        && digits[8] == '8' && digits[9] == '9');
}

/// A decimal digit character lies between '0' and '9' and is '0' only for zero.
proof fn lemma_digit_char(d: int)
    requires
        0 <= d < 10,
    ensures
        '0' as int <= digit_char(d) as int <= '9' as int,
        digit_char(d) == '0' <==> d == 0,
{
    let digits = seq!['0', '1', '2', '3', '4', '5', '6', '7', '8', '9'];
    assert(digits[0] == '0' && digits[1] == '1' && digits[2] == '2' && digits[3] == '3'
        && digits[4] == '4' && digits[5] == '5' && digits[6] == '6' && digits[7] == '7'
        && digits[8] == '8' && digits[9] == '9');
}

/// The decimal numeral that `decimal_text` writes is not empty, is made of the digits '0'
/// to '9' only, and starts with '0' only for zero (no leading zeros).
pub proof fn lemma_decimal_form(n: nat)
    ensures
        decimal(n).len() >= 1,
        forall|i: int|
            0 <= i < decimal(n).len() ==> '0' as int <= #[trigger] decimal(n)[i] as int <= '9' as int,
        decimal(n)[0] == '0' ==> n == 0,
    decreases n,
{
    lemma_digit_char((n % 10) as int);
    if n >= 10 {
        lemma_decimal_form(n / 10);
        let d = decimal(n);
        assert(d == decimal(n / 10).push(digit_char((n % 10) as int)));
        assert forall|i: int| 0 <= i < d.len() implies '0' as int <= #[trigger] d[i] as int <= '9' as int by {
            if i < d.len() - 1 {
                assert(d[i] == decimal(n / 10)[i]);
            }
        }
        assert(d[0] == decimal(n / 10)[0]);
    } else {
        assert(n % 10 == n);
    }
}

/// Reading back the decimal numeral that `decimal_text` writes gives the number.
pub proof fn lemma_decimal_read_back(n: nat)
    ensures
        decimal_value(decimal(n)) == n,
    decreases n,
{
    lemma_digit_value((n % 10) as int);
    if n >= 10 {
        lemma_decimal_read_back(n / 10);
        assert(decimal(n).drop_last() =~= decimal(n / 10));
        assert(decimal(n).last() == digit_char((n % 10) as int));
        assert(n == 10 * (n / 10) + n % 10);
        assert(decimal(n).len() > 0);
        assert(decimal_value(decimal(n)) == 10 * decimal_value(decimal(n).drop_last())
            + digit_value(decimal(n).last()));
    } else {
        assert(decimal(n).drop_last() =~= Seq::<char>::empty());
        assert(n % 10 == n);
        assert(decimal_value(decimal(n)) == 10 * decimal_value(decimal(n).drop_last())
            + digit_value(decimal(n).last()));
    }
}

/// Writes the low `width` bits of `value` as binary digits, most significant first.
fn format_bits(value: WordSum, width: usize) -> (s: String)
    requires
        width <= 64,
    ensures
        s@ == binary_digits(value, width as nat),
{
    let mut s = String::new();
    for i in 0..width
        invariant
            width <= 64,
            s@ == binary_digits(value, width as nat).take(i as int),
    {
        let bit = (value >> ((width - 1 - i) as WordSum)) & 1;
        proof {
            reveal_strlit("0");
            reveal_strlit("1");
        }
        if bit == 1 {
            s.append("1");
        } else {
            s.append("0");
        }
        assert(s@ =~= binary_digits(value, width as nat).take(i + 1));
    }
    assert(s@ =~= binary_digits(value, width as nat));
    s
}

/// The 64 binary digits of a sum of words, most significant first.
pub fn format_wordsum_bits(wordsum: WordSum) -> (s: String)
    ensures
        s@ == binary_digits(wordsum, 64),
{
    format_bits(wordsum, 64)
}

/// The 32 binary digits of a word, most significant first.
pub fn format_word_bits(word: Word) -> (s: String)
    ensures
        s@ == binary_digits(word as WordSum, 32),
{
    format_bits(word as WordSum, 32)
}

/// The 16 binary digits of a limb, most significant first.
pub fn format_limb_bits(limb: Limb) -> (s: String)
    ensures
        s@ == binary_digits(limb as WordSum, 16),
{
    format_bits(limb as WordSum, 16)
}

/// The number that a string of binary digits stands for, most significant digit first; a
/// `'1'` counts one and any other character zero.
pub open spec fn binary_value(digits: Seq<char>) -> nat
    decreases digits.len(),
{
    if digits.len() == 0 {
        0
    } else {
        2 * binary_value(digits.drop_last()) + if digits.last() == '1' {
            1nat
        } else {
            0nat
        }
    }
}

/// The first `k` of the `width` binary digits of `value` stand for `value` without its
/// last `width - k` binary digits.
proof fn lemma_binary_prefix(value: WordSum, width: nat, k: nat)
    requires
        width <= 64,
        k <= width,
        value < pow2(width),
    ensures
        binary_value(binary_digits(value, width).take(k as int)) == value as nat / pow2(
            (width - k) as nat,
        ),
    decreases k,
{
    let d = binary_digits(value, width);
    lemma_pow2_pos(width);
    if k == 0 {
        assert(d.take(0) =~= Seq::<char>::empty());
        lemma_basic_div(value as int, pow2(width) as int);
    } else {
        lemma_binary_prefix(value, width, (k - 1) as nat);
        let s = (width - k) as nat;
        assert(d.take(k as int).drop_last() =~= d.take(k - 1));
        assert(d.take(k as int).last() == d[k - 1]);
        lemma_u64_shr_is_div(value, s as u64);
        let q = value >> (s as u64);
        assert(q & 1 == q % 2) by (bit_vector);
        lemma_pow2_pos(s);
        lemma_pow2_unfold(s + 1);
        lemma_div_denominator(value as int, pow2(s) as int, 2);
        lemma_fundamental_div_mod(q as int, 2);
        assert(d[k - 1] == if q & 1 == 1 {
            '1'
        } else {
            '0'
        });
    }
}

/// Reading back the `width` binary digits of a value below `2^width` gives the value.
proof fn lemma_binary_digits_value(value: WordSum, width: nat)
    requires
        width <= 64,
        value < pow2(width),
    ensures
        binary_value(binary_digits(value, width)) == value,
{
    lemma_binary_prefix(value, width, width);
    lemma2_to64();
    assert(binary_digits(value, width).take(width as int) =~= binary_digits(value, width));
}

/// Reading back the digits that `format_wordsum_bits` writes gives the sum of words.
pub proof fn lemma_wordsum_bits_read_back(wordsum: WordSum)
    ensures
        binary_value(binary_digits(wordsum, 64)) == wordsum,
{
    lemma2_to64();
    lemma_binary_digits_value(wordsum, 64);
}

/// Reading back the digits that `format_word_bits` writes gives the word.
pub proof fn lemma_word_bits_read_back(word: Word)
    ensures
        binary_value(binary_digits(word as WordSum, 32)) == word,
{
    lemma2_to64();
    lemma_binary_digits_value(word as WordSum, 32);
}

/// Reading back the digits that `format_limb_bits` writes gives the limb.
pub proof fn lemma_limb_bits_read_back(limb: Limb)
    ensures
        binary_value(binary_digits(limb as WordSum, 16)) == limb,
{
    lemma2_to64();
    lemma_binary_digits_value(limb as WordSum, 16);
}

/// Splits each of `N` words into its limbs, in order.
pub fn decompose_many<const N: usize, const M: usize>(words: &[Word; N]) -> (limbs: [Limb; M])
    requires
        M == 3 * N,
    ensures
        forall|i: int, k: int|
            0 <= i < N && 0 <= k < 3 ==> #[trigger] limbs@[3 * i + k] == limbs_of(words@[i])[k],
{
    let mut limbs = [0u16; M];
    for i in 0..N
        invariant
            M == 3 * N,
            forall|j: int, k: int|
                0 <= j < i && 0 <= k < 3 ==> #[trigger] limbs@[3 * j + k] == limbs_of(words@[j])[k],
    {
        let l = decompose(&words[i]);
        limbs[3 * i] = l[0];
        limbs[3 * i + 1] = l[1];
        limbs[3 * i + 2] = l[2];
        assert forall|j: int, k: int| 0 <= j < i + 1 && 0 <= k < 3 implies #[trigger] limbs@[3 * j
            + k] == limbs_of(words@[j])[k] by {
            if j == i {
                assert(3 * j + k == 3 * i + k);
            }
        }
    }
    limbs
}

/// The limbs of `w` as an array, most significant first.
pub open spec fn limb_array(w: Word) -> [Limb; 3] {
    [limb_high(w), limb_mid(w), limb_low(w)]
}

/// A 'bitem' represents a value that might occur during the computation of the hash
/// function. It fits within 64 bits and the full value is available at the field `full`.
/// Its truncated version is the field `word`. The field `limbs` holds the three limbs that
/// make up `word`.
#[derive(Copy, Clone)]
pub struct Bitem {
    pub full: WordSum,
    pub word: Word,
    pub limbs: [Limb; 3],
}

/// The limbs of a word as a sequence.
pub proof fn lemma_limb_array(w: Word)
    ensures
        limb_array(w)@ == seq![limb_high(w), limb_mid(w), limb_low(w)],
        limb_array(w)@[0] == limb_high(w),
        limb_array(w)@[1] == limb_mid(w),
        limb_array(w)@[2] == limb_low(w),
{
    assert(limb_array(w)@ =~= seq![limb_high(w), limb_mid(w), limb_low(w)]);
}

impl Bitem {
    /// The bitem whose full value is `full`.
    pub open spec fn of_full(full: WordSum) -> Bitem {
        Bitem { full, word: full as Word, limbs: limb_array(full as Word) }
    }

    /// Whether the word is the truncated full value and the limbs are those of the word.
    pub open spec fn wf(self) -> bool {
        self == Bitem::of_full(self.full)
    }
}

impl Default for Bitem {
    fn default() -> (b: Bitem)
        ensures
            b == Bitem::of_full(0),
    {
        let limbs: [Limb; 3] = [0, 0, 0];
        proof {
            assert(limbs =~= limb_array(0));
        }
        Bitem { full: 0, word: 0, limbs }
    }
}

impl From<WordSum> for Bitem {
    fn from(wordsum: WordSum) -> (b: Bitem) {
        let truncated = wordsum as Word;
        let limbs = decompose(&truncated);
        proof {
            assert(limbs =~= limb_array(truncated));
        }
        Bitem { full: wordsum, word: truncated, limbs }
    }
}

impl FromSpecImpl<WordSum> for Bitem {
    open spec fn obeys_from_spec() -> bool {
        true
    }

    open spec fn from_spec(v: WordSum) -> Bitem {
        Bitem::of_full(v)
    }
}

impl From<Word> for Bitem {
    fn from(word: Word) -> (b: Bitem) {
        let limbs = decompose(&word);
        proof {
            assert(limbs =~= limb_array(word));
        }
        Bitem { full: word as WordSum, word, limbs }
    }
}

impl FromSpecImpl<Word> for Bitem {
    open spec fn obeys_from_spec() -> bool {
        true
    }

    open spec fn from_spec(v: Word) -> Bitem {
        Bitem::of_full(v as WordSum)
    }
}

/// A bitem keeps its full value, its word is the full value modulo 2^32, and its limbs fit
/// their widths (11, 11 and 10 bits) and make up the word.
pub proof fn lemma_bitem_parts(full: WordSum)
    ensures
        Bitem::of_full(full).full == full,
        Bitem::of_full(full).word as int == full % 0x1_0000_0000,
        limbs_in_range(Bitem::of_full(full).limbs@),
        value_of_limbs(Bitem::of_full(full).limbs@) == Bitem::of_full(full).word,
{
    let w = full as Word;
    assert(w as int == full % 0x1_0000_0000) by (bit_vector)
        requires
            w == full as Word,
    ;
    lemma_limbs_of_word(w);
    lemma_limb_array(w);
    assert(limb_array(w)@ =~= limbs_of(w));
}

} // verus!
