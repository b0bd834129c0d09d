use vstd::prelude::*;

use crate::constants::{
    initial_hash_words, lemma_constants, round_constants, INITIAL_HASH_WORDS, ROUND_CONSTANTS,
};
use crate::sha_ops::{
    big_sigma0, big_sigma1, ch32, choice, maj32, majority, rot0, rot1,
    small_sigma0, small_sigma1,
};
use crate::types::{
    compose_bits, lemma_limb_array, lemma_limbs_of_word, right_rotation, right_shift, Bitem, Word,
    WordSum,
};
use crate::ROUNDS;

verus! {

/// 2^32: words are added modulo this number.
pub open spec fn word_modulus() -> int {
    0x1_0000_0000
}

/// Word `i` of the message schedule of the 16-word input chunk `input`.
pub open spec fn schedule(input: Seq<Word>, i: nat) -> Word
    decreases i,
{
    if i < 16 {
        input[i as int]
    } else {
        ((schedule(input, (i - 16) as nat) + small_sigma0(schedule(input, (i - 15) as nat))
            + schedule(input, (i - 7) as nat) + small_sigma1(schedule(input, (i - 2) as nat)))
            % word_modulus()) as Word
    }
}

/// The first sum of a round: `h + Σ1(e) + Ch(e, f, g) + k + w`, without reduction.
pub open spec fn round_temp1(s: Seq<WordSum>, k: Word, w: Word) -> int {
    (s[7] as Word) + big_sigma1(s[4] as Word) + ch32(s[4] as Word, s[5] as Word, s[6] as Word) + k
        + w
}

/// The second sum of a round: `Σ0(a) + Maj(a, b, c)`, without reduction.
pub open spec fn round_temp2(s: Seq<WordSum>) -> int {
    big_sigma0(s[0] as Word) + maj32(s[0] as Word, s[1] as Word, s[2] as Word)
}

/// One round of the compression function on the working variables `a..h` (each held as
/// a value whose low 32 bits are the variable): the new `a` and `e` are kept unreduced.
pub open spec fn round_step(s: Seq<WordSum>, k: Word, w: Word) -> Seq<WordSum> {
    seq![
        (round_temp1(s, k, w) + round_temp2(s)) as WordSum,
        s[0],
        s[1],
        s[2],
        ((s[3] as Word) + round_temp1(s, k, w)) as WordSum,
        s[4],
        s[5],
        s[6],
    ]
}

/// The word that the limbs of a bitem make up.
pub open spec fn limbs_word(b: Bitem) -> Word {
    compose_bits(b.limbs[0], b.limbs[1], b.limbs[2])
}

/// The first sum of the round function on recorded values: `h + Σ1(e) + Ch(e, f, g) + k +
/// w`, where `Σ1` is taken of the word that the limbs of `e` make up.
pub open spec fn round_sum1(i: Seq<Bitem>, k: Word, w: Word) -> int {
    i[7].word + big_sigma1(limbs_word(i[4])) + ch32(i[4].word, i[5].word, i[6].word) + k + w
}

/// The second sum of the round function on recorded values: `Σ0(a) + Maj(a, b, c)`, where
/// `Σ0` is taken of the word that the limbs of `a` make up.
pub open spec fn round_sum2(i: Seq<Bitem>) -> int {
    big_sigma0(limbs_word(i[0])) + maj32(i[0].word, i[1].word, i[2].word)
}

/// The round function on eight recorded values `a..h`: the new `a` is the sum of both sums,
/// the new `e` is `d` plus the first, both kept unreduced; the others move one place down.
pub open spec fn round_result(i: Seq<Bitem>, k: Word, w: Word) -> Seq<Bitem> {
    seq![
        Bitem::of_full((round_sum1(i, k, w) + round_sum2(i)) as WordSum),
        i[0],
        i[1],
        i[2],
        Bitem::of_full((i[3].word + round_sum1(i, k, w)) as WordSum),
        i[4],
        i[5],
        i[6],
    ]
}

/// The working variables at the start of round `r` (after `r` rounds) on input `input`.
pub open spec fn state(input: Seq<Word>, r: nat) -> Seq<WordSum>
    decreases r,
{
    if r == 0 {
        initial_hash_words().map_values(|x: Word| x as WordSum)
    } else {
        round_step(
            state(input, (r - 1) as nat),
            round_constants()[r - 1],
            schedule(input, (r - 1) as nat),
        )
    }
}

/// The SHA-256 compression of one 16-word chunk from the initial hash value: each word of
/// the initial hash value plus the matching working variable after the last round.
pub open spec fn compression(input: Seq<Word>) -> Seq<Word> {
    Seq::new(
        8,
        |j: int|
            ((initial_hash_words()[j] + (state(input, 64)[j] as Word)) % word_modulus()) as Word,
    )
}

/// Names of the values that the trace records for each round.
#[derive(Copy, Clone, Debug, PartialEq, Eq, Hash)]
#[allow(unused)]
pub enum TraceItem {
    a,
    a_in,
    b,
    b_in,
    c,
    c_in,
    d,
    d_in,
    e,
    e_in,
    f,
    f_in,
    g,
    g_in,
    h,
    h_in,
    maj,
    ch,
    rot0,
    rot1,
    k,
    w,
}

/// The full value that the trace of `input` records for `item` in round `r`.
pub open spec fn item_full(input: Seq<Word>, item: TraceItem, r: nat) -> WordSum {
    let s = state(input, r);
    let t = state(input, r + 1);
    match item {
        TraceItem::a => t[0],
        TraceItem::b => t[1],
        TraceItem::c => t[2],
        TraceItem::d => t[3],
        TraceItem::e => t[4],
        TraceItem::f => t[5],
        TraceItem::g => t[6],
        TraceItem::h => t[7],
        TraceItem::a_in => s[0],
        TraceItem::b_in => s[1],
        TraceItem::c_in => s[2],
        TraceItem::d_in => s[3],
        TraceItem::e_in => s[4],
        TraceItem::f_in => s[5],
        TraceItem::g_in => s[6],
        TraceItem::h_in => s[7],
        TraceItem::maj => maj32(s[0] as Word, s[1] as Word, s[2] as Word) as WordSum,
        TraceItem::ch => ch32(s[4] as Word, s[5] as Word, s[6] as Word) as WordSum,
        TraceItem::rot0 => big_sigma0(s[0] as Word) as WordSum,
        TraceItem::rot1 => big_sigma1(s[4] as Word) as WordSum,
        TraceItem::k => round_constants()[r as int] as WordSum,
        TraceItem::w => schedule(input, r) as WordSum,
    }
}

/// The record of every value computed while hashing one chunk with SHA-256, round by round.
pub struct Trace {
    round_inputs: Vec<[Bitem; 8]>,
    round_outputs: Vec<[Bitem; 8]>,
    majority: Vec<Bitem>,
    choice: Vec<Bitem>,
    rotations: Vec<[Bitem; 2]>,
    k: Vec<Bitem>,
    w: Vec<Bitem>,
    input: Ghost<Seq<Word>>,
}

impl Trace {
    /// The chunk that the trace was computed from.
    pub closed spec fn input(&self) -> Seq<Word> {
        self.input@
    }

    /// What the trace holds for `item` in round `r`.
    pub closed spec fn spec_item(&self, item: TraceItem, r: int) -> Bitem {
        match item {
            TraceItem::a => self.round_outputs@[r][0],
            TraceItem::b => self.round_outputs@[r][1],
            TraceItem::c => self.round_outputs@[r][2],
            TraceItem::d => self.round_outputs@[r][3],
            TraceItem::e => self.round_outputs@[r][4],
            TraceItem::f => self.round_outputs@[r][5],
            TraceItem::g => self.round_outputs@[r][6],
            TraceItem::h => self.round_outputs@[r][7],
            TraceItem::a_in => self.round_inputs@[r][0],
            TraceItem::b_in => self.round_inputs@[r][1],
            TraceItem::c_in => self.round_inputs@[r][2],
            TraceItem::d_in => self.round_inputs@[r][3],
            TraceItem::e_in => self.round_inputs@[r][4],
            TraceItem::f_in => self.round_inputs@[r][5],
            TraceItem::g_in => self.round_inputs@[r][6],
            TraceItem::h_in => self.round_inputs@[r][7],
            TraceItem::maj => self.majority@[r],
            TraceItem::ch => self.choice@[r],
            TraceItem::rot0 => self.rotations@[r][0],
            TraceItem::rot1 => self.rotations@[r][1],
            TraceItem::k => self.k@[r],
            TraceItem::w => self.w@[r],
        }
    }

    /// Every value of every round is recorded, and is the one that SHA-256 computes on the
    /// input chunk.
    pub closed spec fn wf(&self) -> bool {
        &&& self.input@.len() == 16
        &&& self.round_inputs@.len() == ROUNDS
        &&& self.round_outputs@.len() == ROUNDS
        &&& self.majority@.len() == ROUNDS
        &&& self.choice@.len() == ROUNDS
        &&& self.rotations@.len() == ROUNDS
        &&& self.k@.len() == ROUNDS
        &&& self.w@.len() == ROUNDS
        &&& forall|item: TraceItem, r: int|
            0 <= r < ROUNDS ==> #[trigger] self.spec_item(item, r) == Bitem::of_full(
                item_full(self.input@, item, r as nat),
            )
    }

    /// The trace of SHA-256 on the 16-word chunk `input`.
    pub fn new(input: [Word; 16]) -> (trace: Trace)
        ensures
            trace.wf(),
            trace.input() == input@,
    {
        let mut k: Vec<Bitem> = Vec::new();
        proof {
            lemma_constants();
        }
        for i in 0..ROUNDS
            invariant
                k@.len() == i,
                forall|j: int| 0 <= j < i ==> #[trigger] k@[j] == Bitem::of_full(
                    round_constants()[j] as WordSum,
                ),
        {
            k.push(Bitem::from(ROUND_CONSTANTS[i]));
        }
        let nothing = Bitem::default();
        let trace = Self {
            round_inputs: repeated([nothing; 8]),
            round_outputs: repeated([nothing; 8]),
            majority: repeated(nothing),
            choice: repeated(nothing),
            rotations: repeated([nothing; 2]),
            k,
            w: repeated(nothing),
            input: Ghost(input@),
        };
        let trace = trace.compute_message_schedule(input).do_rounds();
        proof {
            trace.lemma_rounds_follow_state();
        }
        trace
    }

    /// The value recorded for `item` in round `round`.
    pub fn get(&self, item: TraceItem, round: usize) -> (b: Bitem)
        requires
            self.wf(),
            round < ROUNDS,
        ensures
            b == Bitem::of_full(item_full(self.input(), item, round as nat)),
            b.wf(),
    {
        proof {
            assert(self.spec_item(item, round as int) == Bitem::of_full(
                item_full(self.input@, item, round as nat),
            ));
        }
        match item {
            TraceItem::a => self.round_outputs[round][0],
            TraceItem::b => self.round_outputs[round][1],
            TraceItem::c => self.round_outputs[round][2],
            TraceItem::d => self.round_outputs[round][3],
            TraceItem::e => self.round_outputs[round][4],
            TraceItem::f => self.round_outputs[round][5],
            TraceItem::g => self.round_outputs[round][6],
            TraceItem::h => self.round_outputs[round][7],
            TraceItem::a_in => self.round_inputs[round][0],
            TraceItem::b_in => self.round_inputs[round][1],
            TraceItem::c_in => self.round_inputs[round][2],
            TraceItem::d_in => self.round_inputs[round][3],
            TraceItem::e_in => self.round_inputs[round][4],
            TraceItem::f_in => self.round_inputs[round][5],
            TraceItem::g_in => self.round_inputs[round][6],
            TraceItem::h_in => self.round_inputs[round][7],
            TraceItem::maj => self.majority[round],
            TraceItem::ch => self.choice[round],
            TraceItem::rot0 => self.rotations[round][0],
            TraceItem::rot1 => self.rotations[round][1],
            TraceItem::k => self.k[round],
            TraceItem::w => self.w[round],
        }
    }

    /// Every round has a place in each record.
    closed spec fn has_every_round(&self) -> bool {
        &&& self.round_inputs@.len() == ROUNDS
        &&& self.round_outputs@.len() == ROUNDS
        &&& self.majority@.len() == ROUNDS
        &&& self.choice@.len() == ROUNDS
        &&& self.rotations@.len() == ROUNDS
        &&& self.k@.len() == ROUNDS
        &&& self.w@.len() == ROUNDS
    }

    /// What round `r` recorded is the round function applied to its recorded input, with
    /// its round constant and the message word recorded for it.
    closed spec fn round_recorded(&self, r: int) -> bool {
        let i = self.round_inputs@[r]@;
        &&& self.round_outputs@[r]@ == round_result(i, round_constants()[r], self.w@[r].word)
        &&& self.rotations@[r][0] == Bitem::of_full(big_sigma0(limbs_word(i[0])) as WordSum)
        &&& self.rotations@[r][1] == Bitem::of_full(big_sigma1(limbs_word(i[4])) as WordSum)
        &&& self.majority@[r] == Bitem::of_full(maj32(i[0].word, i[1].word, i[2].word) as WordSum)
        &&& self.choice@[r] == Bitem::of_full(ch32(i[4].word, i[5].word, i[6].word) as WordSum)
    }

    /// Fills in the message schedule of `input`: the input words, then each further word
    /// from four earlier ones. Nothing else changes.
    fn compute_message_schedule(self, input: [Word; 16]) -> (trace: Self)
        ensures
            trace.w@.len() == ROUNDS,
            forall|r: int|
                0 <= r < ROUNDS ==> #[trigger] trace.w@[r] == Bitem::of_full(
                    schedule(input@, r as nat) as WordSum,
                ),
            trace.round_inputs == self.round_inputs,
            trace.round_outputs == self.round_outputs,
            trace.majority == self.majority,
            trace.choice == self.choice,
            trace.rotations == self.rotations,
            trace.k == self.k,
            trace.input == self.input,
    {
        let mut result: Vec<Word> = Vec::new();
        for i in 0..16
            invariant
                result@.len() == i,
                forall|j: int| 0 <= j < i ==> #[trigger] result@[j] == schedule(input@, j as nat),
        {
            result.push(input[i]);
        }
        for i in 16..ROUNDS
            invariant
                result@.len() == i,
                forall|j: int| 0 <= j < i ==> #[trigger] result@[j] == schedule(input@, j as nat),
        {
            let s0 = right_rotation(result[i - 15], 7) ^ right_rotation(result[i - 15], 18)
                ^ right_shift(result[i - 15], 3);

            let s1 = right_rotation(result[i - 2], 17) ^ right_rotation(result[i - 2], 19)
                ^ right_shift(result[i - 2], 10);

            let next = result[i - 16].wrapping_add(s0).wrapping_add(result[i - 7]).wrapping_add(s1);
            proof {
                lemma_wrapping_add4(result@[i - 16], s0, result@[i - 7], s1);
                assert(s0 == small_sigma0(schedule(input@, (i - 15) as nat)));
                assert(s1 == small_sigma1(schedule(input@, (i - 2) as nat)));
            }
            result.push(next);
        }
        let mut w: Vec<Bitem> = Vec::new();
        for i in 0..ROUNDS
            invariant
                result@.len() == ROUNDS,
                forall|j: int| 0 <= j < ROUNDS ==> #[trigger] result@[j] == schedule(input@, j as nat),
                w@.len() == i,
                forall|j: int| 0 <= j < i ==> #[trigger] w@[j] == Bitem::of_full(
                    schedule(input@, j as nat) as WordSum,
                ),
        {
            w.push(Bitem::from(result[i]));
        }
        let mut trace = self;
        trace.w = w;
        trace
    }

    /// Runs the 64 rounds from the initial hash value, each on the output of the one
    /// before, recording every value; the message schedule and the round constants are
    /// read and left as they are.
    fn do_rounds(self) -> (trace: Self)
        requires
            self.has_every_round(),
        ensures
            trace.has_every_round(),
            forall|j: int|
                0 <= j < 8 ==> #[trigger] trace.round_inputs@[0][j] == Bitem::of_full(
                    initial_hash_words()[j] as WordSum,
                ),
            forall|r: int, j: int|
                0 <= r < ROUNDS - 1 && 0 <= j < 8 ==> #[trigger] trace.round_inputs@[r + 1][j]
                    == trace.round_outputs@[r][j],
            forall|r: int| 0 <= r < ROUNDS ==> #[trigger] trace.round_recorded(r),
            trace.k == self.k,
            trace.w == self.w,
            trace.input == self.input,
    {
        proof {
            lemma_constants();
        }
        let mut round_input = [
            Bitem::from(INITIAL_HASH_WORDS[0]),
            Bitem::from(INITIAL_HASH_WORDS[1]),
            Bitem::from(INITIAL_HASH_WORDS[2]),
            Bitem::from(INITIAL_HASH_WORDS[3]),
            Bitem::from(INITIAL_HASH_WORDS[4]),
            Bitem::from(INITIAL_HASH_WORDS[5]),
            Bitem::from(INITIAL_HASH_WORDS[6]),
            Bitem::from(INITIAL_HASH_WORDS[7]),
        ];
        let ghost start = self;
        let mut trace = self;
        for round in 0..ROUNDS
            invariant
                trace.has_every_round(),
                trace.k == start.k,
                trace.w == start.w,
                trace.input == start.input,
                round == 0 ==> forall|j: int|
                    0 <= j < 8 ==> #[trigger] round_input@[j] == Bitem::of_full(
                        initial_hash_words()[j] as WordSum,
                    ),
                round > 0 ==> forall|j: int|
                    0 <= j < 8 ==> #[trigger] trace.round_inputs@[0][j] == Bitem::of_full(
                        initial_hash_words()[j] as WordSum,
                    ),
                forall|r: int, j: int|
                    0 <= r < round - 1 && 0 <= j < 8 ==> #[trigger] trace.round_inputs@[r + 1][j]
                        == trace.round_outputs@[r][j],
                round > 0 ==> round_input == trace.round_outputs@[round - 1],
                forall|r: int| 0 <= r < round ==> #[trigger] trace.round_recorded(r),
        {
            let ghost before = trace;
            round_input = trace.do_round(round, round_input);
            proof {
                assert forall|r: int| 0 <= r < round implies #[trigger] trace.round_recorded(r) by {
                    assert(before.round_recorded(r));
                    assert(trace.round_inputs@[r] == before.round_inputs@[r]);
                    assert(trace.round_outputs@[r] == before.round_outputs@[r]);
                    assert(trace.rotations@[r] == before.rotations@[r]);
                    assert(trace.majority@[r] == before.majority@[r]);
                    assert(trace.choice@[r] == before.choice@[r]);
                }
            }
        }
        trace
    }

    /// Runs round `round` on the working variables `round_input`, records its input, its
    /// rotations, majority, choice and output at index `round`, and returns the output.
    fn do_round(&mut self, round: usize, round_input: [Bitem; 8]) -> (outputs: [Bitem; 8])
        requires
            round < ROUNDS,
            old(self).has_every_round(),
        ensures
            final(self).has_every_round(),
            final(self).round_inputs@ == old(self).round_inputs@.update(round as int, round_input),
            final(self).round_outputs@ == old(self).round_outputs@.update(round as int, outputs),
            final(self).rotations@ == old(self).rotations@.update(
                round as int,
                final(self).rotations@[round as int],
            ),
            final(self).majority@ == old(self).majority@.update(
                round as int,
                final(self).majority@[round as int],
            ),
            final(self).choice@ == old(self).choice@.update(
                round as int,
                final(self).choice@[round as int],
            ),
            final(self).round_recorded(round as int),
            outputs@ == round_result(
                round_input@,
                round_constants()[round as int],
                old(self).w@[round as int].word,
            ),
            final(self).k == old(self).k,
            final(self).w == old(self).w,
            final(self).input == old(self).input,
    {
        let a = round_input[0];
        let b = round_input[1];
        let c = round_input[2];
        let d = round_input[3];
        let e = round_input[4];
        let f = round_input[5];
        let g = round_input[6];
        let h = round_input[7];
        self.round_inputs.set(round, round_input);

        let maj = majority(a.word, b.word, c.word);
        let ch = choice(e.word, f.word, g.word);

        let rot0 = rot0(a.limbs);
        let rot1 = rot1(e.limbs);

        proof {
            lemma_constants();
        }
        let k = ROUND_CONSTANTS[round] as WordSum;
        let w = self.w[round].word as WordSum;

        let temp1 = (h.word as WordSum) + (rot1 as WordSum) + (ch as WordSum) + k + w;
        let temp2 = (rot0 as WordSum) + (maj as WordSum);

        let A = temp1 + temp2;
        let E = (d.word as WordSum) + temp1;

        let outputs = [Bitem::from(A), a, b, c, Bitem::from(E), e, f, g];

        self.round_outputs.set(round, outputs);
        self.rotations.set(round, [Bitem::from(rot0), Bitem::from(rot1)]);
        self.majority.set(round, Bitem::from(maj));
        self.choice.set(round, Bitem::from(ch));
        proof {
            assert(outputs@ =~= round_result(round_input@, round_constants()[round as int], self.w@[round as int].word));
        }
        outputs
    }

    /// When the schedule and constants recorded are those of the trace's input, the rounds
    /// recorded by `do_rounds` hold the values that SHA-256 computes.
    proof fn lemma_rounds_follow_state(&self)
        requires
            self.input@.len() == 16,
            self.has_every_round(),
            forall|r: int|
                0 <= r < ROUNDS ==> #[trigger] self.w@[r] == Bitem::of_full(
                    schedule(self.input@, r as nat) as WordSum,
                ),
            forall|r: int|
                0 <= r < ROUNDS ==> #[trigger] self.k@[r] == Bitem::of_full(
                    round_constants()[r] as WordSum,
                ),
            forall|j: int|
                0 <= j < 8 ==> #[trigger] self.round_inputs@[0][j] == Bitem::of_full(
                    initial_hash_words()[j] as WordSum,
                ),
            forall|r: int, j: int|
                0 <= r < ROUNDS - 1 && 0 <= j < 8 ==> #[trigger] self.round_inputs@[r + 1][j]
                    == self.round_outputs@[r][j],
            forall|r: int| 0 <= r < ROUNDS ==> #[trigger] self.round_recorded(r),
        ensures
            self.wf(),
    {
        let input = self.input@;
        lemma_constants();
        assert forall|r: int, j: int| 0 <= r < ROUNDS && 0 <= j < 8 implies #[trigger] self.round_inputs@[r][j]
            == Bitem::of_full(state(input, r as nat)[j]) by {
            self.lemma_round_inputs(r);
        }
        assert forall|item: TraceItem, r: int| 0 <= r < ROUNDS implies #[trigger] self.spec_item(
            item,
            r,
        ) == Bitem::of_full(item_full(self.input@, item, r as nat)) by {
            assert(self.round_recorded(r));
            lemma_round_of_state(
                self.round_inputs@[r]@,
                state(input, r as nat),
                round_constants()[r],
                schedule(input, r as nat),
            );
            assert(state(input, (r + 1) as nat) == round_step(
                state(input, r as nat),
                round_constants()[r],
                schedule(input, r as nat),
            ));
        }
    }

    /// The input of round `r` holds the working variables at the start of round `r`.
    proof fn lemma_round_inputs(&self, r: int)
        requires
            0 <= r < ROUNDS,
            self.has_every_round(),
            forall|q: int|
                0 <= q < ROUNDS ==> #[trigger] self.w@[q] == Bitem::of_full(
                    schedule(self.input@, q as nat) as WordSum,
                ),
            forall|q: int|
                0 <= q < ROUNDS ==> #[trigger] self.k@[q] == Bitem::of_full(
                    round_constants()[q] as WordSum,
                ),
            forall|j: int|
                0 <= j < 8 ==> #[trigger] self.round_inputs@[0][j] == Bitem::of_full(
                    initial_hash_words()[j] as WordSum,
                ),
            forall|q: int, j: int|
                0 <= q < ROUNDS - 1 && 0 <= j < 8 ==> #[trigger] self.round_inputs@[q + 1][j]
                    == self.round_outputs@[q][j],
            forall|q: int| 0 <= q < ROUNDS ==> #[trigger] self.round_recorded(q),
        ensures
            forall|j: int|
                0 <= j < 8 ==> #[trigger] self.round_inputs@[r][j] == Bitem::of_full(
                    state(self.input@, r as nat)[j],
                ),
        decreases r,
    {
        let input = self.input@;
        lemma_constants();
        if r > 0 {
            self.lemma_round_inputs(r - 1);
            assert(self.round_recorded(r - 1));
            lemma_round_of_state(
                self.round_inputs@[r - 1]@,
                state(input, (r - 1) as nat),
                round_constants()[r - 1],
                schedule(input, (r - 1) as nat),
            );
            assert forall|j: int| 0 <= j < 8 implies #[trigger] self.round_inputs@[r][j]
                == Bitem::of_full(state(input, r as nat)[j]) by {
                assert(self.round_inputs@[(r - 1) + 1][j] == self.round_outputs@[r - 1][j]);
            }
        } else {
            assert forall|j: int| 0 <= j < 8 implies #[trigger] self.round_inputs@[r][j]
                == Bitem::of_full(state(input, r as nat)[j]) by {
                assert(state(input, 0)[j] == initial_hash_words()[j] as WordSum);
            }
        }
    }
}

/// One copy of `value` for each round.
fn repeated<T: Copy>(value: T) -> (v: Vec<T>)
    ensures
        v@ == Seq::new(ROUNDS as nat, |i: int| value),
{
    let mut v: Vec<T> = Vec::new();
    for i in 0..ROUNDS
        invariant
            v@ == Seq::new(i as nat, |j: int| value),
    {
        v.push(value);
        assert(v@ =~= Seq::new((i + 1) as nat, |j: int| value));
    }
    v
}

/// The round function applied to working variables that hold the values of SHA-256
/// gives the values of the next round, and its rotations, majority and choice are
/// those SHA-256 computes.
proof fn lemma_round_of_state(i: Seq<Bitem>, s: Seq<WordSum>, k: Word, w: Word)
    requires
        i.len() == 8,
        s.len() == 8,
        forall|j: int| 0 <= j < 8 ==> #[trigger] i[j] == Bitem::of_full(s[j]),
    ensures
        forall|j: int| 0 <= j < 8 ==> #[trigger] round_result(i, k, w)[j] == Bitem::of_full(
            round_step(s, k, w)[j],
        ),
        limbs_word(i[0]) == s[0] as Word,
        limbs_word(i[4]) == s[4] as Word,
{
    assert(i[0] == Bitem::of_full(s[0]));
    assert(i[4] == Bitem::of_full(s[4]));
    lemma_limbs_of_word(s[0] as Word);
    lemma_limbs_of_word(s[4] as Word);
    lemma_limb_array(s[0] as Word);
    lemma_limb_array(s[4] as Word);
    assert(i[1] == Bitem::of_full(s[1]));
    assert(i[2] == Bitem::of_full(s[2]));
    assert(i[3] == Bitem::of_full(s[3]));
    assert(i[5] == Bitem::of_full(s[5]));
    assert(i[6] == Bitem::of_full(s[6]));
    assert(i[7] == Bitem::of_full(s[7]));
}

/// Adding four words with wrap-around gives their sum modulo 2^32.
proof fn lemma_wrapping_add4(x: Word, y: Word, z: Word, t: Word)
    ensures
        x.wrapping_add(y).wrapping_add(z).wrapping_add(t) as int == (x + y + z + t) % word_modulus(),
{
    let m = word_modulus();
    let xy = x.wrapping_add(y);
    let xyz = xy.wrapping_add(z);
    assert(xy as int == (x + y) % m);
    assert(xyz as int == (xy + z) % m);
    assert(xyz.wrapping_add(t) as int == (xyz + t) % m);
    vstd::arithmetic::div_mod::lemma_add_mod_noop(x + y, z as int, m);
    vstd::arithmetic::div_mod::lemma_mod_twice(x + y, m);
    vstd::arithmetic::div_mod::lemma_add_mod_noop(x + y + z, t as int, m);
    vstd::arithmetic::div_mod::lemma_mod_twice(x + y + z, m);
    vstd::arithmetic::div_mod::lemma_mod_twice(z as int, m);
    vstd::arithmetic::div_mod::lemma_mod_twice(t as int, m);
    vstd::arithmetic::div_mod::lemma_small_mod(z as nat, m as nat);
    vstd::arithmetic::div_mod::lemma_small_mod(t as nat, m as nat);
}

/// The first 16 words of the message schedule that the trace records are the words of the
/// chunk, in order.
pub proof fn lemma_schedule_begins_with_chunk(input: Seq<Word>, i: int)
    requires
        input.len() == 16,
        0 <= i < 16,
    ensures
        item_full(input, TraceItem::w, i as nat) == input[i] as WordSum,
{
}

/// Each later word of the recorded message schedule is, modulo 2^32, the word 16 places
/// back, plus `σ0` of the word 15 places back, plus the word 7 places back, plus `σ1` of
/// the word 2 places back.
pub proof fn lemma_schedule_extends(input: Seq<Word>, i: int)
    requires
        input.len() == 16,
        16 <= i < 64,
    ensures
        item_full(input, TraceItem::w, i as nat) as int == (item_full(
            input,
            TraceItem::w,
            (i - 16) as nat,
        ) + small_sigma0(item_full(input, TraceItem::w, (i - 15) as nat) as Word) + item_full(
            input,
            TraceItem::w,
            (i - 7) as nat,
        ) + small_sigma1(item_full(input, TraceItem::w, (i - 2) as nat) as Word)) % 0x1_0000_0000,
{
}

/// Round 0 starts from the initial hash value: `a` to `h` are its eight words.
pub proof fn lemma_first_round_inputs(input: Seq<Word>)
    ensures
        item_full(input, TraceItem::a_in, 0) == INITIAL_HASH_WORDS[0] as WordSum,
        item_full(input, TraceItem::b_in, 0) == INITIAL_HASH_WORDS[1] as WordSum,
        item_full(input, TraceItem::c_in, 0) == INITIAL_HASH_WORDS[2] as WordSum,
        item_full(input, TraceItem::d_in, 0) == INITIAL_HASH_WORDS[3] as WordSum,
        item_full(input, TraceItem::e_in, 0) == INITIAL_HASH_WORDS[4] as WordSum,
        item_full(input, TraceItem::f_in, 0) == INITIAL_HASH_WORDS[5] as WordSum,
        item_full(input, TraceItem::g_in, 0) == INITIAL_HASH_WORDS[6] as WordSum,
        item_full(input, TraceItem::h_in, 0) == INITIAL_HASH_WORDS[7] as WordSum,
{
    lemma_constants();
}

/// The working variables move one place down in each round (`b` takes the old `a`, `c`
/// the old `b`, ..., `h` the old `g`, and likewise from `e` to `f`), and each round starts
/// from what the round before it ended with.
pub proof fn lemma_working_variables_shift(input: Seq<Word>, r: int)
    requires
        0 <= r < 64,
    ensures
        item_full(input, TraceItem::b, r as nat) == item_full(input, TraceItem::a_in, r as nat),
        item_full(input, TraceItem::c, r as nat) == item_full(input, TraceItem::b_in, r as nat),
        item_full(input, TraceItem::d, r as nat) == item_full(input, TraceItem::c_in, r as nat),
        item_full(input, TraceItem::f, r as nat) == item_full(input, TraceItem::e_in, r as nat),
        item_full(input, TraceItem::g, r as nat) == item_full(input, TraceItem::f_in, r as nat),
        item_full(input, TraceItem::h, r as nat) == item_full(input, TraceItem::g_in, r as nat),
        r + 1 < 64 ==> {
            &&& item_full(input, TraceItem::a_in, (r + 1) as nat) == item_full(input, TraceItem::a, r as nat)
            &&& item_full(input, TraceItem::b_in, (r + 1) as nat) == item_full(input, TraceItem::b, r as nat)
            &&& item_full(input, TraceItem::c_in, (r + 1) as nat) == item_full(input, TraceItem::c, r as nat)
            &&& item_full(input, TraceItem::d_in, (r + 1) as nat) == item_full(input, TraceItem::d, r as nat)
            &&& item_full(input, TraceItem::e_in, (r + 1) as nat) == item_full(input, TraceItem::e, r as nat)
            &&& item_full(input, TraceItem::f_in, (r + 1) as nat) == item_full(input, TraceItem::f, r as nat)
            &&& item_full(input, TraceItem::g_in, (r + 1) as nat) == item_full(input, TraceItem::g, r as nat)
            &&& item_full(input, TraceItem::h_in, (r + 1) as nat) == item_full(input, TraceItem::h, r as nat)
        },
{
    assert(state(input, (r + 1) as nat) == round_step(
        state(input, r as nat),
        round_constants()[r],
        schedule(input, r as nat),
    ));
}

/// What a round computes from the values it starts with: the majority of `a`, `b`, `c`,
/// the choice by `e` between `f` and `g`, `Σ0(a)`, `Σ1(e)`, the round constant, and the
/// new `a` and `e` (kept unreduced): `h + Σ1(e) + Ch + k + w` plus `Σ0(a) + Maj` for `a`,
/// plus `d` for `e`.
pub proof fn lemma_round_values(input: Seq<Word>, r: int)
    requires
        0 <= r < 64,
    ensures
        ({
            let v = |item: TraceItem| item_full(input, item, r as nat);
            let word = |item: TraceItem| item_full(input, item, r as nat) as Word;
            let temp1 = word(TraceItem::h_in) + big_sigma1(word(TraceItem::e_in)) + word(TraceItem::ch)
                + ROUND_CONSTANTS[r] + word(TraceItem::w);
            &&& v(TraceItem::maj) == maj32(word(TraceItem::a_in), word(TraceItem::b_in), word(TraceItem::c_in)) as WordSum
            &&& v(TraceItem::ch) == ch32(word(TraceItem::e_in), word(TraceItem::f_in), word(TraceItem::g_in)) as WordSum
            &&& v(TraceItem::rot0) == big_sigma0(word(TraceItem::a_in)) as WordSum
            &&& v(TraceItem::rot1) == big_sigma1(word(TraceItem::e_in)) as WordSum
            &&& v(TraceItem::k) == ROUND_CONSTANTS[r] as WordSum
            &&& v(TraceItem::a) as int == temp1 + big_sigma0(word(TraceItem::a_in)) + word(TraceItem::maj)
            &&& v(TraceItem::e) as int == word(TraceItem::d_in) + temp1
        }),
{
    lemma_constants();
    assert(state(input, (r + 1) as nat) == round_step(
        state(input, r as nat),
        round_constants()[r],
        schedule(input, r as nat),
    ));
}

/// The compression of a chunk is, word by word, the initial hash value plus the working
/// variables `a` to `h` that the last round of the trace ends with, modulo 2^32.
pub proof fn lemma_compression_of_trace(input: Seq<Word>)
    ensures
        ({
            let last = |item: TraceItem| item_full(input, item, 63) as Word;
            let sum = |j: int, item: TraceItem| ((INITIAL_HASH_WORDS[j] + last(item))
                % 0x1_0000_0000) as Word;
            &&& compression(input).len() == 8
            &&& compression(input)[0] == sum(0, TraceItem::a)
            &&& compression(input)[1] == sum(1, TraceItem::b)
            &&& compression(input)[2] == sum(2, TraceItem::c)
            &&& compression(input)[3] == sum(3, TraceItem::d)
            &&& compression(input)[4] == sum(4, TraceItem::e)
            &&& compression(input)[5] == sum(5, TraceItem::f)
            &&& compression(input)[6] == sum(6, TraceItem::g)
            &&& compression(input)[7] == sum(7, TraceItem::h)
        }),
{
    lemma_constants();
}

} // verus!
