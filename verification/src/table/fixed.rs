use std::collections::HashSet;

use vstd::prelude::*;

use crate::constants::{
    initial_hash_words, lemma_constants, round_constants, INITIAL_HASH_WORDS, ROUND_CONSTANTS,
};
use crate::table::{INITIAL_BUFFER, NUM_ROWS, ROWS_PER_ROUND};
use crate::types::{Index, Word};
use crate::ROUNDS;

verus! {

broadcast use vstd::std_specs::hash::group_hash_axioms;

/// The gates of the table; each is switched on in some rows by its selector column.
#[derive(Copy, Clone, Debug, PartialEq, Eq, Structural, Hash)]
pub enum Selector {
    Lookup,
    Composition,
    Addition,
    Decomposition,
    WitnessComputation,
    ResultVerification,
}

/// The first row of round `r`.
pub open spec fn round_row(r: int) -> int {
    (INITIAL_BUFFER + r) * ROWS_PER_ROUND
}

/// The fixed column: the round constant of each round in the third row of the round, and
/// the words of the initial hash value in the first two rows of the last three rounds and
/// of the row after them, where they are added to the output.
pub open spec fn fixed_constant(row: int) -> Word {
    if round_row(0) <= row < round_row(64) && row % 4 == 2 {
        round_constants()[(row - round_row(0)) / 4]
    } else if round_row(61) <= row < round_row(65) && row % 4 == 0 {
        initial_hash_words()[(round_row(64) - row) / 4]
    } else if round_row(61) <= row < round_row(65) && row % 4 == 1 {
        initial_hash_words()[4 + (round_row(64) + 1 - row) / 4]
    } else {
        0
    }
}

/// The rows in which `selector` switches its gate on: for lookup, composition, addition
/// and decomposition, the first, second, third and fourth row of every round; for witness
/// computation, the first row of rounds 16 to 63; for result verification, the first row
/// of rounds 61 to 63 and of the group after the last round.
pub open spec fn enabled(selector: Selector, row: int) -> bool {
    match selector {
        Selector::Lookup => round_row(0) <= row < round_row(64) && row % 4 == 0,
        Selector::Composition => round_row(0) <= row < round_row(64) && row % 4 == 1,
        Selector::Addition => round_row(0) <= row < round_row(64) && row % 4 == 2,
        Selector::Decomposition => round_row(0) <= row < round_row(64) && row % 4 == 3,
        Selector::WitnessComputation => round_row(16) <= row < round_row(64) && row % 4 == 0,
        Selector::ResultVerification => round_row(61) <= row < round_row(65) && row % 4 == 0,
    }
}

/// The fixed part of the table: the constants column and the selector columns.
pub struct FixedPart {
    pub constants: [Word; NUM_ROWS],
    pub selectors: Selectors,
}

/// For each gate, the set of rows in which it is switched on.
pub struct Selectors {
    pub lookups: HashSet<Index>,
    pub composition: HashSet<Index>,
    pub addition: HashSet<Index>,
    pub decomposition: HashSet<Index>,
    pub witness_computation: HashSet<Index>,
    pub result_verification: HashSet<Index>,
}

impl Selectors {
    /// The set of rows that `selector`'s column holds.
    pub open spec fn rows_of(&self, selector: Selector) -> Set<Index> {
        match selector {
            Selector::Lookup => self.lookups@,
            Selector::Composition => self.composition@,
            Selector::Addition => self.addition@,
            Selector::Decomposition => self.decomposition@,
            Selector::WitnessComputation => self.witness_computation@,
            Selector::ResultVerification => self.result_verification@,
        }
    }

    /// Each selector column switches its gate on in exactly the rows of `enabled`.
    pub open spec fn is_standard(&self) -> bool {
        forall|selector: Selector, row: Index| #[trigger]
            self.rows_of(selector).contains(row) == enabled(selector, row as int)
    }

    /// The rows at `in_round_offset` within the rounds from `from` on.
    fn per_round(in_round_offset: usize, from: usize) -> (rows: HashSet<Index>)
        requires
            in_round_offset < ROWS_PER_ROUND,
            from <= ROUNDS,
        ensures
            forall|row: Index| #[trigger]
                rows@.contains(row) == (round_row(from as int) <= row < round_row(64) && row % 4
                    == in_round_offset),
    {
        let mut rows: HashSet<Index> = HashSet::new();
        for r in from..ROUNDS
            invariant
                in_round_offset < ROWS_PER_ROUND,
                forall|row: Index| #[trigger]
                    rows@.contains(row) == (round_row(from as int) <= row < round_row(r as int)
                        && row % 4 == in_round_offset),
        {
            rows.insert(INITIAL_BUFFER * ROWS_PER_ROUND + r * ROWS_PER_ROUND + in_round_offset);
        }
        rows
    }

    /// The selector columns of the SHA-256 table.
    fn new() -> (selectors: Selectors)
        ensures
            selectors.is_standard(),
    {
        let mut result_verification = Self::per_round(0, 61);
        result_verification.insert((INITIAL_BUFFER + ROUNDS) * ROWS_PER_ROUND);

        let selectors = Selectors {
            lookups: Self::per_round(0, 0),
            composition: Self::per_round(1, 0),
            addition: Self::per_round(2, 0),
            decomposition: Self::per_round(3, 0),
            witness_computation: Self::per_round(0, 16),
            result_verification,
        };
        assert forall|selector: Selector, row: Index| #[trigger]
            selectors.rows_of(selector).contains(row) == enabled(selector, row as int) by {}
        selectors
    }
}

impl FixedPart {
    /// The constants and selectors are the ones of the SHA-256 table.
    pub open spec fn is_standard(&self) -> bool {
        &&& forall|row: int| 0 <= row < NUM_ROWS ==> #[trigger] self.constants@[row] == fixed_constant(row)
        &&& self.selectors.is_standard()
    }

    /// The fixed part of the SHA-256 table.
    pub fn new() -> (fixed: FixedPart)
        ensures
            fixed.is_standard(),
    {
        FixedPart { constants: Self::setup_constants(), selectors: Selectors::new() }
    }

    /// The constants column, as `fixed_constant` says.
    fn setup_constants() -> (col: [Word; NUM_ROWS])
        ensures
            forall|row: int| 0 <= row < NUM_ROWS ==> #[trigger] col@[row] == fixed_constant(row),
    {
        let mut col = [0u32; NUM_ROWS];
        proof {
            lemma_constants();
        }

        let offset = INITIAL_BUFFER * ROWS_PER_ROUND;
        for i in 0..ROUNDS
            invariant
                offset == round_row(0),
                forall|row: int|
                    0 <= row < NUM_ROWS ==> #[trigger] col@[row] == if round_row(0) <= row
                        < round_row(i as int) && row % 4 == 2 {
                        round_constants()[(row - round_row(0)) / 4]
                    } else {
                        0
                    },
        {
            col[offset + i * ROWS_PER_ROUND + 2] = ROUND_CONSTANTS[i];
        }

        let offset = (INITIAL_BUFFER + ROUNDS - 3) * ROWS_PER_ROUND;
        col[offset] = INITIAL_HASH_WORDS[3];
        col[offset + 1] = INITIAL_HASH_WORDS[7];
        col[offset + ROWS_PER_ROUND] = INITIAL_HASH_WORDS[2];
        col[offset + ROWS_PER_ROUND + 1] = INITIAL_HASH_WORDS[6];
        col[offset + 2 * ROWS_PER_ROUND] = INITIAL_HASH_WORDS[1];
        col[offset + 2 * ROWS_PER_ROUND + 1] = INITIAL_HASH_WORDS[5];
        col[offset + 3 * ROWS_PER_ROUND] = INITIAL_HASH_WORDS[0];
        col[offset + 3 * ROWS_PER_ROUND + 1] = INITIAL_HASH_WORDS[4];

        col
    }

    /// Whether `selector` switches its gate on in row `row`.
    pub fn is_enabled(&self, selector: Selector, row: Index) -> (enabled: bool)
        ensures
            enabled == self.selectors.rows_of(selector).contains(row),
    {
        match selector {
            Selector::Lookup => self.selectors.lookups.contains(&row),
            Selector::Composition => self.selectors.composition.contains(&row),
            Selector::Addition => self.selectors.addition.contains(&row),
            Selector::Decomposition => self.selectors.decomposition.contains(&row),
            Selector::WitnessComputation => self.selectors.witness_computation.contains(&row),
            Selector::ResultVerification => self.selectors.result_verification.contains(&row),
        }
    }
}

/// In every round, the lookup, composition, addition and decomposition gates are on in the
/// round's first, second, third and fourth row; the witness computation gate is on in the
/// first row of the rounds from 16 on and off before; the result verification gate is on in
/// the first row of rounds 61 to 63 and of the group after the last round. The constants
/// column holds each round's constant in its third row, and in the first two rows of the
/// groups of rounds 61 to 64 the initial hash words `d, h`, `c, g`, `b, f`, `a, e`.
pub proof fn lemma_fixed_part_in_rounds(fixed: FixedPart, r: int)
    requires
        fixed.is_standard(),
        0 <= r <= ROUNDS,
    ensures
        ({
            let row = ROWS_PER_ROUND * (INITIAL_BUFFER + r);
            let on = |selector: Selector, t: int| fixed.selectors.rows_of(selector).contains(
                (row + t) as Index,
            );
            &&& r < ROUNDS ==> on(Selector::Lookup, 0) && on(Selector::Composition, 1) && on(
                Selector::Addition,
                2,
            ) && on(Selector::Decomposition, 3)
            &&& r < ROUNDS ==> fixed.constants@[row + 2] == ROUND_CONSTANTS[r]
            &&& on(Selector::WitnessComputation, 0) == (16 <= r < ROUNDS)
            &&& on(Selector::ResultVerification, 0) == (61 <= r)
            &&& 61 <= r ==> fixed.constants@[row] == INITIAL_HASH_WORDS[ROUNDS - r]
            &&& 61 <= r ==> fixed.constants@[row + 1] == INITIAL_HASH_WORDS[ROUNDS + 4 - r]
        }),
{
    lemma_constants();
    let row = ROWS_PER_ROUND * (INITIAL_BUFFER + r);
    assert(row % 4 == 0 && (row + 1) % 4 == 1 && (row + 2) % 4 == 2 && (row + 3) % 4 == 3);
    assert((row + 2 - round_row(0)) / 4 == r);
    assert((round_row(64) - row) / 4 == ROUNDS - r);
    assert((round_row(64) + 1 - (row + 1)) / 4 == ROUNDS - r);
}

/// A selector is on only in rows of its kind: a row in which a gate is on lies in the group
/// of a round `r` (for result verification possibly the group after the last round), at
/// the offset within the group that belongs to that gate.
pub proof fn lemma_selectors_only_in_rounds(fixed: FixedPart, selector: Selector, row: Index)
    requires
        fixed.is_standard(),
        fixed.selectors.rows_of(selector).contains(row),
    ensures
        ({
            let r = row / ROWS_PER_ROUND - INITIAL_BUFFER;
            let t = row % ROWS_PER_ROUND;
            &&& 0 <= r <= ROUNDS
            &&& r == ROUNDS ==> selector == Selector::ResultVerification
            &&& selector == Selector::WitnessComputation ==> 16 <= r
            &&& selector == Selector::ResultVerification ==> 61 <= r
            &&& t == match selector {
                Selector::Lookup => 0int,
                Selector::Composition => 1,
                Selector::Addition => 2,
                Selector::Decomposition => 3,
                Selector::WitnessComputation => 0,
                Selector::ResultVerification => 0,
            }
        }),
{
}

} // verus!
