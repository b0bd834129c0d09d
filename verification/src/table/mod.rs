use vstd::prelude::*;

use crate::table::advice::{advice_of, cell_index, Advice, AdviceEntry};
use crate::table::fixed::{round_row, FixedPart, Selector};
use crate::trace::Trace;
use crate::table::gates::{
    gate_holds, gate_order, AdditionGate, CompositionGate, DecompositionGate, Gate, GateFailure,
    LookupGate, ResultVerificationGate, WitnessComputationGate,
};
use crate::types::{Limb, Word, WordSum};
use crate::ROUNDS;

pub mod advice;
pub mod advice_generation;
pub mod correctness;
pub mod fixed;
pub mod gates;
pub mod indices;
pub mod render;

verus! {

/// Rounds of padding before the first round, holding the initial hash value.
pub const INITIAL_BUFFER: usize = 3;

/// Rows used by each round.
pub const ROWS_PER_ROUND: usize = 4;

/// Rows of the table: the initial buffer, the rounds and one row group after them.
pub const NUM_ROWS: usize = (INITIAL_BUFFER + ROUNDS + 1) * ROWS_PER_ROUND;

/// Columns of the advice area. The rounds fill the first eight; the last is left empty.
pub const ADVICE_COLUMNS: usize = 9;

/// The PLONKish table of a SHA-256 computation: the fixed part (constants and selectors),
/// the advice area (private values) and the public input column (the hash).
pub struct Table {
    fixed_part: FixedPart,
    advice: Advice,
    public_input: [Word; NUM_ROWS],
}

/// What a table holds apart from its fixed part, which is the same in every table.
pub ghost struct TableView {
    /// The advice cells, row after row.
    pub advice: Seq<AdviceEntry>,
    /// The public input column.
    pub public_input: Seq<Word>,
}

impl View for Table {
    type V = TableView;

    closed spec fn view(&self) -> TableView {
        TableView { advice: self.advice@, public_input: self.public_input@ }
    }
}

/// The advice cell in column `col` of row `row`.
pub open spec fn cell(t: TableView, col: int, row: int) -> AdviceEntry {
    t.advice[cell_index(col, row)]
}

/// The limbs in columns `col`, `col + 1` and `col + 2` of row `row`, if all three hold limbs.
pub open spec fn limbs_at(t: TableView, col: int, row: int) -> Option<Seq<Limb>> {
    match (
        cell(t, col, row).as_limb(),
        cell(t, col + 1, row).as_limb(),
        cell(t, col + 2, row).as_limb(),
    ) {
        (Some(x), Some(y), Some(z)) => Some(seq![x, y, z]),
        _ => None,
    }
}

/// The word in column `col` of row `row`, if it holds one.
pub open spec fn word_at(t: TableView, col: int, row: int) -> Option<Word> {
    cell(t, col, row).as_word()
}

/// The sum of words in column `col` of row `row`, if it holds one.
pub open spec fn word_sum_at(t: TableView, col: int, row: int) -> Option<WordSum> {
    cell(t, col, row).as_word_sum()
}

/// The public input column that carries the hash `output`: its words in the first two rows
/// of the groups of the last three rounds and of the group after them, in the order in
/// which the result verification gate meets them (`d, h`, `c, g`, `b, f`, `a, e`); zero
/// elsewhere.
pub open spec fn public_column(output: Seq<Word>, row: int) -> Word {
    if round_row(61) <= row < round_row(65) && row % 4 == 0 {
        output[(round_row(64) - row) / 4]
    } else if round_row(61) <= row < round_row(65) && row % 4 == 1 {
        output[4 + (round_row(64) + 1 - row) / 4]
    } else {
        0
    }
}

/// The public column carries the hash in the first two rows of the groups of rounds 61 to
/// 64 (the last being the group after the last round): `d, h`, then `c, g`, then `b, f`,
/// then `a, e`; every other row holds zero.
pub proof fn lemma_public_column_layout(output: Seq<Word>, row: int)
    requires
        0 <= row < NUM_ROWS,
    ensures
        ({
            let first = |r: int| ROWS_PER_ROUND * (INITIAL_BUFFER + r);
            &&& public_column(output, first(61)) == output[3]
            &&& public_column(output, first(61) + 1) == output[7]
            &&& public_column(output, first(62)) == output[2]
            &&& public_column(output, first(62) + 1) == output[6]
            &&& public_column(output, first(63)) == output[1]
            &&& public_column(output, first(63) + 1) == output[5]
            &&& public_column(output, first(64)) == output[0]
            &&& public_column(output, first(64) + 1) == output[4]
            &&& (row < first(61) || row % (ROWS_PER_ROUND as int) >= 2) ==> public_column(output, row) == 0
        }),
{
}

/// What the table built from a private chunk and a public hash holds.
pub open spec fn table_of(private_input: Seq<Word>, public_input: Seq<Word>) -> TableView {
    TableView {
        advice: advice_of(private_input),
        public_input: Seq::new(NUM_ROWS as nat, |row: int| public_column(public_input, row)),
    }
}

impl Table {
    /// The table for hashing the chunk `private_input` (the message schedule's first 16
    /// words) to `public_input`: the advice area is filled from the trace of SHA-256 on the
    /// chunk, and the public column carries `public_input`.
    pub fn new(private_input: [Word; 16], public_input: [Word; 8]) -> (table: Self)
        ensures
            table@ == table_of(private_input@, public_input@),
    {
        let advice = Advice::from_trace(&Trace::new(private_input));
        proof {
            reveal(advice::advice_of);
        }
        let table = Self {
            fixed_part: FixedPart::new(),
            advice,
            public_input: Self::spread_public_input(public_input),
        };
        proof {
            assert(table@.public_input =~= table_of(private_input@, public_input@).public_input);
        }
        table
    }

    /// Spreads the hash over the public column as `public_column` says.
    fn spread_public_input(input: [Word; 8]) -> (col: [Word; NUM_ROWS])
        ensures
            forall|row: int| 0 <= row < NUM_ROWS ==> #[trigger] col@[row] == public_column(input@, row),
    {
        let offset = (INITIAL_BUFFER + ROUNDS - 3) * ROWS_PER_ROUND;
        let mut col = [0u32; NUM_ROWS];

        col[offset] = input[3];
        col[offset + 1] = input[7];
        col[offset + ROWS_PER_ROUND] = input[2];
        col[offset + ROWS_PER_ROUND + 1] = input[6];
        col[offset + 2 * ROWS_PER_ROUND] = input[1];
        col[offset + 2 * ROWS_PER_ROUND + 1] = input[5];
        col[offset + 3 * ROWS_PER_ROUND] = input[0];
        col[offset + 3 * ROWS_PER_ROUND + 1] = input[4];

        col
    }

    #[verifier::type_invariant]
    pub(crate) closed spec fn inv(self) -> bool {
        &&& self.fixed_part.is_standard()
        &&& self.advice@.len() == NUM_ROWS * ADVICE_COLUMNS
    }

    /// The constant in row `row` of the fixed column.
    pub fn constant(&self, row: usize) -> (c: Word)
        requires
            row < NUM_ROWS,
        ensures
            c == fixed::fixed_constant(row as int),
    {
        proof {
            use_type_invariant(self);
        }
        self.fixed_part.constants[row]
    }

    /// Whether `selector` switches its gate on in row `row`.
    pub fn is_enabled(&self, selector: Selector, row: usize) -> (enabled: bool)
        ensures
            enabled == fixed::enabled(selector, row as int),
    {
        proof {
            use_type_invariant(self);
            assert(self.fixed_part.selectors.rows_of(selector).contains(row) == fixed::enabled(
                selector,
                row as int,
            ));
        }
        self.fixed_part.is_enabled(selector, row)
    }

    /// The public input in row `row`.
    pub fn public_input_at(&self, row: usize) -> (w: Word)
        requires
            row < NUM_ROWS,
        ensures
            w == self@.public_input[row as int],
    {
        self.public_input[row]
    }

    /// The advice cell in column `col` of row `row`.
    pub fn entry(&self, col: usize, row: usize) -> (e: AdviceEntry)
        requires
            col < ADVICE_COLUMNS,
            row < NUM_ROWS,
        ensures
            e == cell(self@, col as int, row as int),
    {
        proof {
            use_type_invariant(self);
        }
        self.advice.get(col, row)
    }

    /// The limbs in columns `col` to `col + 2` of row `row`, if all three hold limbs.
    pub fn limbs(&self, col: usize, row: usize) -> (limbs: Option<[Limb; 3]>)
        requires
            col + 2 < ADVICE_COLUMNS,
            row < NUM_ROWS,
        ensures
            limbs is None <==> limbs_at(self@, col as int, row as int) is None,
            limbs matches Some(l) ==> limbs_at(self@, col as int, row as int) == Some(l@),
    {
        let x = match self.entry(col, row).try_limb() {
            Some(x) => x,
            None => return None,
        };
        let y = match self.entry(col + 1, row).try_limb() {
            Some(y) => y,
            None => return None,
        };
        let z = match self.entry(col + 2, row).try_limb() {
            Some(z) => z,
            None => return None,
        };
        let l = [x, y, z];
        proof {
            assert(l@ =~= seq![x, y, z]);
        }
        Some(l)
    }

    /// The word in column `col` of row `row`, if it holds one.
    pub fn word(&self, col: usize, row: usize) -> (w: Option<Word>)
        requires
            col < ADVICE_COLUMNS,
            row < NUM_ROWS,
        ensures
            w == word_at(self@, col as int, row as int),
    {
        self.entry(col, row).try_word()
    }

    /// The sum of words in column `col` of row `row`, if it holds one.
    pub fn word_sum(&self, col: usize, row: usize) -> (w: Option<WordSum>)
        requires
            col < ADVICE_COLUMNS,
            row < NUM_ROWS,
        ensures
            w == word_sum_at(self@, col as int, row as int),
    {
        self.entry(col, row).try_word_sum()
    }

    /// Checks every gate in every row, row by row and, within a row, gate by gate in the
    /// order of `gate_order`; stops at the first gate that does not hold.
    pub fn validate(&self) -> (result: Result<(), GateFailure>)
        ensures
            result is Ok <==> forall|row: int, selector: Selector|
                0 <= row < NUM_ROWS ==> #[trigger] gate_holds(selector, self@, row),
            result matches Err(failure) ==> {
                &&& failure.row < NUM_ROWS
                &&& !gate_holds(failure.selector, self@, failure.row as int)
                &&& forall|row: int, selector: Selector|
                    0 <= row < failure.row ==> #[trigger] gate_holds(selector, self@, row)
                &&& forall|selector: Selector|
                    gate_order(selector) < gate_order(failure.selector) ==> #[trigger] gate_holds(
                        selector,
                        self@,
                        failure.row as int,
                    )
            },
    {
        for row in 0..NUM_ROWS
            invariant
                forall|r: int, selector: Selector|
                    0 <= r < row ==> #[trigger] gate_holds(selector, self@, r),
        {
            if let Err(failure) = LookupGate::check(self, row) {
                proof {
                    assert(!gate_holds(Selector::Lookup, self@, row as int));
                }
                return Err(failure);
            }
            if let Err(failure) = CompositionGate::check(self, row) {
                proof {
                    assert(!gate_holds(Selector::Composition, self@, row as int));
                }
                return Err(failure);
            }
            if let Err(failure) = AdditionGate::check(self, row) {
                proof {
                    assert(!gate_holds(Selector::Addition, self@, row as int));
                }
                return Err(failure);
            }
            if let Err(failure) = DecompositionGate::check(self, row) {
                proof {
                    assert(!gate_holds(Selector::Decomposition, self@, row as int));
                }
                return Err(failure);
            }
            if let Err(failure) = WitnessComputationGate::check(self, row) {
                proof {
                    assert(!gate_holds(Selector::WitnessComputation, self@, row as int));
                }
                return Err(failure);
            }
            if let Err(failure) = ResultVerificationGate::check(self, row) {
                proof {
                    assert(!gate_holds(Selector::ResultVerification, self@, row as int));
                }
                return Err(failure);
            }
            proof {
                assert forall|selector: Selector| #[trigger] gate_holds(selector, self@, row as int) by {
                    match selector {
                        Selector::Lookup => {},
                        Selector::Composition => {},
                        Selector::Addition => {},
                        Selector::Decomposition => {},
                        Selector::WitnessComputation => {},
                        Selector::ResultVerification => {},
                    }
                }
            }
        }
        Ok(())
    }
}

} // verus!
