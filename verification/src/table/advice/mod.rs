use vstd::prelude::*;

pub use advice_entry::{entry_text, AdviceEntry};

use crate::constants::{initial_hash_words, lemma_constants, INITIAL_HASH_WORDS};
use crate::sha_ops::{small_sigma0, small_sigma1, witness_op1, witness_op2};
use crate::table::indices::{
    A, AX, AY, AZ, BX, BY, BZ, CH, CH_X, CH_Y, CH_Z, CX, CY, CZ, D, DX, DY, DZ, E, EX, EY, EZ, FX,
    FY, FZ, GX, GY, GZ, H, HIGH_SUM, HX, HY, HZ, LOW_SUM, MAJ, MAJ_X, MAJ_Y, MAJ_Z, ROT0, ROT1, W,
    W1, W2, W_SUM,
};
use crate::table::{ADVICE_COLUMNS, INITIAL_BUFFER, NUM_ROWS, ROWS_PER_ROUND};
use crate::trace::{item_full, schedule, state, Trace, TraceItem};
use crate::types::{decompose, limb_array, Limb, Word, WordSum};
use crate::ROUNDS;

mod advice_entry;

verus! {

/// The advice area: the private cells of the table, `ADVICE_COLUMNS` per row, held row
/// after row.
#[derive(Clone)]
pub struct Advice {
    cells: Vec<AdviceEntry>,
}

/// Position in the flat sequence of cells of the cell in column `col` of row `row`.
pub open spec fn cell_index(col: int, row: int) -> int {
    row * ADVICE_COLUMNS + col
}

impl View for Advice {
    type V = Seq<AdviceEntry>;

    closed spec fn view(&self) -> Seq<AdviceEntry> {
        self.cells@
    }
}

/// The low 32 bits of what the trace of `input` records for `item` in round `r`.
pub open spec fn trace_word(input: Seq<Word>, item: TraceItem, r: int) -> Word {
    item_full(input, item, r as nat) as Word
}

/// Limb `i` of what the trace of `input` records for `item` in round `r`.
pub open spec fn trace_limb(input: Seq<Word>, item: TraceItem, r: int, i: int) -> Limb {
    limb_array(trace_word(input, item, r))[i]
}

/// The full value of `a` at the start of round `j`; for `j` = -1, -2, -3, the initial values
/// of `b`, `c`, `d`, which play the part of `a` in the rounds before the first.
pub open spec fn a_history(input: Seq<Word>, j: int) -> WordSum {
    if j >= 0 {
        state(input, j as nat)[0]
    } else {
        initial_hash_words()[-j] as WordSum
    }
}

/// The full value of `e` at the start of round `j`; for `j` = -1, -2, -3, the initial values
/// of `f`, `g`, `h`.
pub open spec fn e_history(input: Seq<Word>, j: int) -> WordSum {
    if j >= 0 {
        state(input, j as nat)[4]
    } else {
        initial_hash_words()[4 - j] as WordSum
    }
}

/// The sum from which word `r` (16 or more) of the message schedule is reduced.
pub open spec fn witness_sum(input: Seq<Word>, r: int) -> WordSum {
    (small_sigma1(schedule(input, (r - 2) as nat)) + schedule(input, (r - 7) as nat)
        + small_sigma0(schedule(input, (r - 15) as nat)) + schedule(input, (r - 16) as nat))
        as WordSum
}

/// The sum of `a` at the start of round `r` (61 to 64) and the initial hash word that is
/// added to it in the output: `d`, `c`, `b`, `a` for rounds 61 to 64.
pub open spec fn low_sum(input: Seq<Word>, r: int) -> WordSum {
    ((a_history(input, r) as Word) + initial_hash_words()[64 - r]) as WordSum
}

/// The sum of `e` at the start of round `r` (61 to 64) and the initial hash word that is
/// added to it in the output: `h`, `g`, `f`, `e` for rounds 61 to 64.
pub open spec fn high_sum(input: Seq<Word>, r: int) -> WordSum {
    ((e_history(input, r) as Word) + initial_hash_words()[68 - r]) as WordSum
}

/// What the cell in column `col` of row `row` holds in the advice area of the trace of
/// `input`, leaving out the output sums.
///
/// Rows come in groups of four; group `q` belongs to round `r = q - 3`. The first row of
/// a group holds the limbs of `a` and `e` at the start of the round, the message word and
/// (from round 16) the sum it is reduced from; the second the rotations and the limb-wise
/// majority and choice; the third the majority, choice, `d` and `h` as words and `σ1`, `σ0`
/// of the message word; the fourth the new `a` and `e` before reduction.
pub open spec fn base_entry(input: Seq<Word>, col: int, row: int) -> AdviceEntry {
    round_entry(input, col, row / 4 - INITIAL_BUFFER, row % 4)
}

/// What `base_entry` gives for column `col` of row `t` of the group of round `r`.
pub open spec fn round_entry(input: Seq<Word>, col: int, r: int, t: int) -> AdviceEntry {
    if t == 0 && col < 3 {
        AdviceEntry::Limb(limb_array(a_history(input, r) as Word)[col])
    } else if t == 0 && 3 <= col < 6 {
        AdviceEntry::Limb(limb_array(e_history(input, r) as Word)[col - 3])
    } else if t == 0 && col == W && 0 <= r < 64 {
        AdviceEntry::Word(trace_word(input, TraceItem::w, r))
    } else if t == 0 && col == W_SUM && 16 <= r < 64 {
        AdviceEntry::WSum(witness_sum(input, r))
    } else if t == 1 && 0 <= r < 64 && col <= CH_Z {
        if col == ROT0 {
            AdviceEntry::Word(trace_word(input, TraceItem::rot0, r))
        } else if col == ROT1 {
            AdviceEntry::Word(trace_word(input, TraceItem::rot1, r))
        } else if col < 5 {
            AdviceEntry::Limb(trace_limb(input, TraceItem::maj, r, col - 2))
        } else {
            AdviceEntry::Limb(trace_limb(input, TraceItem::ch, r, col - 5))
        }
    } else if t == 2 && 0 <= r < 64 {
        if col == MAJ {
            AdviceEntry::Word(trace_word(input, TraceItem::maj, r))
        } else if col == CH {
            AdviceEntry::Word(trace_word(input, TraceItem::ch, r))
        } else if col == D {
            AdviceEntry::Word(trace_word(input, TraceItem::d_in, r))
        } else if col == H {
            AdviceEntry::Word(trace_word(input, TraceItem::h_in, r))
        } else if col == W1 {
            AdviceEntry::Word(small_sigma1(trace_word(input, TraceItem::w, r)))
        } else if col == W2 {
            AdviceEntry::Word(small_sigma0(trace_word(input, TraceItem::w, r)))
        } else {
            AdviceEntry::Mpty
        }
    } else if t == 3 && 0 <= r < 64 && col == A {
        AdviceEntry::WSum(item_full(input, TraceItem::a, r as nat))
    } else if t == 3 && 0 <= r < 64 && col == E {
        AdviceEntry::WSum(item_full(input, TraceItem::e, r as nat))
    } else {
        AdviceEntry::Mpty
    }
}

/// What the cell in column `col` of row `row` holds in the advice area of the trace of
/// `input`: as in `base_entry`, and in the fourth row of the groups of rounds 61 to 64, the
/// sums of the final `a` and `e` values with the initial hash words.
pub open spec fn advice_entry_of(input: Seq<Word>, col: int, row: int) -> AdviceEntry {
    entry_in_round(input, col, row / 4 - INITIAL_BUFFER, row % 4)
}

/// What `advice_entry_of` gives for column `col` of row `t` of the group of round `r`.
pub open spec fn entry_in_round(input: Seq<Word>, col: int, r: int, t: int) -> AdviceEntry {
    if t == 3 && 61 <= r <= 64 && col == LOW_SUM {
        AdviceEntry::WSum(low_sum(input, r))
    } else if t == 3 && 61 <= r <= 64 && col == HIGH_SUM {
        AdviceEntry::WSum(high_sum(input, r))
    } else {
        round_entry(input, col, r, t)
    }
}

/// The advice area of the trace of `input`.
#[verifier::opaque]
pub open spec fn advice_of(input: Seq<Word>) -> Seq<AdviceEntry> {
    Seq::new(
        (NUM_ROWS * ADVICE_COLUMNS) as nat,
        |i: int| advice_entry_of(input, i % ADVICE_COLUMNS as int, i / ADVICE_COLUMNS as int),
    )
}

/// Row `t` of the group of round `r` lies in group `r + INITIAL_BUFFER` at offset `t`.
pub proof fn lemma_round_row(r: int, t: int)
    requires
        0 <= t < 4,
    ensures
        (ROWS_PER_ROUND * (INITIAL_BUFFER + r) + t) / 4 - INITIAL_BUFFER == r,
        (ROWS_PER_ROUND * (INITIAL_BUFFER + r) + t) % 4 == t,
{
    assert((4 * (3 + r) + t) / 4 == 3 + r && (4 * (3 + r) + t) % 4 == t) by (nonlinear_arith)
        requires
            0 <= t < 4,
    ;
}

/// The entry in column `col` (below 6) of the first row of a round whose `a` and `e` are
/// the initial hash words `j` and `j + 4`: the limbs of the first, then those of the second.
pub open spec fn initial_limb_entry(j: int, col: int) -> AdviceEntry {
    if col < 3 {
        AdviceEntry::Limb(limb_array(initial_hash_words()[j])[col])
    } else {
        AdviceEntry::Limb(limb_array(initial_hash_words()[j + 4])[col - 3])
    }
}

/// The cells before the first round that hold the limbs of the initial hash words: the
/// limbs of `a` and `e` in the first row of each group before the first round.
pub open spec fn auxiliary_cell(col: int, row: int) -> bool {
    &&& row == 0 || row == ROWS_PER_ROUND || row == 2 * ROWS_PER_ROUND
    &&& 0 <= col <= EZ
}

/// The cells that the rounds fill, from the first row of the first round up to the limbs of
/// `a` and `e` in row `end`: in the first row of a group the limbs, the message word and,
/// from round 16, its sum; the first eight columns of the second; the first six columns of the third and the
/// first two of the fourth.
pub open spec fn round_cell(col: int, row: int, end: int) -> bool {
    let first = INITIAL_BUFFER * ROWS_PER_ROUND;
    &&& first <= row <= end
    &&& 0 <= col < ADVICE_COLUMNS
    &&& if row == end {
        col <= EZ
    } else if row % 4 == 0 {
        col <= W || (col == W_SUM && row >= first + 16 * ROWS_PER_ROUND)
    } else if row % 4 == 1 {
        col <= CH_Z
    } else if row % 4 == 2 {
        col <= W2
    } else {
        col <= E
    }
}

/// The row in which the rounds stop: the first row of the group after the last round.
pub open spec fn rounds_end() -> int {
    ROWS_PER_ROUND * (INITIAL_BUFFER + ROUNDS)
}

/// The cells that hold the output sums: the last two columns of the fourth row of the groups
/// of rounds 61 to 64.
pub open spec fn result_sum_cell(col: int, row: int) -> bool {
    &&& col == LOW_SUM || col == HIGH_SUM
    &&& row % 4 == 3
    &&& 61 <= row / 4 - INITIAL_BUFFER <= 64
}

/// `new` holds `value(col, row)` in the cells that `written` names and what `old` holds
/// elsewhere.
pub open spec fn written_over(
    new: Seq<AdviceEntry>,
    old: Seq<AdviceEntry>,
    written: spec_fn(int, int) -> bool,
    value: spec_fn(int, int) -> AdviceEntry,
) -> bool {
    &&& new.len() == old.len()
    &&& forall|col: int, row: int|
        0 <= col < ADVICE_COLUMNS && 0 <= row < NUM_ROWS ==> #[trigger] new[cell_index(col, row)]
            == if written(col, row) {
            value(col, row)
        } else {
            old[cell_index(col, row)]
        }
}

/// The value of the last pair of `assignment` that names column `col`, if any pair does.
pub open spec fn last_assigned(assignment: Seq<(usize, AdviceEntry)>, col: int) -> Option<
    AdviceEntry,
>
    decreases assignment.len(),
{
    if assignment.len() == 0 {
        None
    } else if assignment.last().0 == col {
        Some(assignment.last().1)
    } else {
        last_assigned(assignment.drop_last(), col)
    }
}

/// When the pairs name the consecutive columns from `first` on, each of those columns gets
/// the value paired with it, and no other column is named.
pub proof fn lemma_consecutive_assignment(assignment: Seq<(usize, AdviceEntry)>, first: int)
    requires
        forall|k: int| 0 <= k < assignment.len() ==> #[trigger] assignment[k].0 == first + k,
    ensures
        forall|col: int|
            #[trigger] last_assigned(assignment, col) == if first <= col < first
                + assignment.len() {
                Some(assignment[col - first].1)
            } else {
                None
            },
    decreases assignment.len(),
{
    if assignment.len() > 0 {
        let rest = assignment.drop_last();
        assert forall|k: int| 0 <= k < rest.len() implies #[trigger] rest[k].0 == first + k by {
            assert(rest[k] == assignment[k]);
        }
        lemma_consecutive_assignment(rest, first);
        assert forall|col: int|
            #[trigger] last_assigned(assignment, col) == if first <= col < first
                + assignment.len() {
                Some(assignment[col - first].1)
            } else {
                None
            } by {
            let n = assignment.len() - 1;
            assert(assignment.last() == assignment[n]);
            assert(assignment[n].0 == first + n);
            if col != first + n {
                assert(last_assigned(assignment, col) == last_assigned(rest, col));
                if first <= col < first + n {
                    assert(rest[col - first] == assignment[col - first]);
                }
            }
        }
    }
}

/// What the trace of `input` gives for each cell outside the output sums, region by region:
/// the cells of the rounds, the limbs of the initial hash words before the first round, and
/// nothing in any other cell.
pub proof fn lemma_advice_regions(input: Seq<Word>, col: int, row: int)
    requires
        0 <= col < ADVICE_COLUMNS,
        0 <= row < NUM_ROWS,
    ensures
        !result_sum_cell(col, row) ==> advice_entry_of(input, col, row) == if round_cell(
            col,
            row,
            rounds_end(),
        ) {
            base_entry(input, col, row)
        } else if auxiliary_cell(col, row) {
            initial_limb_entry(3 - row / 4, col)
        } else {
            AdviceEntry::Mpty
        },
{
    let r = row / 4 - INITIAL_BUFFER;
    let t = row % 4;
    assert(row == 4 * (r + 3) + t);
    assert(0 <= t < 4);
    assert(-3 <= r <= 64);
    if auxiliary_cell(col, row) {
        assert(r == -3 || r == -2 || r == -1);
        assert(t == 0);
    }
}

impl Advice {
    /// The cell in column `col` of row `row`.
    pub fn get(&self, col: usize, row: usize) -> (entry: AdviceEntry)
        requires
            self@.len() == NUM_ROWS * ADVICE_COLUMNS,
            col < ADVICE_COLUMNS,
            row < NUM_ROWS,
        ensures
            entry == self@[cell_index(col as int, row as int)],
    {
        self.cells[row * ADVICE_COLUMNS + col]
    }

    /// The advice area of a trace: every cell holds what `advice_of` gives for the trace's
    /// input.
    pub fn from_trace(trace: &Trace) -> (advice: Self)
        requires
            trace.wf(),
        ensures
            advice@ == advice_of(trace.input()),
            advice@.len() == NUM_ROWS * ADVICE_COLUMNS,
    {
        let ghost input = trace.input();
        let mut cells: Vec<AdviceEntry> = Vec::new();
        for i in 0..NUM_ROWS * ADVICE_COLUMNS
            invariant
                cells@.len() == i,
                forall|j: int| 0 <= j < i ==> #[trigger] cells@[j] == AdviceEntry::Mpty,
        {
            cells.push(AdviceEntry::Mpty);
        }
        let empty = Self { cells };
        let ghost e = empty@;
        let auxiliary = empty.fill_auxiliary_rows();
        let ghost x = auxiliary@;
        let rounds = auxiliary.fill_round_rows(trace);
        let ghost y = rounds@;
        let advice = rounds.fill_result_sums(trace);
        proof {
            assert forall|i: int| 0 <= i < NUM_ROWS * ADVICE_COLUMNS implies #[trigger] advice@[i]
                == advice_of(input)[i] by {
                let col = i % ADVICE_COLUMNS as int;
                let row = i / ADVICE_COLUMNS as int;
                assert(cell_index(col, row) == i);
                lemma_advice_regions(input, col, row);
                assert(e[cell_index(col, row)] == AdviceEntry::Mpty);
                assert(x[cell_index(col, row)] == if auxiliary_cell(col, row) {
                    initial_limb_entry(3 - row / 4, col)
                } else {
                    e[cell_index(col, row)]
                });
                assert(y[cell_index(col, row)] == if round_cell(col, row, rounds_end()) {
                    base_entry(input, col, row)
                } else {
                    x[cell_index(col, row)]
                });
                reveal(advice_of);
            }
            reveal(advice_of);
            assert(advice@ =~= advice_of(input));
        }
        advice
    }

    /// Fills the rows before the first round with the limbs of the initial values of `b`,
    /// `c`, `d` and `f`, `g`, `h`, which the first rounds read as the earlier `a` and `e`.
    fn fill_auxiliary_rows(self) -> (advice: Self)
        requires
            self@.len() == NUM_ROWS * ADVICE_COLUMNS,
        ensures
            written_over(
                advice@,
                self@,
                |col: int, row: int| auxiliary_cell(col, row),
                |col: int, row: int| initial_limb_entry(3 - row / 4, col),
            ),
    {
        let mut advice = self;
        let ghost start = advice@;
        proof {
            lemma_constants();
        }
        let b = decompose(&INITIAL_HASH_WORDS[1]);
        let f = decompose(&INITIAL_HASH_WORDS[5]);
        let c = decompose(&INITIAL_HASH_WORDS[2]);
        let g = decompose(&INITIAL_HASH_WORDS[6]);
        let d = decompose(&INITIAL_HASH_WORDS[3]);
        let h = decompose(&INITIAL_HASH_WORDS[7]);
        let b_cells = [(BX, AdviceEntry::from(b[0])), (BY, AdviceEntry::from(b[1])), (BZ, AdviceEntry::from(b[2]))];
        let f_cells = [(FX, AdviceEntry::from(f[0])), (FY, AdviceEntry::from(f[1])), (FZ, AdviceEntry::from(f[2]))];
        let c_cells = [(CX, AdviceEntry::from(c[0])), (CY, AdviceEntry::from(c[1])), (CZ, AdviceEntry::from(c[2]))];
        let g_cells = [(GX, AdviceEntry::from(g[0])), (GY, AdviceEntry::from(g[1])), (GZ, AdviceEntry::from(g[2]))];
        let d_cells = [(DX, AdviceEntry::from(d[0])), (DY, AdviceEntry::from(d[1])), (DZ, AdviceEntry::from(d[2]))];
        let h_cells = [(HX, AdviceEntry::from(h[0])), (HY, AdviceEntry::from(h[1])), (HZ, AdviceEntry::from(h[2]))];
        proof {
            lemma_consecutive_assignment(b_cells@, AX as int);
            lemma_consecutive_assignment(f_cells@, EX as int);
            lemma_consecutive_assignment(c_cells@, AX as int);
            lemma_consecutive_assignment(g_cells@, EX as int);
            lemma_consecutive_assignment(d_cells@, AX as int);
            lemma_consecutive_assignment(h_cells@, EX as int);
        }
        advice.fill(2 * ROWS_PER_ROUND, &b_cells);
        let ghost s1 = advice@;
        advice.fill(2 * ROWS_PER_ROUND, &f_cells);
        let ghost s2 = advice@;
        advice.fill(ROWS_PER_ROUND, &c_cells);
        let ghost s3 = advice@;
        advice.fill(ROWS_PER_ROUND, &g_cells);
        let ghost s4 = advice@;
        advice.fill(0, &d_cells);
        let ghost s5 = advice@;
        advice.fill(0, &h_cells);
        proof {
            assert forall|col: int, row: int|
                0 <= col < ADVICE_COLUMNS && 0 <= row < NUM_ROWS implies #[trigger] advice@[cell_index(col, row)]
                    == if auxiliary_cell(col, row) {
                    initial_limb_entry(3 - row / 4, col)
                } else {
                    start[cell_index(col, row)]
                } by {
                let i = cell_index(col, row);
                assert(s1[i] == if row == 8 && col < 3 { b_cells@[col].1 } else { start[i] });
                assert(s2[i] == if row == 8 && 3 <= col < 6 { f_cells@[col - 3].1 } else { s1[i] });
                assert(s3[i] == if row == 4 && col < 3 { c_cells@[col].1 } else { s2[i] });
                assert(s4[i] == if row == 4 && 3 <= col < 6 { g_cells@[col - 3].1 } else { s3[i] });
                assert(s5[i] == if row == 0 && col < 3 { d_cells@[col].1 } else { s4[i] });
            }
        }
        advice
    }

    /// Fills the rows of every round from the trace: the limbs of the initial `a` and `e`
    /// into the first row of the first round, then the rows of each round in turn.
    fn fill_round_rows(self, trace: &Trace) -> (advice: Self)
        requires
            trace.wf(),
            self@.len() == NUM_ROWS * ADVICE_COLUMNS,
        ensures
            written_over(
                advice@,
                self@,
                |col: int, row: int| round_cell(col, row, rounds_end()),
                |col: int, row: int| base_entry(trace.input(), col, row),
            ),
    {
        let ghost input = trace.input();
        let ghost start = self@;
        let mut advice = self;
        let offset = INITIAL_BUFFER * ROWS_PER_ROUND;

        advice.fill_first_round_input(offset);
        proof {
            lemma_constants();
            lemma_round_row(0, 0);
            assert(state(input, 0)[0] == INITIAL_HASH_WORDS[0] as WordSum);
            assert(state(input, 0)[4] == INITIAL_HASH_WORDS[4] as WordSum);
            assert forall|col: int, r: int|
                0 <= col < ADVICE_COLUMNS && 0 <= r < NUM_ROWS implies #[trigger] advice@[cell_index(col, r)]
                    == if round_cell(col, r, offset as int) {
                    base_entry(input, col, r)
                } else {
                    start[cell_index(col, r)]
                } by {
            }
        }

        for round in 0..ROUNDS
            invariant
                trace.wf(),
                input == trace.input(),
                offset == INITIAL_BUFFER * ROWS_PER_ROUND,
                start.len() == NUM_ROWS * ADVICE_COLUMNS,
                advice@.len() == start.len(),
                forall|col: int, r: int|
                    0 <= col < ADVICE_COLUMNS && 0 <= r < NUM_ROWS ==> #[trigger] advice@[cell_index(col, r)]
                        == if round_cell(col, r, offset + round * ROWS_PER_ROUND) {
                        base_entry(input, col, r)
                    } else {
                        start[cell_index(col, r)]
                    },
        {
            let row = offset + round * ROWS_PER_ROUND;
            let ghost s0 = advice@;

            advice.fill_round_lookups(row + 1, trace, round);
            let ghost s1 = advice@;
            advice.fill_round_compositions(row + 2, trace, round);
            let ghost s2 = advice@;
            advice.fill_round_additions(row + 3, trace, round);
            let ghost s3 = advice@;
            advice.fill_round_decompositions(row + 4, trace, round);
            let ghost s4 = advice@;
            advice.fill_witness(row, trace, round);
            let ghost s5 = advice@;
            if round > 15 {
                advice.fill_witness_computation(row, round, trace);
            }
            proof {
                lemma_round_row(round as int, 0);
                lemma_round_row(round as int, 1);
                lemma_round_row(round as int, 2);
                lemma_round_row(round as int, 3);
                lemma_round_row(round + 1, 0);
                assert forall|col: int, r: int|
                    0 <= col < ADVICE_COLUMNS && 0 <= r < NUM_ROWS implies #[trigger] advice@[cell_index(col, r)]
                        == if round_cell(col, r, row + ROWS_PER_ROUND) {
                        base_entry(input, col, r)
                    } else {
                        start[cell_index(col, r)]
                    } by {
                    let i = cell_index(col, r);
                    assert(s0[i] == if round_cell(col, r, row as int) {
                        base_entry(input, col, r)
                    } else {
                        start[i]
                    });
                    assert(s1[i] == if (r == row + 1 && col <= CH_Z) || (r == row + 2 && W1 <= col <= W2) {
                        round_entry(input, col, round as int, r - (row + 1) + 1)
                    } else {
                        s0[i]
                    });
                    assert(s5[i] == if r == row && col == W {
                        round_entry(input, col, round as int, 0)
                    } else {
                        s4[i]
                    });
                }
            }
        }
        advice
    }

    /// Fills the limbs of the initial `a` and `e` into the first six columns of row `row`.
    fn fill_first_round_input(&mut self, row: usize)
        requires
            row < NUM_ROWS,
            old(self)@.len() == NUM_ROWS * ADVICE_COLUMNS,
        ensures
            written_over(
                final(self)@,
                old(self)@,
                |col: int, r: int| r == row && col <= EZ,
                |col: int, r: int| initial_limb_entry(0, col),
            ),
    {
        proof {
            lemma_constants();
        }
        let a_limbs = decompose(&INITIAL_HASH_WORDS[0]);
        let e_limbs = decompose(&INITIAL_HASH_WORDS[4]);
        let cells = [
            (AX, AdviceEntry::from(a_limbs[0])),
            (AY, AdviceEntry::from(a_limbs[1])),
            (AZ, AdviceEntry::from(a_limbs[2])),
            (EX, AdviceEntry::from(e_limbs[0])),
            (EY, AdviceEntry::from(e_limbs[1])),
            (EZ, AdviceEntry::from(e_limbs[2])),
        ];
        proof {
            lemma_consecutive_assignment(cells@, AX as int);
        }
        self.fill(row, &cells);
    }

    /// Fills row `row` with the rotations, the limb-wise majority and choice of round
    /// `round`, and row `row + 1` with `σ1` and `σ0` of its message word.
    fn fill_round_lookups(&mut self, row: usize, trace: &Trace, round: usize)
        requires
            trace.wf(),
            round < ROUNDS,
            row + 1 < NUM_ROWS,
            old(self)@.len() == NUM_ROWS * ADVICE_COLUMNS,
        ensures
            written_over(
                final(self)@,
                old(self)@,
                |col: int, r: int| (r == row && col <= CH_Z) || (r == row + 1 && W1 <= col <= W2),
                |col: int, r: int| round_entry(trace.input(), col, round as int, r - row + 1),
            ),
    {
        let ghost start = self@;
        let rot0 = trace.get(TraceItem::rot0, round);
        let rot1 = trace.get(TraceItem::rot1, round);
        let maj = trace.get(TraceItem::maj, round);
        let ch = trace.get(TraceItem::ch, round);
        let w = trace.get(TraceItem::w, round);
        let first = [
            (ROT0, AdviceEntry::from(rot0.word)),
            (ROT1, AdviceEntry::from(rot1.word)),
            (MAJ_X, AdviceEntry::from(maj.limbs[0])),
            (MAJ_Y, AdviceEntry::from(maj.limbs[1])),
            (MAJ_Z, AdviceEntry::from(maj.limbs[2])),
            (CH_X, AdviceEntry::from(ch.limbs[0])),
            (CH_Y, AdviceEntry::from(ch.limbs[1])),
            (CH_Z, AdviceEntry::from(ch.limbs[2])),
        ];
        let second = [(W1, AdviceEntry::from(witness_op1(w.word))), (W2, AdviceEntry::from(witness_op2(w.word)))];
        proof {
            lemma_consecutive_assignment(first@, ROT0 as int);
            lemma_consecutive_assignment(second@, W1 as int);
        }
        self.fill(row, &first);
        let ghost mid = self@;
        self.fill(row + 1, &second);
        proof {
            assert forall|col: int, r: int|
                0 <= col < ADVICE_COLUMNS && 0 <= r < NUM_ROWS implies #[trigger] self@[cell_index(col, r)]
                    == if (r == row && col <= CH_Z) || (r == row + 1 && W1 <= col <= W2) {
                    round_entry(trace.input(), col, round as int, r - row + 1)
                } else {
                    start[cell_index(col, r)]
                } by {
                if r == row {
                    assert(mid[cell_index(col, r)] == self@[cell_index(col, r)]);
                }
            }
        }
    }

    /// Fills row `row` with the majority, choice, `d` and `h` of round `round` as words.
    fn fill_round_compositions(&mut self, row: usize, trace: &Trace, round: usize)
        requires
            trace.wf(),
            round < ROUNDS,
            row < NUM_ROWS,
            old(self)@.len() == NUM_ROWS * ADVICE_COLUMNS,
        ensures
            written_over(
                final(self)@,
                old(self)@,
                |col: int, r: int| r == row && col <= H,
                |col: int, r: int| round_entry(trace.input(), col, round as int, 2),
            ),
    {
        let maj = trace.get(TraceItem::maj, round);
        let ch = trace.get(TraceItem::ch, round);
        let d = trace.get(TraceItem::d_in, round);
        let h = trace.get(TraceItem::h_in, round);
        let cells = [
            (MAJ, AdviceEntry::from(maj.word)),
            (CH, AdviceEntry::from(ch.word)),
            (D, AdviceEntry::from(d.word)),
            (H, AdviceEntry::from(h.word)),
        ];
        proof {
            lemma_consecutive_assignment(cells@, MAJ as int);
        }
        self.fill(row, &cells);
    }

    /// Fills row `row` with the new `a` and `e` of round `round` before reduction.
    fn fill_round_additions(&mut self, row: usize, trace: &Trace, round: usize)
        requires
            trace.wf(),
            round < ROUNDS,
            row < NUM_ROWS,
            old(self)@.len() == NUM_ROWS * ADVICE_COLUMNS,
        ensures
            written_over(
                final(self)@,
                old(self)@,
                |col: int, r: int| r == row && col <= E,
                |col: int, r: int| round_entry(trace.input(), col, round as int, 3),
            ),
    {
        let a = trace.get(TraceItem::a, round);
        let e = trace.get(TraceItem::e, round);
        let cells = [(A, AdviceEntry::from(a.full)), (E, AdviceEntry::from(e.full))];
        proof {
            lemma_consecutive_assignment(cells@, A as int);
        }
        self.fill(row, &cells);
    }

    /// Fills row `row` with the limbs of the new `a` and `e` of round `round`, which the
    /// next round reads.
    fn fill_round_decompositions(&mut self, row: usize, trace: &Trace, round: usize)
        requires
            trace.wf(),
            round < ROUNDS,
            row < NUM_ROWS,
            old(self)@.len() == NUM_ROWS * ADVICE_COLUMNS,
        ensures
            written_over(
                final(self)@,
                old(self)@,
                |col: int, r: int| r == row && col <= EZ,
                |col: int, r: int| round_entry(trace.input(), col, round + 1, 0),
            ),
    {
        let a = trace.get(TraceItem::a, round);
        let e = trace.get(TraceItem::e, round);
        let cells = [
            (AX, AdviceEntry::from(a.limbs[0])),
            (AY, AdviceEntry::from(a.limbs[1])),
            (AZ, AdviceEntry::from(a.limbs[2])),
            (EX, AdviceEntry::from(e.limbs[0])),
            (EY, AdviceEntry::from(e.limbs[1])),
            (EZ, AdviceEntry::from(e.limbs[2])),
        ];
        proof {
            lemma_consecutive_assignment(cells@, AX as int);
        }
        self.fill(row, &cells);
    }

    /// Fills the message word of round `round` into row `row`.
    fn fill_witness(&mut self, row: usize, trace: &Trace, round: usize)
        requires
            trace.wf(),
            round < ROUNDS,
            row < NUM_ROWS,
            old(self)@.len() == NUM_ROWS * ADVICE_COLUMNS,
        ensures
            written_over(
                final(self)@,
                old(self)@,
                |col: int, r: int| r == row && col == W,
                |col: int, r: int| round_entry(trace.input(), col, round as int, 0),
            ),
    {
        let w = trace.get(TraceItem::w, round);
        let cells = [(W, AdviceEntry::from(w.word))];
        proof {
            lemma_consecutive_assignment(cells@, W as int);
        }
        self.fill(row, &cells);
    }

    /// Fills into row `row` the sum from which the message word of round `round` (16 or
    /// more) is reduced.
    fn fill_witness_computation(&mut self, row: usize, round: usize, trace: &Trace)
        requires
            trace.wf(),
            16 <= round < ROUNDS,
            row < NUM_ROWS,
            old(self)@.len() == NUM_ROWS * ADVICE_COLUMNS,
        ensures
            written_over(
                final(self)@,
                old(self)@,
                |col: int, r: int| r == row && col == W_SUM,
                |col: int, r: int| round_entry(trace.input(), col, round as int, 0),
            ),
    {
        let w2 = trace.get(TraceItem::w, round - 2).word;
        let w7 = trace.get(TraceItem::w, round - 7).word;
        let w15 = trace.get(TraceItem::w, round - 15).word;
        let w16 = trace.get(TraceItem::w, round - 16).word;
        let sum = witness_op1(w2) as WordSum + w7 as WordSum + witness_op2(w15) as WordSum
            + w16 as WordSum;
        let cells = [(W_SUM, AdviceEntry::from(sum))];
        proof {
            lemma_consecutive_assignment(cells@, W_SUM as int);
        }
        self.fill(row, &cells);
    }

    /// Fills, in the fourth row of the groups of rounds 61 to 64, the sums of `a` and `e` at
    /// the start of the round with the initial hash words they are added to in the output.
    fn fill_result_sums(self, trace: &Trace) -> (advice: Self)
        requires
            trace.wf(),
            self@.len() == NUM_ROWS * ADVICE_COLUMNS,
        ensures
            written_over(
                advice@,
                self@,
                |col: int, row: int| result_sum_cell(col, row),
                |col: int, row: int| advice_entry_of(trace.input(), col, row),
            ),
    {
        let ghost input = trace.input();
        let ghost start = self@;
        let mut advice = self;
        proof {
            lemma_constants();
        }
        for round in 61..ROUNDS + 1
            invariant
                trace.wf(),
                input == trace.input(),
                advice@.len() == start.len(),
                start.len() == NUM_ROWS * ADVICE_COLUMNS,
                forall|col: int, row: int|
                    0 <= col < ADVICE_COLUMNS && 0 <= row < NUM_ROWS ==> #[trigger] advice@[cell_index(col, row)]
                        == if result_sum_cell(col, row) && row < ROWS_PER_ROUND * (INITIAL_BUFFER + round) {
                        advice_entry_of(input, col, row)
                    } else {
                        start[cell_index(col, row)]
                    },
        {
            let row = ROWS_PER_ROUND * (INITIAL_BUFFER + round) + 3;
            let a = trace.get(TraceItem::a, round - 1).word;
            let e = trace.get(TraceItem::e, round - 1).word;
            let low = a as WordSum + INITIAL_HASH_WORDS[ROUNDS - round] as WordSum;
            let high = e as WordSum + INITIAL_HASH_WORDS[ROUNDS + 4 - round] as WordSum;
            let cells = [(LOW_SUM, AdviceEntry::from(low)), (HIGH_SUM, AdviceEntry::from(high))];
            proof {
                lemma_consecutive_assignment(cells@, LOW_SUM as int);
                lemma_round_row(round as int, 3);
            }
            advice.fill(row, &cells);
        }
        advice
    }

    /// Writes the values of `assignment` into row `row`, pair by pair: a column named more
    /// than once keeps the value of its last pair.
    fn fill(&mut self, row: usize, assignment: &[(usize, AdviceEntry)])
        requires
            old(self)@.len() == NUM_ROWS * ADVICE_COLUMNS,
            row < NUM_ROWS,
            forall|k: int| 0 <= k < assignment@.len() ==> #[trigger] assignment@[k].0 < ADVICE_COLUMNS,
        ensures
            final(self)@.len() == old(self)@.len(),
            forall|col: int, r: int|
                0 <= col < ADVICE_COLUMNS && 0 <= r < NUM_ROWS ==> #[trigger] final(self)@[cell_index(col, r)]
                    == if r == row && last_assigned(assignment@, col) is Some {
                    last_assigned(assignment@, col)->0
                } else {
                    old(self)@[cell_index(col, r)]
                },
    {
        let ghost start = self@;
        for k in 0..assignment.len()
            invariant
                row < NUM_ROWS,
                start.len() == NUM_ROWS * ADVICE_COLUMNS,
                self@.len() == start.len(),
                forall|j: int| 0 <= j < assignment@.len() ==> #[trigger] assignment@[j].0 < ADVICE_COLUMNS,
                forall|col: int, r: int|
                    0 <= col < ADVICE_COLUMNS && 0 <= r < NUM_ROWS ==> #[trigger] self@[cell_index(col, r)]
                        == if r == row && last_assigned(assignment@.take(k as int), col) is Some {
                        last_assigned(assignment@.take(k as int), col)->0
                    } else {
                        start[cell_index(col, r)]
                    },
        {
            let (col, value) = assignment[k];
            let ghost before = self@;
            self.cells.set(row * ADVICE_COLUMNS + col, value);
            proof {
                let done = assignment@.take(k + 1);
                assert(done.drop_last() =~= assignment@.take(k as int));
                assert(done.last() == assignment@[k as int]);
                assert forall|c: int, r: int|
                    0 <= c < ADVICE_COLUMNS && 0 <= r < NUM_ROWS implies #[trigger] self@[cell_index(c, r)]
                        == if r == row && last_assigned(done, c) is Some {
                        last_assigned(done, c)->0
                    } else {
                        start[cell_index(c, r)]
                    } by {
                    if r != row || c != col {
                        assert(cell_index(c, r) != cell_index(col as int, row as int));
                        assert(self@[cell_index(c, r)] == before[cell_index(c, r)]);
                    }
                }
            }
        }
        proof {
            assert(assignment@.take(assignment@.len() as int) =~= assignment@);
        }
    }
}

} // verus!
