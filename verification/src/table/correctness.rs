use vstd::prelude::*;

use crate::constants::{initial_hash_words, lemma_constants, round_constants};
use crate::sha_ops::{
    big_sigma0, big_sigma1, ch16, ch32, maj16, small_sigma0, small_sigma1, lemma_choice_limbwise, lemma_majority_limbwise, maj32,
};
use crate::table::advice::{
    a_history, advice_entry_of, advice_of, cell_index, e_history, entry_in_round, lemma_round_row,
    trace_word,
    AdviceEntry,
};
use crate::table::fixed::{enabled, fixed_constant, Selector};
use crate::table::gates::{
    addition_holds, composed, composition_holds, decomposition_holds, gate_holds, lookup_holds,
    result_verification_holds, witness_computation_holds,
};
use crate::table::indices::{
    A, AX, AY, AZ, EX, EY, EZ, CH, CH_X, CH_Y, CH_Z, D, E, H, HIGH_SUM, LOW_SUM, MAJ, MAJ_X, MAJ_Y, MAJ_Z, ROT0, ROT1, W,
    W1, W2, W_SUM,
};
use crate::table::{
    cell, limbs_at, public_column, table_of, word_at, word_sum_at, TableView, ADVICE_COLUMNS,
    NUM_ROWS, ROWS_PER_ROUND,
};
use crate::sha::message_words;
use crate::trace::{compression, round_step, schedule, state, word_modulus, TraceItem};
use crate::types::{lemma_limb_array, lemma_limbs_of_word, limb_array, limb_high, limb_low, limb_mid, Word, WordSum};

verus! {

/// The working variables `b, c, d` at the start of round `r` are the values of `a` at the
/// start of the three rounds before (or, before the first round, the initial `b, c, d`),
/// and likewise `f, g, h` for `e`.
pub proof fn lemma_state_history(input: Seq<Word>, r: nat)
    ensures
        state(input, r).len() == 8,
        forall|k: int|
            0 <= k < 4 ==> #[trigger] state(input, r)[k] == a_history(input, r - k) && state(
                input,
                r,
            )[4 + k] == e_history(input, r - k),
    decreases r,
{
    lemma_constants();
    if r > 0 {
        lemma_state_history(input, (r - 1) as nat);
        assert forall|k: int| 0 <= k < 4 implies #[trigger] state(input, r)[k] == a_history(
            input,
            r - k,
        ) && state(input, r)[4 + k] == e_history(input, r - k) by {
            if k > 0 {
                assert(state(input, (r - 1) as nat)[k - 1] == a_history(input, r - 1 - (k - 1)));
                assert(state(input, (r - 1) as nat)[4 + k - 1] == e_history(input, r - 1 - (k - 1)));
            }
        }
    }
}

/// The cells of the table of a chunk are those that `advice_entry_of` gives.
pub proof fn lemma_table_cell(input: Seq<Word>, output: Seq<Word>, col: int, row: int)
    requires
        0 <= col < ADVICE_COLUMNS,
        0 <= row < NUM_ROWS,
    ensures
        cell(table_of(input, output), col, row) == advice_entry_of(input, col, row),
{
    reveal(advice_of);
    let i = cell_index(col, row);
    assert(i % 9 == col && i / 9 == row) by (nonlinear_arith)
        requires
            i == row * 9 + col,
            0 <= col < 9,
    ;
}

/// The cell in column `col` of row `t` of the group of round `r` of the table of a chunk.
pub proof fn lemma_round_cell(
    input: Seq<Word>,
    output: Seq<Word>,
    col: int,
    row: int,
    r: int,
    t: int,
)
    requires
        0 <= col < ADVICE_COLUMNS,
        0 <= row < NUM_ROWS,
        0 <= t < 4,
        row == 4 * (3 + r) + t,
    ensures
        cell(table_of(input, output), col, row) == entry_in_round(input, col, r, t),
{
    lemma_table_cell(input, output, col, row);
    lemma_round_row(r, t);
}

/// The limbs in the first row of the group of round `r` (from -3 to 64): those of `a` (in
/// column `AX`) and of `e` (in column `EX`) at the start of the round.
proof fn lemma_limbs_in_round(input: Seq<Word>, output: Seq<Word>, row: int, r: int)
    requires
        -3 <= r <= 64,
        row == 4 * (3 + r),
    ensures
        ({
            let a = a_history(input, r) as Word;
            let e = e_history(input, r) as Word;
            &&& limbs_at(table_of(input, output), 0, row) == Some(
                seq![limb_high(a), limb_mid(a), limb_low(a)],
            )
            &&& limbs_at(table_of(input, output), 3, row) == Some(
                seq![limb_high(e), limb_mid(e), limb_low(e)],
            )
        }),
{
    lemma_round_cell(input, output, 0, row, r, 0);
    lemma_round_cell(input, output, 1, row, r, 0);
    lemma_round_cell(input, output, 2, row, r, 0);
    lemma_round_cell(input, output, 3, row, r, 0);
    lemma_round_cell(input, output, 4, row, r, 0);
    lemma_round_cell(input, output, 5, row, r, 0);
}

/// The words that the trace records in round `r`, in terms of the values of `a` and `e`
/// at the start of this and earlier rounds.
proof fn lemma_round_words(input: Seq<Word>, r: int)
    requires
        0 <= r < 64,
    ensures
        ({
            let a = a_history(input, r) as Word;
            let b = a_history(input, r - 1) as Word;
            let c = a_history(input, r - 2) as Word;
            let e = e_history(input, r) as Word;
            let f = e_history(input, r - 1) as Word;
            let g = e_history(input, r - 2) as Word;
            &&& trace_word(input, TraceItem::rot0, r) == big_sigma0(a)
            &&& trace_word(input, TraceItem::rot1, r) == big_sigma1(e)
            &&& trace_word(input, TraceItem::maj, r) == maj32(a, b, c)
            &&& trace_word(input, TraceItem::ch, r) == ch32(e, f, g)
            &&& trace_word(input, TraceItem::d_in, r) == a_history(input, r - 3) as Word
            &&& trace_word(input, TraceItem::h_in, r) == e_history(input, r - 3) as Word
            &&& trace_word(input, TraceItem::w, r) == schedule(input, r as nat)
        }),
{
    lemma_state_history(input, r as nat);
    assert(state(input, r as nat)[1] == a_history(input, r - 1));
    assert(state(input, r as nat)[2] == a_history(input, r - 2));
    assert(state(input, r as nat)[3] == a_history(input, r - 3));
    assert(state(input, r as nat)[5] == e_history(input, r - 1));
    assert(state(input, r as nat)[6] == e_history(input, r - 2));
    assert(state(input, r as nat)[7] == e_history(input, r - 3));
}

/// The cells of the second row of the group of round `r`: rotations and limb-wise
/// majority and choice.
proof fn lemma_lookup_row(input: Seq<Word>, output: Seq<Word>, row: int, r: int)
    requires
        0 <= r < 64,
        row == 4 * (3 + r) + 1,
    ensures
        ({
            let t = table_of(input, output);
            let maj = limb_array(trace_word(input, TraceItem::maj, r));
            let ch = limb_array(trace_word(input, TraceItem::ch, r));
            &&& cell(t, ROT0 as int, row) == AdviceEntry::Word(trace_word(input, TraceItem::rot0, r))
            &&& cell(t, ROT1 as int, row) == AdviceEntry::Word(trace_word(input, TraceItem::rot1, r))
            &&& cell(t, MAJ_X as int, row) == AdviceEntry::Limb(maj[0])
            &&& cell(t, MAJ_Y as int, row) == AdviceEntry::Limb(maj[1])
            &&& cell(t, MAJ_Z as int, row) == AdviceEntry::Limb(maj[2])
            &&& cell(t, CH_X as int, row) == AdviceEntry::Limb(ch[0])
            &&& cell(t, CH_Y as int, row) == AdviceEntry::Limb(ch[1])
            &&& cell(t, CH_Z as int, row) == AdviceEntry::Limb(ch[2])
        }),
{
    lemma_round_cell(input, output, 0, row, r, 1);
    lemma_round_cell(input, output, 1, row, r, 1);
    lemma_round_cell(input, output, 2, row, r, 1);
    lemma_round_cell(input, output, 3, row, r, 1);
    lemma_round_cell(input, output, 4, row, r, 1);
    lemma_round_cell(input, output, 5, row, r, 1);
    lemma_round_cell(input, output, 6, row, r, 1);
    lemma_round_cell(input, output, 7, row, r, 1);
}

/// The lookup gate holds in the first row of every round of the table of a chunk.
proof fn lemma_lookup_round(input: Seq<Word>, output: Seq<Word>, row: int, r: int)
    requires
        0 <= r < 64,
        row == 4 * (3 + r),
    ensures
        lookup_holds(table_of(input, output), row),
{
    let t = table_of(input, output);
    let a = a_history(input, r) as Word;
    let b = a_history(input, r - 1) as Word;
    let c = a_history(input, r - 2) as Word;
    let e = e_history(input, r) as Word;
    let f = e_history(input, r - 1) as Word;
    let g = e_history(input, r - 2) as Word;
    let back = ROWS_PER_ROUND as int;
    lemma_limbs_in_round(input, output, row, r);
    lemma_limbs_in_round(input, output, row - back, r - 1);
    lemma_limbs_in_round(input, output, row - 2 * back, r - 2);
    let la = limbs_at(t, 0, row).unwrap();
    let lb = limbs_at(t, 0, row - back).unwrap();
    let lc = limbs_at(t, 0, row - 2 * back).unwrap();
    let le = limbs_at(t, 3, row).unwrap();
    let lf = limbs_at(t, 3, row - back).unwrap();
    let lg = limbs_at(t, 3, row - 2 * back).unwrap();
    assert(cell(t, ROT0 as int, row + 1) == AdviceEntry::Word(big_sigma0(composed(la))) && cell(
        t,
        ROT1 as int,
        row + 1,
    ) == AdviceEntry::Word(big_sigma1(composed(le)))) by {
        lemma_lookup_row(input, output, row + 1, r);
        lemma_round_words(input, r);
        lemma_limbs_of_word(a);
        lemma_limbs_of_word(e);
    }
    assert(cell(t, MAJ_X as int, row + 1) == AdviceEntry::Limb(maj16(la[0], lb[0], lc[0])) && cell(
        t,
        MAJ_Y as int,
        row + 1,
    ) == AdviceEntry::Limb(maj16(la[1], lb[1], lc[1])) && cell(t, MAJ_Z as int, row + 1)
        == AdviceEntry::Limb(maj16(la[2], lb[2], lc[2]))) by {
        lemma_lookup_row(input, output, row + 1, r);
        lemma_round_words(input, r);
        lemma_majority_limbwise(a, b, c);
    }
    assert(cell(t, CH_X as int, row + 1) == AdviceEntry::Limb(ch16(le[0], lf[0], lg[0])) && cell(
        t,
        CH_Y as int,
        row + 1,
    ) == AdviceEntry::Limb(ch16(le[1], lf[1], lg[1])) && cell(t, CH_Z as int, row + 1)
        == AdviceEntry::Limb(ch16(le[2], lf[2], lg[2]))) by {
        lemma_lookup_row(input, output, row + 1, r);
        lemma_round_words(input, r);
        lemma_choice_limbwise(e, f, g);
    }
    assert(word_at(t, W as int, row) == Some(schedule(input, r as nat)) && word_at(
        t,
        W1 as int,
        row + 2,
    ) == Some(small_sigma1(schedule(input, r as nat))) && word_at(t, W2 as int, row + 2) == Some(
        small_sigma0(schedule(input, r as nat)),
    )) by {
        lemma_round_cell(input, output, W as int, row, r, 0);
        lemma_round_cell(input, output, W1 as int, row + 2, r, 2);
        lemma_round_cell(input, output, W2 as int, row + 2, r, 2);
        lemma_round_words(input, r);
    }
}

/// The composition gate holds in the second row of every round of the table of a chunk.
proof fn lemma_composition_round(input: Seq<Word>, output: Seq<Word>, row: int, r: int)
    requires
        0 <= r < 64,
        row == 4 * (3 + r) + 1,
    ensures
        composition_holds(table_of(input, output), row),
{
    let t = table_of(input, output);
    let maj = trace_word(input, TraceItem::maj, r);
    let ch = trace_word(input, TraceItem::ch, r);
    let d = a_history(input, r - 3) as Word;
    let h = e_history(input, r - 3) as Word;
    lemma_lookup_row(input, output, row, r);
    lemma_limb_array(maj);
    lemma_limb_array(ch);
    lemma_limbs_in_round(input, output, row - 3 * ROWS_PER_ROUND - 1, r - 3);
    assert(composed(limbs_at(t, MAJ_X as int, row).unwrap()) == maj) by {
        lemma_limbs_of_word(maj);
    }
    assert(composed(limbs_at(t, CH_X as int, row).unwrap()) == ch) by {
        lemma_limbs_of_word(ch);
    }
    assert(composed(limbs_at(t, 0, row - 3 * ROWS_PER_ROUND - 1).unwrap()) == d) by {
        lemma_limbs_of_word(d);
    }
    assert(composed(limbs_at(t, 3, row - 3 * ROWS_PER_ROUND - 1).unwrap()) == h) by {
        lemma_limbs_of_word(h);
    }
    lemma_round_words(input, r);
    lemma_round_cell(input, output, MAJ as int, row + 1, r, 2);
    lemma_round_cell(input, output, CH as int, row + 1, r, 2);
    lemma_round_cell(input, output, D as int, row + 1, r, 2);
    lemma_round_cell(input, output, H as int, row + 1, r, 2);
}

/// The round constant of round `r` is in the third row of its group.
proof fn lemma_round_constant(row: int, r: int)
    requires
        0 <= r < 64,
        row == 4 * (3 + r) + 2,
    ensures
        fixed_constant(row) == round_constants()[r],
{
    assert((row - 12) / 4 == r && row % 4 == 2) by (nonlinear_arith)
        requires
            row == 4 * (3 + r) + 2,
    ;
}

/// The addition gate holds in the third row of every round of the table of a chunk.
proof fn lemma_addition_round(input: Seq<Word>, output: Seq<Word>, row: int, r: int)
    requires
        input.len() == 16,
        0 <= r < 64,
        row == 4 * (3 + r) + 2,
    ensures
        addition_holds(table_of(input, output), row),
{
    let t = table_of(input, output);
    lemma_round_cell(input, output, MAJ as int, row, r, 2);
    lemma_round_cell(input, output, CH as int, row, r, 2);
    lemma_round_cell(input, output, D as int, row, r, 2);
    lemma_round_cell(input, output, H as int, row, r, 2);
    lemma_round_cell(input, output, ROT0 as int, row - 1, r, 1);
    lemma_round_cell(input, output, ROT1 as int, row - 1, r, 1);
    lemma_round_cell(input, output, W as int, row - 2, r, 0);
    lemma_round_cell(input, output, A as int, row + 1, r, 3);
    lemma_round_cell(input, output, E as int, row + 1, r, 3);
    lemma_round_constant(row, r);
    lemma_state_history(input, r as nat);
    assert(state(input, (r + 1) as nat) == round_step(
        state(input, r as nat),
        round_constants()[r],
        schedule(input, r as nat),
    ));
}

/// The decomposition gate holds in the fourth row of every round of the table of a chunk.
proof fn lemma_decomposition_round(input: Seq<Word>, output: Seq<Word>, row: int, r: int)
    requires
        0 <= r < 64,
        row == 4 * (3 + r) + 3,
    ensures
        decomposition_holds(table_of(input, output), row),
{
    let t = table_of(input, output);
    lemma_round_cell(input, output, A as int, row, r, 3);
    lemma_round_cell(input, output, E as int, row, r, 3);
    lemma_limbs_in_round(input, output, row + 1, r + 1);
    lemma_limb_array(a_history(input, r + 1) as Word);
    lemma_limb_array(e_history(input, r + 1) as Word);
}

/// The witness computation gate holds in the first row of rounds 16 to 63 of the table of
/// a chunk.
proof fn lemma_witness_computation_round(input: Seq<Word>, output: Seq<Word>, row: int, r: int)
    requires
        16 <= r < 64,
        row == 4 * (3 + r),
    ensures
        witness_computation_holds(table_of(input, output), row),
{
    let t = table_of(input, output);
    let back = ROWS_PER_ROUND as int;
    lemma_round_cell(input, output, W as int, row, r, 0);
    lemma_round_cell(input, output, W_SUM as int, row, r, 0);
    lemma_round_cell(input, output, W1 as int, row - 2 * back + 2, r - 2, 2);
    lemma_round_cell(input, output, W as int, row - 7 * back, r - 7, 0);
    lemma_round_cell(input, output, W2 as int, row - 15 * back + 2, r - 15, 2);
    lemma_round_cell(input, output, W as int, row - 16 * back, r - 16, 0);
    let w_sum = word_sum_at(t, W_SUM as int, row).unwrap();
    lemma_low_word(w_sum);
}

/// In the first two rows of the groups of rounds 61 to 64, the fixed column holds the
/// initial hash words that are added to `a` and `e` there, and the public column the
/// matching words of the output.
proof fn lemma_output_rows(output: Seq<Word>, row: int, r: int)
    requires
        61 <= r <= 64,
        row == 4 * (3 + r),
    ensures
        fixed_constant(row) == initial_hash_words()[64 - r],
        fixed_constant(row + 1) == initial_hash_words()[68 - r],
        public_column(output, row) == output[64 - r],
        public_column(output, row + 1) == output[68 - r],
        enabled(Selector::ResultVerification, row),
{
    assert((268 - row) / 4 == 64 - r && row % 4 == 0 && (269 - (row + 1)) / 4 == 64 - r && (row
        + 1) % 4 == 1) by (nonlinear_arith)
        requires
            row == 4 * (3 + r),
    ;
}

/// In the first row of the groups of rounds 61 to 64, the result verification gate holds
/// exactly when the public column carries the matching words of the compression of the
/// chunk: `d` and `h` for round 61, `c` and `g`, `b` and `f`, `a` and `e` for round 64.
proof fn lemma_result_round(input: Seq<Word>, output: Seq<Word>, row: int, r: int)
    requires
        input.len() == 16,
        output.len() == 8,
        61 <= r <= 64,
        row == 4 * (3 + r),
    ensures
        result_verification_holds(table_of(input, output), row) <==> (output[64 - r]
            == compression(input)[64 - r] && output[68 - r] == compression(input)[68 - r]),
{
    let t = table_of(input, output);
    let a = a_history(input, r) as Word;
    let e = e_history(input, r) as Word;
    lemma_constants();
    lemma_output_rows(output, row, r);
    lemma_limbs_in_round(input, output, row, r);
    lemma_limbs_of_word(a);
    lemma_limbs_of_word(e);
    lemma_round_cell(input, output, LOW_SUM as int, row + 3, r, 3);
    lemma_round_cell(input, output, HIGH_SUM as int, row + 3, r, 3);
    lemma_state_history(input, 64);
    assert(state(input, 64)[64 - r] == a_history(input, r));
    assert(state(input, 64)[4 + (64 - r)] == e_history(input, r));
    let low = word_sum_at(t, LOW_SUM as int, row + 3).unwrap();
    let high = word_sum_at(t, HIGH_SUM as int, row + 3).unwrap();
    lemma_low_word(low);
    lemma_low_word(high);
    assert(t.public_input[row] == output[64 - r]);
    assert(t.public_input[row + 1] == output[68 - r]);
}

/// Every gate but result verification holds in every row of the table of a chunk.
proof fn lemma_round_gates(input: Seq<Word>, output: Seq<Word>, selector: Selector, row: int)
    requires
        input.len() == 16,
        0 <= row < NUM_ROWS,
        selector != Selector::ResultVerification,
    ensures
        gate_holds(selector, table_of(input, output), row),
{
    let r = row / 4 - 3;
    let k = row % 4;
    assert(row == 4 * (3 + r) + k && 0 <= k < 4) by (nonlinear_arith)
        requires
            r == row / 4 - 3,
            k == row % 4,
            0 <= row,
    ;
    if enabled(selector, row) {
        match selector {
            Selector::Lookup => lemma_lookup_round(input, output, row, r),
            Selector::Composition => lemma_composition_round(input, output, row, r),
            Selector::Addition => lemma_addition_round(input, output, row, r),
            Selector::Decomposition => lemma_decomposition_round(input, output, row, r),
            Selector::WitnessComputation => lemma_witness_computation_round(input, output, row, r),
            Selector::ResultVerification => {},
        }
    }
}

/// The table built from a chunk and a hash satisfies every gate in every row exactly when
/// the hash is the SHA-256 compression of the chunk from the initial hash value.
pub proof fn lemma_table_valid_iff_compression(input: Seq<Word>, output: Seq<Word>)
    requires
        input.len() == 16,
        output.len() == 8,
    ensures
        (forall|row: int, selector: Selector|
            0 <= row < NUM_ROWS ==> #[trigger] gate_holds(selector, table_of(input, output), row))
            <==> output == compression(input),
{
    let t = table_of(input, output);
    if output == compression(input) {
        assert forall|row: int, selector: Selector| 0 <= row < NUM_ROWS implies #[trigger] gate_holds(
            selector,
            t,
            row,
        ) by {
            if selector == Selector::ResultVerification {
                if enabled(selector, row) {
                    let r = row / 4 - 3;
                    assert(row == 4 * (3 + r)) by (nonlinear_arith)
                        requires
                            r == row / 4 - 3,
                            row % 4 == 0,
                    ;
                    lemma_result_round(input, output, row, r);
                }
            } else {
                lemma_round_gates(input, output, selector, row);
            }
        }
    }
    if forall|row: int, selector: Selector|
        0 <= row < NUM_ROWS ==> #[trigger] gate_holds(selector, t, row) {
        assert(gate_holds(Selector::ResultVerification, t, 256));
        assert(gate_holds(Selector::ResultVerification, t, 260));
        assert(gate_holds(Selector::ResultVerification, t, 264));
        assert(gate_holds(Selector::ResultVerification, t, 268));
        lemma_result_round(input, output, 256, 61);
        lemma_result_round(input, output, 260, 62);
        lemma_result_round(input, output, 264, 63);
        lemma_result_round(input, output, 268, 64);
        assert(output =~= compression(input));
    }
}

/// The low 32 bits of a 64-bit value are its remainder modulo 2^32.
pub proof fn lemma_low_word(v: WordSum)
    ensures
        v as Word == (v % 0x1_0000_0000) as Word,
        (v % 0x1_0000_0000) as int == v as int % word_modulus(),
{
    assert(v as u32 == (v % 0x1_0000_0000) as u32) by (bit_vector);
}

/// The table built from the chunk of a message that fits one chunk and from that chunk's
/// compression (what `prepare_input` and `sha_hash` give for the message) satisfies every
/// gate in every row.
pub proof fn lemma_message_table_valid(message: Seq<u8>)
    requires
        message.len() <= 55,
    ensures
        forall|row: int, selector: Selector|
            0 <= row < NUM_ROWS ==> #[trigger] gate_holds(
                selector,
                table_of(message_words(message), compression(message_words(message))),
                row,
            ),
{
    lemma_table_valid_iff_compression(message_words(message), compression(message_words(message)));
}

/// The table `t` with the advice cell in column `col` of row `row` replaced by `v`.
pub open spec fn with_cell(t: TableView, col: int, row: int, v: AdviceEntry) -> TableView {
    TableView { advice: t.advice.update(cell_index(col, row), v), public_input: t.public_input }
}

/// The table `t` with the public input of row `row` replaced by `x`.
pub open spec fn with_public(t: TableView, row: int, x: Word) -> TableView {
    TableView { advice: t.advice, public_input: t.public_input.update(row, x) }
}

/// Replacing one cell changes that cell and no other.
proof fn lemma_with_cell(t: TableView, col: int, row: int, v: AdviceEntry)
    requires
        t.advice.len() == NUM_ROWS * ADVICE_COLUMNS,
        0 <= col < ADVICE_COLUMNS,
        0 <= row < NUM_ROWS,
    ensures
        forall|c: int, r: int|
            0 <= c < ADVICE_COLUMNS && 0 <= r < NUM_ROWS ==> #[trigger] cell(
                with_cell(t, col, row, v),
                c,
                r,
            ) == if c == col && r == row {
                v
            } else {
                cell(t, c, r)
            },
{
    assert forall|c: int, r: int| 0 <= c < ADVICE_COLUMNS && 0 <= r < NUM_ROWS implies #[trigger] cell(
        with_cell(t, col, row, v),
        c,
        r,
    ) == if c == col && r == row {
        v
    } else {
        cell(t, c, r)
    } by {
        if !(c == col && r == row) {
            assert(cell_index(c, r) != cell_index(col, row)) by (nonlinear_arith)
                requires
                    0 <= c < ADVICE_COLUMNS,
                    0 <= col < ADVICE_COLUMNS,
                    !(c == col && r == row),
            ;
        }
    }
}

/// The advice area of the table of a chunk has a cell for each column of each row.
proof fn lemma_table_size(input: Seq<Word>, output: Seq<Word>)
    ensures
        table_of(input, output).advice.len() == NUM_ROWS * ADVICE_COLUMNS,
        table_of(input, output).public_input.len() == NUM_ROWS,
{
    reveal(advice_of);
}

/// The lookup gate of a row of the table of a chunk holds for no other entry in any of the
/// ten cells it constrains.
pub proof fn lemma_lookup_pins_its_cells(input: Seq<Word>, row: int, v: AdviceEntry)
    requires
        input.len() == 16,
        0 <= row < NUM_ROWS,
        enabled(Selector::Lookup, row),
    ensures
        ({
            let t = table_of(input, compression(input));
            let pinned = |col: int, r: int|
                v != cell(t, col, r) ==> !lookup_holds(with_cell(t, col, r, v), row);
            &&& pinned(ROT0 as int, row + 1)
            &&& pinned(ROT1 as int, row + 1)
            &&& pinned(MAJ_X as int, row + 1)
            &&& pinned(MAJ_Y as int, row + 1)
            &&& pinned(MAJ_Z as int, row + 1)
            &&& pinned(CH_X as int, row + 1)
            &&& pinned(CH_Y as int, row + 1)
            &&& pinned(CH_Z as int, row + 1)
            &&& pinned(W1 as int, row + 2)
            &&& pinned(W2 as int, row + 2)
        }),
{
    let t = table_of(input, compression(input));
    lemma_table_valid_iff_compression(input, compression(input));
    assert(gate_holds(Selector::Lookup, t, row));
    lemma_table_size(input, compression(input));
    lemma_with_cell(t, ROT0 as int, row + 1, v);
    lemma_with_cell(t, ROT1 as int, row + 1, v);
    lemma_with_cell(t, MAJ_X as int, row + 1, v);
    lemma_with_cell(t, MAJ_Y as int, row + 1, v);
    lemma_with_cell(t, MAJ_Z as int, row + 1, v);
    lemma_with_cell(t, CH_X as int, row + 1, v);
    lemma_with_cell(t, CH_Y as int, row + 1, v);
    lemma_with_cell(t, CH_Z as int, row + 1, v);
    lemma_with_cell(t, W1 as int, row + 2, v);
    lemma_with_cell(t, W2 as int, row + 2, v);
}

/// The composition gate of a row of the table of a chunk rejects the table as soon as one
/// of the four words it constrains is replaced by another entry.
pub proof fn lemma_composition_pins_its_cells(input: Seq<Word>, row: int, v: AdviceEntry)
    requires
        input.len() == 16,
        0 <= row < NUM_ROWS,
        enabled(Selector::Composition, row),
    ensures
        ({
            let t = table_of(input, compression(input));
            let pinned = |col: int, r: int|
                v != cell(t, col, r) ==> !composition_holds(with_cell(t, col, r, v), row);
            &&& pinned(MAJ as int, row + 1)
            &&& pinned(CH as int, row + 1)
            &&& pinned(D as int, row + 1)
            &&& pinned(H as int, row + 1)
        }),
{
    let t = table_of(input, compression(input));
    lemma_table_valid_iff_compression(input, compression(input));
    assert(gate_holds(Selector::Composition, t, row));
    lemma_table_size(input, compression(input));
    lemma_with_cell(t, MAJ as int, row + 1, v);
    lemma_with_cell(t, CH as int, row + 1, v);
    lemma_with_cell(t, D as int, row + 1, v);
    lemma_with_cell(t, H as int, row + 1, v);
}

/// The addition gate of a row of the table of a chunk rejects any other entry in place of
/// the new `a` or the new `e`.
pub proof fn lemma_addition_pins_its_cells(input: Seq<Word>, row: int, v: AdviceEntry)
    requires
        input.len() == 16,
        0 <= row < NUM_ROWS,
        enabled(Selector::Addition, row),
    ensures
        ({
            let t = table_of(input, compression(input));
            let pinned = |col: int, r: int|
                v != cell(t, col, r) ==> !addition_holds(with_cell(t, col, r, v), row);
            &&& pinned(A as int, row + 1)
            &&& pinned(E as int, row + 1)
        }),
{
    let t = table_of(input, compression(input));
    lemma_table_valid_iff_compression(input, compression(input));
    assert(gate_holds(Selector::Addition, t, row));
    lemma_table_size(input, compression(input));
    lemma_with_cell(t, A as int, row + 1, v);
    lemma_with_cell(t, E as int, row + 1, v);
}

/// The decomposition gate of a row of the table of a chunk rejects any other entry in
/// place of one of the six limbs of the new `a` and `e`.
pub proof fn lemma_decomposition_pins_its_cells(input: Seq<Word>, row: int, v: AdviceEntry)
    requires
        input.len() == 16,
        0 <= row < NUM_ROWS,
        enabled(Selector::Decomposition, row),
    ensures
        ({
            let t = table_of(input, compression(input));
            let pinned = |col: int, r: int|
                v != cell(t, col, r) ==> !decomposition_holds(with_cell(t, col, r, v), row);
            &&& pinned(AX as int, row + 1)
            &&& pinned(AY as int, row + 1)
            &&& pinned(AZ as int, row + 1)
            &&& pinned(EX as int, row + 1)
            &&& pinned(EY as int, row + 1)
            &&& pinned(EZ as int, row + 1)
        }),
{
    let t = table_of(input, compression(input));
    lemma_table_valid_iff_compression(input, compression(input));
    assert(gate_holds(Selector::Decomposition, t, row));
    lemma_table_size(input, compression(input));
    lemma_with_cell(t, AX as int, row + 1, v);
    lemma_with_cell(t, AY as int, row + 1, v);
    lemma_with_cell(t, AZ as int, row + 1, v);
    lemma_with_cell(t, EX as int, row + 1, v);
    lemma_with_cell(t, EY as int, row + 1, v);
    lemma_with_cell(t, EZ as int, row + 1, v);
}

/// The witness computation gate of a row of the table of a chunk rejects any other entry
/// in place of the message word or the sum it is reduced from.
pub proof fn lemma_witness_computation_pins_its_cells(input: Seq<Word>, row: int, v: AdviceEntry)
    requires
        input.len() == 16,
        0 <= row < NUM_ROWS,
        enabled(Selector::WitnessComputation, row),
    ensures
        ({
            let t = table_of(input, compression(input));
            let pinned = |col: int, r: int|
                v != cell(t, col, r) ==> !witness_computation_holds(with_cell(t, col, r, v), row);
            &&& pinned(W as int, row)
            &&& pinned(W_SUM as int, row)
        }),
{
    let t = table_of(input, compression(input));
    lemma_table_valid_iff_compression(input, compression(input));
    assert(gate_holds(Selector::WitnessComputation, t, row));
    lemma_table_size(input, compression(input));
    lemma_with_cell(t, W as int, row, v);
    lemma_with_cell(t, W_SUM as int, row, v);
}

/// The hash gate of a row fixes the low and high sums of the row in the table of a chunk:
/// they are the only entries there that satisfy it.
pub proof fn lemma_result_gate_pins_its_sums(input: Seq<Word>, row: int, v: AdviceEntry)
    requires
        input.len() == 16,
        0 <= row < NUM_ROWS,
        enabled(Selector::ResultVerification, row),
    ensures
        ({
            let t = table_of(input, compression(input));
            let pinned = |col: int, r: int|
                v != cell(t, col, r) ==> !result_verification_holds(with_cell(t, col, r, v), row);
            &&& pinned(LOW_SUM as int, row + 3)
            &&& pinned(HIGH_SUM as int, row + 3)
        }),
{
    let t = table_of(input, compression(input));
    lemma_table_valid_iff_compression(input, compression(input));
    assert(gate_holds(Selector::ResultVerification, t, row));
    lemma_table_size(input, compression(input));
    lemma_with_cell(t, LOW_SUM as int, row + 3, v);
    lemma_with_cell(t, HIGH_SUM as int, row + 3, v);
}

/// The hash gate of a row fixes the two words of the public column that it reads: they are
/// the only words there that satisfy it, with the table of a chunk around them.
pub proof fn lemma_result_gate_pins_public_input(input: Seq<Word>, row: int, x: Word)
    requires
        input.len() == 16,
        0 <= row < NUM_ROWS,
        enabled(Selector::ResultVerification, row),
    ensures
        ({
            let t = table_of(input, compression(input));
            &&& x != t.public_input[row] ==> !result_verification_holds(with_public(t, row, x), row)
            &&& x != t.public_input[row + 1] ==> !result_verification_holds(
                with_public(t, row + 1, x),
                row,
            )
        }),
{
    let t = table_of(input, compression(input));
    lemma_table_valid_iff_compression(input, compression(input));
    assert(gate_holds(Selector::ResultVerification, t, row));
    lemma_table_size(input, compression(input));
}

} // verus!
