use vstd::prelude::*;

use crate::lookup_tables::{LookupTable, TCh, TDec, TMaj, TMod, TRot0, TRot1, TW1, TW2};
use crate::sha_ops::{big_sigma0, big_sigma1, ch16, maj16, small_sigma0, small_sigma1};
use crate::table::advice::AdviceEntry;
use crate::table::fixed::{enabled, fixed_constant, Selector};
use crate::table::indices::{
    A, AX, BX, CH, CH_X, CH_Y, CH_Z, CX, D, DX, E, EX, FX, GX, H, HIGH_SUM, HX, LOW_SUM, MAJ, MAJ_X,
    MAJ_Y, MAJ_Z, ROT0, ROT1, W, W1, W2, W_SUM,
};
use crate::table::{cell, limbs_at, word_at, word_sum_at, Table, TableView, ROWS_PER_ROUND};
use crate::types::{compose, compose_bits, limb_array, Limb, Word, WordSum};

verus! {

/// A gate that does not hold in a row.
#[derive(Copy, Clone, Debug, PartialEq, Eq, Structural)]
pub struct GateFailure {
    pub selector: Selector,
    pub row: usize,
}

/// A constraint of the table, checked row by row.
pub trait Gate {
    fn check(table: &Table, row: usize) -> Result<(), GateFailure>;
}

/// The position of a gate in the order in which each row is checked.
pub open spec fn gate_order(selector: Selector) -> int {
    match selector {
        Selector::Lookup => 0,
        Selector::Composition => 1,
        Selector::Addition => 2,
        Selector::Decomposition => 3,
        Selector::WitnessComputation => 4,
        Selector::ResultVerification => 5,
    }
}

/// Whether `row` satisfies the constraint of `selector`.
pub open spec fn gate_holds(selector: Selector, t: TableView, row: int) -> bool {
    match selector {
        Selector::Lookup => lookup_holds(t, row),
        Selector::Composition => composition_holds(t, row),
        Selector::Addition => addition_holds(t, row),
        Selector::Decomposition => decomposition_holds(t, row),
        Selector::WitnessComputation => witness_computation_holds(t, row),
        Selector::ResultVerification => result_verification_holds(t, row),
    }
}

/// The word that three limbs make up.
pub open spec fn composed(l: Seq<Limb>) -> Word {
    compose_bits(l[0], l[1], l[2])
}

/// The lookup gate, in the first row of a round: the second row holds `Σ0(a)`, `Σ1(e)`
/// and the limb-wise majority of `a, b, c` and choice of `e, f, g`, where `a` and `e` are
/// the limbs of this row and `b, f` and `c, g` those one and two rounds up; the third row
/// holds `σ1(w)` and `σ0(w)` for the word `w` of this row.
pub open spec fn lookup_holds(t: TableView, row: int) -> bool {
    enabled(Selector::Lookup, row) ==> {
        let a = limbs_at(t, AX as int, row);
        let b = limbs_at(t, BX as int, row - ROWS_PER_ROUND);
        let c = limbs_at(t, CX as int, row - 2 * ROWS_PER_ROUND);
        let e = limbs_at(t, EX as int, row);
        let f = limbs_at(t, FX as int, row - ROWS_PER_ROUND);
        let g = limbs_at(t, GX as int, row - 2 * ROWS_PER_ROUND);
        let w = word_at(t, W as int, row);
        let w1 = word_at(t, W1 as int, row + 2);
        let w2 = word_at(t, W2 as int, row + 2);
        &&& a is Some && b is Some && c is Some && e is Some && f is Some && g is Some
        &&& w is Some && w1 is Some && w2 is Some
        &&& cell(t, ROT0 as int, row + 1) == AdviceEntry::Word(big_sigma0(composed(a.unwrap())))
        &&& cell(t, ROT1 as int, row + 1) == AdviceEntry::Word(big_sigma1(composed(e.unwrap())))
        &&& cell(t, MAJ_X as int, row + 1) == AdviceEntry::Limb(
            maj16(a.unwrap()[0], b.unwrap()[0], c.unwrap()[0]),
        )
        &&& cell(t, MAJ_Y as int, row + 1) == AdviceEntry::Limb(
            maj16(a.unwrap()[1], b.unwrap()[1], c.unwrap()[1]),
        )
        &&& cell(t, MAJ_Z as int, row + 1) == AdviceEntry::Limb(
            maj16(a.unwrap()[2], b.unwrap()[2], c.unwrap()[2]),
        )
        &&& cell(t, CH_X as int, row + 1) == AdviceEntry::Limb(
            ch16(e.unwrap()[0], f.unwrap()[0], g.unwrap()[0]),
        )
        &&& cell(t, CH_Y as int, row + 1) == AdviceEntry::Limb(
            ch16(e.unwrap()[1], f.unwrap()[1], g.unwrap()[1]),
        )
        &&& cell(t, CH_Z as int, row + 1) == AdviceEntry::Limb(
            ch16(e.unwrap()[2], f.unwrap()[2], g.unwrap()[2]),
        )
        &&& w1.unwrap() == small_sigma1(w.unwrap())
        &&& w2.unwrap() == small_sigma0(w.unwrap())
    }
}

/// The composition gate, in the second row of a round: the third row holds the words
/// made of the majority and choice limbs of this row and of the limbs of `d` and `h`
/// (those of `a` and `e` three rounds up).
pub open spec fn composition_holds(t: TableView, row: int) -> bool {
    enabled(Selector::Composition, row) ==> {
        let maj = limbs_at(t, MAJ_X as int, row);
        let ch = limbs_at(t, CH_X as int, row);
        let d = limbs_at(t, DX as int, row - 3 * ROWS_PER_ROUND - 1);
        let h = limbs_at(t, HX as int, row - 3 * ROWS_PER_ROUND - 1);
        &&& maj is Some && ch is Some && d is Some && h is Some
        &&& cell(t, MAJ as int, row + 1) == AdviceEntry::Word(composed(maj.unwrap()))
        &&& cell(t, CH as int, row + 1) == AdviceEntry::Word(composed(ch.unwrap()))
        &&& cell(t, D as int, row + 1) == AdviceEntry::Word(composed(d.unwrap()))
        &&& cell(t, H as int, row + 1) == AdviceEntry::Word(composed(h.unwrap()))
    }
}

/// The first sum of the addition gate: `h + Σ1(e) + ch + k + w`.
pub open spec fn addition_temp1(t: TableView, row: int) -> int {
    word_at(t, H as int, row).unwrap() + word_at(t, ROT1 as int, row - 1).unwrap() + word_at(
        t,
        CH as int,
        row,
    ).unwrap() + fixed_constant(row) + word_at(t, W as int, row - 2).unwrap()
}

/// The second sum of the addition gate: `Σ0(a) + maj`.
pub open spec fn addition_temp2(t: TableView, row: int) -> int {
    word_at(t, ROT0 as int, row - 1).unwrap() + word_at(t, MAJ as int, row).unwrap()
}

/// The addition gate, in the third row of a round: the fourth row holds the new `a`,
/// `temp1 + temp2`, and the new `e`, `d + temp1`, as unreduced sums.
pub open spec fn addition_holds(t: TableView, row: int) -> bool {
    enabled(Selector::Addition, row) ==> {
        &&& word_at(t, MAJ as int, row) is Some
        &&& word_at(t, CH as int, row) is Some
        &&& word_at(t, D as int, row) is Some
        &&& word_at(t, H as int, row) is Some
        &&& word_at(t, ROT0 as int, row - 1) is Some
        &&& word_at(t, ROT1 as int, row - 1) is Some
        &&& word_at(t, W as int, row - 2) is Some
        &&& cell(t, A as int, row + 1) == AdviceEntry::WSum(
            (addition_temp1(t, row) + addition_temp2(t, row)) as WordSum,
        )
        &&& cell(t, E as int, row + 1) == AdviceEntry::WSum(
            (addition_temp1(t, row) + word_at(t, D as int, row).unwrap()) as WordSum,
        )
    }
}

/// The decomposition gate, in the fourth row of a round: the next row holds the limbs of
/// the low 32 bits of the new `a` and `e` of this row.
pub open spec fn decomposition_holds(t: TableView, row: int) -> bool {
    enabled(Selector::Decomposition, row) ==> {
        let a = word_sum_at(t, A as int, row);
        let e = word_sum_at(t, E as int, row);
        let a_limbs = limbs_at(t, AX as int, row + 1);
        let e_limbs = limbs_at(t, EX as int, row + 1);
        &&& a is Some && e is Some && a_limbs is Some && e_limbs is Some
        &&& a_limbs.unwrap() == limb_array(a.unwrap() as Word)@
        &&& e_limbs.unwrap() == limb_array(e.unwrap() as Word)@
    }
}

/// The witness computation gate, in the first row of rounds 16 to 63: the sum in this
/// row is `σ1` of the word two rounds up plus the words seven and sixteen rounds up plus
/// `σ0` of the word fifteen rounds up (as held in the rows of those rounds), and the word
/// of this row is its low 32 bits.
pub open spec fn witness_computation_holds(t: TableView, row: int) -> bool {
    enabled(Selector::WitnessComputation, row) ==> {
        let w = word_at(t, W as int, row);
        let w_sum = word_sum_at(t, W_SUM as int, row);
        let w1 = word_at(t, W1 as int, row - 2 * ROWS_PER_ROUND + 2);
        let w2 = word_at(t, W as int, row - 7 * ROWS_PER_ROUND);
        let w3 = word_at(t, W2 as int, row - 15 * ROWS_PER_ROUND + 2);
        let w4 = word_at(t, W as int, row - 16 * ROWS_PER_ROUND);
        &&& w is Some && w_sum is Some && w1 is Some && w2 is Some && w3 is Some && w4 is Some
        &&& w_sum.unwrap() == w1.unwrap() + w2.unwrap() + w3.unwrap() + w4.unwrap()
        &&& w.unwrap() == w_sum.unwrap() as Word
    }
}

/// The result verification gate, in the first row of the last three rounds and of the row
/// after them: the limbs of `a` and `e` of this row, put together and added to the
/// constants of this row and the next, give the sums held three rows down, whose low 32
/// bits are the public input of this row and the next.
pub open spec fn result_verification_holds(t: TableView, row: int) -> bool {
    enabled(Selector::ResultVerification, row) ==> {
        let a = limbs_at(t, AX as int, row);
        let e = limbs_at(t, EX as int, row);
        let low = word_sum_at(t, LOW_SUM as int, row + 3);
        let high = word_sum_at(t, HIGH_SUM as int, row + 3);
        &&& a is Some && e is Some && low is Some && high is Some
        &&& low.unwrap() == composed(a.unwrap()) + fixed_constant(row)
        &&& high.unwrap() == composed(e.unwrap()) + fixed_constant(row + 1)
        &&& t.public_input[row] == low.unwrap() as Word
        &&& t.public_input[row + 1] == high.unwrap() as Word
    }
}

/// Checks the lookup gate.
pub struct LookupGate;

impl Gate for LookupGate {
    fn check(table: &Table, row: usize) -> (result: Result<(), GateFailure>)
        ensures
            result is Ok <==> lookup_holds(table@, row as int),
            result matches Err(failure) ==> failure == (GateFailure {
                selector: Selector::Lookup,
                row,
            }),
    {
        if !table.is_enabled(Selector::Lookup, row) {
            return Ok(());
        }
        proof {
            use_type_invariant(table);
        }
        let fail = GateFailure { selector: Selector::Lookup, row };
        let back = ROWS_PER_ROUND;
        let a = match table.limbs(AX, row) {
            Some(l) => l,
            None => return Err(fail),
        };
        let e = match table.limbs(EX, row) {
            Some(l) => l,
            None => return Err(fail),
        };
        let b = match table.limbs(BX, row - back) {
            Some(l) => l,
            None => return Err(fail),
        };
        let f = match table.limbs(FX, row - back) {
            Some(l) => l,
            None => return Err(fail),
        };
        let c = match table.limbs(CX, row - 2 * back) {
            Some(l) => l,
            None => return Err(fail),
        };
        let g = match table.limbs(GX, row - 2 * back) {
            Some(l) => l,
            None => return Err(fail),
        };
        let w = match table.word(W, row) {
            Some(x) => x,
            None => return Err(fail),
        };
        let w1 = match table.word(W1, row + 2) {
            Some(x) => x,
            None => return Err(fail),
        };
        let w2 = match table.word(W2, row + 2) {
            Some(x) => x,
            None => return Err(fail),
        };

        if table.entry(ROT0, row + 1) != AdviceEntry::Word(TRot0::lookup(a)) {
            return Err(fail);
        }
        if table.entry(ROT1, row + 1) != AdviceEntry::Word(TRot1::lookup(e)) {
            return Err(fail);
        }
        if table.entry(MAJ_X, row + 1) != AdviceEntry::Limb(TMaj::lookup([a[0], b[0], c[0]])) {
            return Err(fail);
        }
        if table.entry(MAJ_Y, row + 1) != AdviceEntry::Limb(TMaj::lookup([a[1], b[1], c[1]])) {
            return Err(fail);
        }
        if table.entry(MAJ_Z, row + 1) != AdviceEntry::Limb(TMaj::lookup([a[2], b[2], c[2]])) {
            return Err(fail);
        }
        if table.entry(CH_X, row + 1) != AdviceEntry::Limb(TCh::lookup([e[0], f[0], g[0]])) {
            return Err(fail);
        }
        if table.entry(CH_Y, row + 1) != AdviceEntry::Limb(TCh::lookup([e[1], f[1], g[1]])) {
            return Err(fail);
        }
        if table.entry(CH_Z, row + 1) != AdviceEntry::Limb(TCh::lookup([e[2], f[2], g[2]])) {
            return Err(fail);
        }
        if w1 != TW1::lookup(w) {
            return Err(fail);
        }
        if w2 != TW2::lookup(w) {
            return Err(fail);
        }
        Ok(())
    }
}

/// Checks the composition gate.
pub struct CompositionGate;

impl Gate for CompositionGate {
    fn check(table: &Table, row: usize) -> (result: Result<(), GateFailure>)
        ensures
            result is Ok <==> composition_holds(table@, row as int),
            result matches Err(failure) ==> failure == (GateFailure {
                selector: Selector::Composition,
                row,
            }),
    {
        if !table.is_enabled(Selector::Composition, row) {
            return Ok(());
        }
        proof {
            use_type_invariant(table);
        }
        let fail = GateFailure { selector: Selector::Composition, row };
        let maj = match table.limbs(MAJ_X, row) {
            Some(l) => l,
            None => return Err(fail),
        };
        let ch = match table.limbs(CH_X, row) {
            Some(l) => l,
            None => return Err(fail),
        };
        let back = 3 * ROWS_PER_ROUND + 1;
        let d = match table.limbs(DX, row - back) {
            Some(l) => l,
            None => return Err(fail),
        };
        let h = match table.limbs(HX, row - back) {
            Some(l) => l,
            None => return Err(fail),
        };

        if table.entry(MAJ, row + 1) != AdviceEntry::Word(compose(&maj)) {
            return Err(fail);
        }
        if table.entry(CH, row + 1) != AdviceEntry::Word(compose(&ch)) {
            return Err(fail);
        }
        if table.entry(D, row + 1) != AdviceEntry::Word(compose(&d)) {
            return Err(fail);
        }
        if table.entry(H, row + 1) != AdviceEntry::Word(compose(&h)) {
            return Err(fail);
        }
        Ok(())
    }
}

/// Checks the addition gate.
pub struct AdditionGate;

impl Gate for AdditionGate {
    fn check(table: &Table, row: usize) -> (result: Result<(), GateFailure>)
        ensures
            result is Ok <==> addition_holds(table@, row as int),
            result matches Err(failure) ==> failure == (GateFailure {
                selector: Selector::Addition,
                row,
            }),
    {
        if !table.is_enabled(Selector::Addition, row) {
            return Ok(());
        }
        proof {
            use_type_invariant(table);
        }
        let fail = GateFailure { selector: Selector::Addition, row };
        let maj = match table.word(MAJ, row) {
            Some(x) => x as WordSum,
            None => return Err(fail),
        };
        let ch = match table.word(CH, row) {
            Some(x) => x as WordSum,
            None => return Err(fail),
        };
        let d = match table.word(D, row) {
            Some(x) => x as WordSum,
            None => return Err(fail),
        };
        let h = match table.word(H, row) {
            Some(x) => x as WordSum,
            None => return Err(fail),
        };
        let rot0 = match table.word(ROT0, row - 1) {
            Some(x) => x as WordSum,
            None => return Err(fail),
        };
        let rot1 = match table.word(ROT1, row - 1) {
            Some(x) => x as WordSum,
            None => return Err(fail),
        };
        let k = table.constant(row) as WordSum;
        let w = match table.word(W, row - 2) {
            Some(x) => x as WordSum,
            None => return Err(fail),
        };

        let temp1 = h + rot1 + ch + k + w;
        let temp2 = rot0 + maj;

        let exp_a = temp1 + temp2;
        let exp_e = temp1 + d;

        if table.entry(A, row + 1) != AdviceEntry::WSum(exp_a) {
            return Err(fail);
        }
        if table.entry(E, row + 1) != AdviceEntry::WSum(exp_e) {
            return Err(fail);
        }
        Ok(())
    }
}

/// Checks the decomposition gate.
pub struct DecompositionGate;

impl Gate for DecompositionGate {
    fn check(table: &Table, row: usize) -> (result: Result<(), GateFailure>)
        ensures
            result is Ok <==> decomposition_holds(table@, row as int),
            result matches Err(failure) ==> failure == (GateFailure {
                selector: Selector::Decomposition,
                row,
            }),
    {
        if !table.is_enabled(Selector::Decomposition, row) {
            return Ok(());
        }
        proof {
            use_type_invariant(table);
        }
        let fail = GateFailure { selector: Selector::Decomposition, row };
        let a = match table.word_sum(A, row) {
            Some(x) => x,
            None => return Err(fail),
        };
        let e = match table.word_sum(E, row) {
            Some(x) => x,
            None => return Err(fail),
        };
        let a_limbs = match table.limbs(AX, row + 1) {
            Some(l) => l,
            None => return Err(fail),
        };
        let e_limbs = match table.limbs(EX, row + 1) {
            Some(l) => l,
            None => return Err(fail),
        };

        let expected_a = TDec::lookup(a);
        let expected_e = TDec::lookup(e);
        if a_limbs[0] != expected_a[0] || a_limbs[1] != expected_a[1] || a_limbs[2] != expected_a[2] {
            return Err(fail);
        }
        if e_limbs[0] != expected_e[0] || e_limbs[1] != expected_e[1] || e_limbs[2] != expected_e[2] {
            return Err(fail);
        }
        proof {
            assert(a_limbs@ =~= expected_a@);
            assert(e_limbs@ =~= expected_e@);
        }
        Ok(())
    }
}

/// Checks the witness computation gate.
pub struct WitnessComputationGate;

impl Gate for WitnessComputationGate {
    fn check(table: &Table, row: usize) -> (result: Result<(), GateFailure>)
        ensures
            result is Ok <==> witness_computation_holds(table@, row as int),
            result matches Err(failure) ==> failure == (GateFailure {
                selector: Selector::WitnessComputation,
                row,
            }),
    {
        if !table.is_enabled(Selector::WitnessComputation, row) {
            return Ok(());
        }
        proof {
            use_type_invariant(table);
        }
        let fail = GateFailure { selector: Selector::WitnessComputation, row };
        let w_result = match table.word(W, row) {
            Some(x) => x,
            None => return Err(fail),
        };
        let w_sum = match table.word_sum(W_SUM, row) {
            Some(x) => x,
            None => return Err(fail),
        };
        let w1 = match table.word(W1, row - 2 * ROWS_PER_ROUND + 2) {
            Some(x) => x as WordSum,
            None => return Err(fail),
        };
        let w2 = match table.word(W, row - 7 * ROWS_PER_ROUND) {
            Some(x) => x as WordSum,
            None => return Err(fail),
        };
        let w3 = match table.word(W2, row - 15 * ROWS_PER_ROUND + 2) {
            Some(x) => x as WordSum,
            None => return Err(fail),
        };
        let w4 = match table.word(W, row - 16 * ROWS_PER_ROUND) {
            Some(x) => x as WordSum,
            None => return Err(fail),
        };

        if w_sum != w1 + w2 + w3 + w4 {
            return Err(fail);
        }
        if w_result != TMod::lookup(w_sum) {
            return Err(fail);
        }
        Ok(())
    }
}

/// Checks the result verification gate.
pub struct ResultVerificationGate;

impl Gate for ResultVerificationGate {
    fn check(table: &Table, row: usize) -> (result: Result<(), GateFailure>)
        ensures
            result is Ok <==> result_verification_holds(table@, row as int),
            result matches Err(failure) ==> failure == (GateFailure {
                selector: Selector::ResultVerification,
                row,
            }),
    {
        if !table.is_enabled(Selector::ResultVerification, row) {
            return Ok(());
        }
        proof {
            use_type_invariant(table);
        }
        let fail = GateFailure { selector: Selector::ResultVerification, row };
        let out_low = table.public_input_at(row);
        let out_high = table.public_input_at(row + 1);

        let a = match table.limbs(AX, row) {
            Some(l) => l,
            None => return Err(fail),
        };
        let e = match table.limbs(EX, row) {
            Some(l) => l,
            None => return Err(fail),
        };
        let sum_low = compose(&a) as WordSum + table.constant(row) as WordSum;
        let sum_high = compose(&e) as WordSum + table.constant(row + 1) as WordSum;

        let low = match table.word_sum(LOW_SUM, row + 3) {
            Some(x) => x,
            None => return Err(fail),
        };
        let high = match table.word_sum(HIGH_SUM, row + 3) {
            Some(x) => x,
            None => return Err(fail),
        };

        if sum_low != low || sum_high != high {
            return Err(fail);
        }
        if out_low != TMod::lookup(sum_low) || out_high != TMod::lookup(sum_high) {
            return Err(fail);
        }
        Ok(())
    }
}

} // verus!
