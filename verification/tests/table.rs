use sha_on_cq::sha::{prepare_input, sha_hash};
use sha_on_cq::table::advice::{Advice, AdviceEntry};
use sha_on_cq::table::advice_generation::compute_advice;
use sha_on_cq::table::fixed::{FixedPart, Selector};
use sha_on_cq::table::gates::GateFailure;
use sha_on_cq::table::indices::{A, AX, LOW_SUM, W, W_SUM};
use sha_on_cq::table::{Table, ADVICE_COLUMNS, NUM_ROWS};
use sha_on_cq::trace::Trace;
use sha_on_cq::types::{decompose, Word};

#[test]
fn table_for_empty_input_validates() {
    let table = Table::new(prepare_input(""), sha_hash(""));
    assert_eq!(table.validate(), Ok(()));
}

#[test]
fn table_for_hello_world_validates() {
    let table = Table::new(prepare_input("hello world"), sha_hash("hello world"));
    assert_eq!(table.validate(), Ok(()));
}

#[test]
fn table_with_wrong_hash_fails_result_verification() {
    let mut hash = sha_hash("");
    hash[3] ^= 1;
    let table = Table::new(prepare_input(""), hash);
    assert_eq!(
        table.validate(),
        Err(GateFailure { selector: Selector::ResultVerification, row: 256 })
    );

    let mut hash = sha_hash("abc");
    hash[4] = hash[4].wrapping_add(1);
    let table = Table::new(prepare_input("abc"), hash);
    assert_eq!(
        table.validate(),
        Err(GateFailure { selector: Selector::ResultVerification, row: 268 })
    );
}

#[test]
fn table_with_hash_of_other_message_fails() {
    let table = Table::new(prepare_input("abc"), sha_hash("abd"));
    assert!(matches!(
        table.validate(),
        Err(GateFailure { selector: Selector::ResultVerification, .. })
    ));
}

#[test]
fn table_layout_of_first_round() {
    let table = Table::new(prepare_input("abc"), sha_hash("abc"));
    // Row 12 holds the limbs of the initial `a` and the first message word.
    let a_limbs = decompose(&0x6a09e667);
    assert_eq!(table.entry(AX, 12), AdviceEntry::Limb(a_limbs[0]));
    assert_eq!(table.entry(W, 12), AdviceEntry::Word(0x61626380));
    assert_eq!(table.entry(W_SUM, 12), AdviceEntry::Mpty);
    // Row 0 holds the limbs of the initial `d`.
    assert_eq!(table.entry(AX, 0), AdviceEntry::Limb(decompose(&0xa54ff53a)[0]));
    // The round constant of round 0 sits in row 14.
    assert_eq!(table.constant(14), 0x428a2f98);
    assert_eq!(table.constant(13), 0);
    // The hash is spread over the public column.
    let hash = sha_hash("abc");
    assert_eq!(table.public_input_at(256), hash[3]);
    assert_eq!(table.public_input_at(257), hash[7]);
    assert_eq!(table.public_input_at(268), hash[0]);
    assert_eq!(table.public_input_at(269), hash[4]);
    assert_eq!(table.public_input_at(0), 0);
    // The output sums of the last rows are filled.
    assert!(matches!(table.entry(LOW_SUM, 271), AdviceEntry::WSum(_)));
    assert!(matches!(table.entry(A, 271), AdviceEntry::Mpty));
}

#[test]
fn selectors_switch_gates_on_in_their_rows() {
    let fixed = FixedPart::new();
    assert!(fixed.is_enabled(Selector::Lookup, 12));
    assert!(!fixed.is_enabled(Selector::Lookup, 13));
    assert!(fixed.is_enabled(Selector::Composition, 13));
    assert!(fixed.is_enabled(Selector::Addition, 14));
    assert!(fixed.is_enabled(Selector::Decomposition, 267));
    assert!(!fixed.is_enabled(Selector::Decomposition, 271));
    assert!(!fixed.is_enabled(Selector::WitnessComputation, 72));
    assert!(fixed.is_enabled(Selector::WitnessComputation, 76));
    assert!(fixed.is_enabled(Selector::ResultVerification, 256));
    assert!(fixed.is_enabled(Selector::ResultVerification, 268));
    assert!(!fixed.is_enabled(Selector::ResultVerification, 252));
    assert_eq!(fixed.selectors.lookups.len(), 64);
    assert_eq!(fixed.selectors.witness_computation.len(), 48);
    assert_eq!(fixed.selectors.result_verification.len(), 4);
    assert_eq!(fixed.constants.len(), NUM_ROWS);
    assert_eq!(fixed.constants[256], 0xa54ff53a);
    assert_eq!(fixed.constants[269], 0x510e527f);
}

#[test]
fn advice_from_trace_has_every_cell() {
    let advice = Advice::from_trace(&Trace::new(prepare_input("")));
    let mut filled = 0;
    for row in 0..NUM_ROWS {
        for col in 0..ADVICE_COLUMNS {
            if advice.get(col, row) != AdviceEntry::Mpty {
                filled += 1;
            }
        }
    }
    // 3 rows of initial limbs (6 each), 64 rounds of 6 + 8 + 6 + 2 + 1 cells, 48 sums,
    // the last limbs (6) and 8 output sums.
    assert_eq!(filled, 3 * 6 + 64 * 23 + 48 + 6 + 8);
}

#[test]
fn advice_entry_accessors() {
    let limb = AdviceEntry::from(7u16);
    let word = AdviceEntry::from(8u32);
    let sum = AdviceEntry::from(9u64);
    assert_eq!(limb.limb(), 7);
    assert_eq!(word.word(), 8);
    assert_eq!(sum.word_sum(), 9);
    assert_eq!(limb.try_word(), None);
    assert_eq!(sum.try_word_sum(), Some(9));
    assert_eq!(AdviceEntry::default(), AdviceEntry::Mpty);
}

#[test]
fn compute_advice_gives_empty_columns() {
    let schedule: [Word; 64] = [1; 64];
    let advice = compute_advice(schedule);
    assert_eq!(advice.len(), 24);
    assert!(advice.iter().all(|column| column.is_empty()));
}

#[test]
fn last_advice_column_stays_empty() {
    let table = Table::new(prepare_input("abc"), sha_hash("abc"));
    for row in 0..NUM_ROWS {
        assert_eq!(table.entry(ADVICE_COLUMNS - 1, row), AdviceEntry::Mpty);
    }
}
