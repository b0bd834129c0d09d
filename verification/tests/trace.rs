use sha_on_cq::constants::{INITIAL_HASH_WORDS, ROUND_CONSTANTS};
use sha_on_cq::sha::{prepare_input, sha_hash};
use sha_on_cq::trace::{Trace, TraceItem};
use sha_on_cq::types::Word;

#[test]
fn trace_records_inputs_constants_and_schedule() {
    let input = prepare_input("abc");
    let trace = Trace::new(input);
    for i in 0..16 {
        assert_eq!(trace.get(TraceItem::w, i).word, input[i]);
    }
    for r in 0..64 {
        assert_eq!(trace.get(TraceItem::k, r).word, ROUND_CONSTANTS[r]);
    }
    assert_eq!(trace.get(TraceItem::a_in, 0).word, INITIAL_HASH_WORDS[0]);
    assert_eq!(trace.get(TraceItem::h_in, 0).word, INITIAL_HASH_WORDS[7]);
    // The message schedule word 16 of "abc" (from the FIPS 180-2 example).
    assert_eq!(trace.get(TraceItem::w, 16).word, 0x61626380);
}

#[test]
fn trace_shifts_working_variables() {
    let trace = Trace::new(prepare_input("hello world"));
    for r in 1..64 {
        assert_eq!(trace.get(TraceItem::b_in, r).word, trace.get(TraceItem::a_in, r - 1).word);
        assert_eq!(trace.get(TraceItem::b, r - 1).word, trace.get(TraceItem::a_in, r - 1).word);
        assert_eq!(trace.get(TraceItem::a_in, r).full, trace.get(TraceItem::a, r - 1).full);
        assert_eq!(trace.get(TraceItem::f_in, r).word, trace.get(TraceItem::e_in, r - 1).word);
    }
}

#[test]
fn trace_final_state_gives_the_hash() {
    for message in ["", "abc", "hello world"] {
        let trace = Trace::new(prepare_input(message));
        let items = [
            TraceItem::a,
            TraceItem::b,
            TraceItem::c,
            TraceItem::d,
            TraceItem::e,
            TraceItem::f,
            TraceItem::g,
            TraceItem::h,
        ];
        let mut hash = [0 as Word; 8];
        for (j, item) in items.iter().enumerate() {
            hash[j] = INITIAL_HASH_WORDS[j].wrapping_add(trace.get(*item, 63).word);
        }
        assert_eq!(hash, sha_hash(message));
    }
}

#[test]
fn trace_round_one_of_abc() {
    // After the first round on "abc", a = 0x5d6aebcd and e = 0xfa2a4622 (FIPS 180-2).
    let trace = Trace::new(prepare_input("abc"));
    assert_eq!(trace.get(TraceItem::a, 0).word, 0x5d6aebcd);
    assert_eq!(trace.get(TraceItem::e, 0).word, 0xfa2a4622);
    assert_eq!(trace.get(TraceItem::b, 0).word, 0x6a09e667);
}
