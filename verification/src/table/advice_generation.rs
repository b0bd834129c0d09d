use vstd::prelude::*;

use crate::table::advice::AdviceEntry;
use crate::types::Word;

verus! {

/// Advice columns derived from a message schedule; no column is derived yet, so all 24
/// come back empty.
pub fn compute_advice(message_schedule: [Word; 64]) -> (advice: [Vec<AdviceEntry>; 24])
    ensures
        forall|i: int| 0 <= i < 24 ==> (#[trigger] advice@[i])@.len() == 0,
{
    [
        Vec::new(),
        Vec::new(),
        Vec::new(),
        Vec::new(),
        Vec::new(),
        Vec::new(),
        Vec::new(),
        Vec::new(),
        Vec::new(),
        Vec::new(),
        Vec::new(),
        Vec::new(),
        Vec::new(),
        Vec::new(),
        Vec::new(),
        Vec::new(),
        Vec::new(),
        Vec::new(),
        Vec::new(),
        Vec::new(),
        Vec::new(),
        Vec::new(),
        Vec::new(),
        Vec::new(),
    ]
}

} // verus!
