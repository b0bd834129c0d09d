use vstd::prelude::*;

verus! {

// Columns of the advice area. Each row of a round uses the columns for its own purpose:
// the first row of a round holds the limbs of `a` and `e` and the message word, the second
// the lookup results, the third the composed words and the message schedule terms, the
// fourth the new `a` and `e` before reduction (and, in the last rounds, the output sums).
// The limbs of `b`, `c`, `d` (and of `f`, `g`, `h`) are those of `a` (of `e`) in the
// rows of earlier rounds, so they share its columns.

pub const AX: usize = 0;
pub const AY: usize = 1;
pub const AZ: usize = 2;
pub const EX: usize = 3;
pub const EY: usize = 4;
pub const EZ: usize = 5;
pub const W: usize = 6;
pub const W_SUM: usize = 7;

pub const BX: usize = AX;
pub const BY: usize = AY;
pub const BZ: usize = AZ;
pub const CX: usize = AX;
pub const CY: usize = AY;
pub const CZ: usize = AZ;
pub const DX: usize = AX;
pub const DY: usize = AY;
pub const DZ: usize = AZ;
pub const FX: usize = EX;
pub const FY: usize = EY;
pub const FZ: usize = EZ;
pub const GX: usize = EX;
pub const GY: usize = EY;
pub const GZ: usize = EZ;
pub const HX: usize = EX;
pub const HY: usize = EY;
pub const HZ: usize = EZ;

pub const ROT0: usize = 0;
pub const ROT1: usize = 1;
pub const MAJ_X: usize = 2;
pub const MAJ_Y: usize = 3;
pub const MAJ_Z: usize = 4;
pub const CH_X: usize = 5;
pub const CH_Y: usize = 6;
pub const CH_Z: usize = 7;

pub const MAJ: usize = 0;
pub const CH: usize = 1;
pub const D: usize = 2;
pub const H: usize = 3;
pub const W1: usize = 4;
pub const W2: usize = 5;

pub const A: usize = 0;
pub const E: usize = 1;
pub const LOW_SUM: usize = 2;
pub const HIGH_SUM: usize = 3;

} // verus!
