#![allow(non_snake_case, non_camel_case_types)]

use vstd::prelude::*;

pub mod constants;
pub mod lookup_tables;
pub mod sha;
pub mod sha_ops;
pub mod table;
pub mod trace;
pub mod types;

verus! {

/// Number of rounds of the SHA-256 compression function.
pub const ROUNDS: usize = 64;

} // verus!
