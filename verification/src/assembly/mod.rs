use vstd::prelude::*;

pub mod program;
pub mod semantics;
pub mod block;
pub mod cells;
pub mod ctx;
pub mod loops;
pub mod machine;
pub mod tracking;
pub mod utils;
pub mod wellformed;

verus! {

/// Symbolic cell that stands for the address register of the dynamic memory.
pub const ADDR_PTR: usize = usize::MAX;

/// Symbolic cell that stands for the register a fetched value arrives in.
pub const FETCH_VAL_PTR: usize = usize::MAX - 1;

/// Symbolic cell that stands for the register a value to send is taken from.
pub const SEND_VAL_PTR: usize = usize::MAX - 2;

} // verus!
