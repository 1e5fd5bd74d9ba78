//! A cooperative, single-threaded task runtime: a fixed pool of task slots,
//! each with its own stack, scheduled round-robin by explicit yields.
//!
//! The library holds the scheduler's state machine and the fabrication of a
//! fresh task's entry frame. Switching the machine registers themselves is
//! left to the embedding program, which performs the switch that each
//! scheduling decision names.
use vstd::prelude::*;

pub mod context;
pub mod frame;
pub mod routine;
pub mod runtime;

verus! {

} // verus!
