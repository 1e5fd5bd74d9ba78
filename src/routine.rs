use vstd::prelude::*;

use crate::context::Context;

verus! {

/// Bytes of stack that each task slot owns.
pub const DEFAULT_STACK_SIZE: usize = 1024 * 1024 * 2;

/// The scheduling state of a task slot.
#[derive(Debug, Clone, Copy, PartialEq, Eq, Structural)]
pub enum State {
    /// The slot is free and not runnable.
    Available,
    /// The slot's task is the one executing.
    Running,
    /// The slot's task is fabricated or suspended, and eligible to run.
    Ready,
}

/// One task slot: its identifier, its private stack, its state and its
/// saved registers.
#[derive(Debug)]
pub struct Routine {
    pub id: usize,
    pub stack: Vec<u8>,
    pub state: State,
    pub ctx: Context,
}

impl Routine {
    /// A free slot with a zeroed stack and a zeroed context.
    pub fn new(id: usize) -> (r: Routine)
        ensures
            r.id == id,
            r.state == State::Available,
            r.ctx == Context::with_stack_pointer(0),
            r.stack@ == Seq::new(DEFAULT_STACK_SIZE as nat, |i: int| 0u8),
    {
        let stack: Vec<u8> = vec![0u8; DEFAULT_STACK_SIZE];
        assert(stack@ =~= Seq::new(DEFAULT_STACK_SIZE as nat, |i: int| 0u8));
        Routine { id, stack, state: State::Available, ctx: Context::zeroed() }
    }
}

} // verus!
