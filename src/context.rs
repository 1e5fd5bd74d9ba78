use vstd::prelude::*;

verus! {

/// The registers that survive a task switch: the stack pointer and the
/// callee-saved general-purpose registers.
#[derive(Debug, Clone, Copy, PartialEq, Eq, Structural)]
pub struct Context {
    pub rsp: u64,
    pub r15: u64,
    pub r14: u64,
    pub r13: u64,
    pub r12: u64,
    pub rbx: u64,
    pub rbp: u64,
}

impl Context {
    /// A context whose every callee-saved register is zero and whose stack
    /// pointer is `rsp`.
    pub open spec fn with_stack_pointer(rsp: u64) -> Context {
        Context { rsp, r15: 0, r14: 0, r13: 0, r12: 0, rbx: 0, rbp: 0 }
    }

    /// The context of a slot that has never been fabricated into.
    pub fn zeroed() -> (r: Context)
        ensures
            r == Context::with_stack_pointer(0),
    {
        Context { rsp: 0, r15: 0, r14: 0, r13: 0, r12: 0, rbx: 0, rbp: 0 }
    }

    /// The context of a task that has not run yet: resuming it pops its entry
    /// frame from `rsp`.
    pub fn entry(rsp: u64) -> (r: Context)
        ensures
            r == Context::with_stack_pointer(rsp),
    {
        Context { rsp, r15: 0, r14: 0, r13: 0, r12: 0, rbx: 0, rbp: 0 }
    }
}

} // verus!
