use vstd::prelude::*;

verus! {

/// The code addresses pushed onto a fresh task's stack: the guard that takes
/// over when the body returns, the start trampoline, and the body itself.
#[derive(Debug, Clone, Copy, PartialEq, Eq, Structural)]
pub struct EntryFrame {
    pub guard: u64,
    pub start: u64,
    pub body: u64,
}

/// The smallest stack that holds an entry frame below its aligned top.
pub const MIN_STACK_SIZE: usize = 48;

/// The byte of `v` that starts at bit `shift`.
pub open spec fn byte_at(v: u64, shift: u64) -> u8 {
    ((v >> shift) & 0xff) as u8
}

/// The eight bytes of `v` in memory order, least significant first.
pub open spec fn le_bytes(v: u64) -> Seq<u8> {
    Seq::new(8, |k: int| byte_at(v, (8 * k) as u64))
}

/// `s` with `w` written over it from position `off` on.
pub open spec fn overwrite(s: Seq<u8>, off: int, w: Seq<u8>) -> Seq<u8> {
    Seq::new(s.len(), |i: int| if off <= i < off + w.len() { w[i - off] } else { s[i] })
}

/// The highest 16-byte-aligned address within a stack buffer that starts at
/// address `base` and holds `len` bytes.
pub open spec fn aligned_top(base: int, len: int) -> int {
    (base + len) - (base + len) % 16
}

/// The stack pointer of a freshly fabricated task: the lowest word of its
/// entry frame.
pub open spec fn entry_sp(base: int, len: int) -> int {
    aligned_top(base, len) - 32
}

/// The stack after fabrication: from high to low address, below the aligned
/// top and one word apart from it, the guard, the start trampoline and the
/// body, each as a little-endian word.
pub open spec fn fabricated(stack: Seq<u8>, base: int, frame: EntryFrame) -> Seq<u8> {
    let top = aligned_top(base, stack.len() as int) - base;
    overwrite(
        overwrite(
            overwrite(stack, top - 16, le_bytes(frame.guard)),
            top - 24,
            le_bytes(frame.start),
        ),
        top - 32,
        le_bytes(frame.body),
    )
}

/// Writes `v` as a little-endian word at position `off` of `stack`.
fn write_word(stack: &mut Vec<u8>, off: usize, v: u64)
    requires
        off + 8 <= old(stack)@.len(),
    ensures
        final(stack)@ == overwrite(old(stack)@, off as int, le_bytes(v)),
{
    let ghost w = le_bytes(v);
    let n = stack.len();
    let mut k: usize = 0;
    while k < 8
        invariant
            k <= 8,
            n == stack@.len(),
            w == le_bytes(v),
            off + 8 <= stack@.len(),
            stack@.len() == old(stack)@.len(),
            forall|i: int|
                0 <= i < stack@.len() ==> stack@[i] == (if off <= i < off + k {
                    w[i - off]
                } else {
                    old(stack)@[i]
                }),
        decreases 8 - k,
    {
        let shift: u64 = 8 * (k as u64);
        let byte: u8 = (#[verifier::truncate] (((v >> shift) & 0xff) as u8));
        assert(shift == (8 * k) as u64);
        assert(byte == byte_at(v, shift));
        assert(byte == w[k as int]);
        stack.set(off + k, byte);
        k = k + 1;
    }
    assert(stack@ =~= overwrite(old(stack)@, off as int, w));
}

/// Lays out the entry frame of a fresh task in `stack`, a buffer that starts
/// at address `base`, and returns the stack pointer that resumes it.
pub fn fabricate_entry(stack: &mut Vec<u8>, base: usize, frame: EntryFrame) -> (rsp: u64)
    requires
        base + old(stack)@.len() <= usize::MAX,
        old(stack)@.len() >= MIN_STACK_SIZE,
    ensures
        rsp == entry_sp(base as int, old(stack)@.len() as int),
        final(stack)@ == fabricated(old(stack)@, base as int, frame),
{
    let len = stack.len();
    let top: usize = base + len;
    let aligned: usize = top - top % 16;
    let off: usize = aligned - base;
    write_word(stack, off - 16, frame.guard);
    write_word(stack, off - 24, frame.start);
    write_word(stack, off - 32, frame.body);
    (aligned - 32) as u64
}

} // verus!
