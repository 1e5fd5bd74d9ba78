use vstd::prelude::*;

use crate::context::Context;
use crate::frame::{entry_sp, fabricate_entry, fabricated, EntryFrame, MIN_STACK_SIZE};
use crate::routine::{Routine, State, DEFAULT_STACK_SIZE};

verus! {

/// Number of task slots in a runtime, the main task's slot included.
pub const MAX_ROUTINES: usize = 10;

/// Why a task could not be spawned.
#[derive(Debug, Clone, Copy, PartialEq, Eq, Structural)]
pub enum SpawnError {
    /// Every slot holds a live task; the pool never grows.
    PoolExhausted,
}

/// The position `k` steps after `cur` in circular order over `n` slots.
pub open spec fn wrap(cur: int, k: int, n: int) -> int {
    if cur + k < n {
        cur + k
    } else {
        cur + k - n
    }
}

/// The first `Ready` slot at least `k` and less than `states.len()` steps
/// after `cur`, in circular order.
pub open spec fn next_ready_from(states: Seq<State>, cur: int, k: int) -> Option<int>
    decreases states.len() - k,
{
    if k < 1 || k >= states.len() {
        None
    } else if states[wrap(cur, k, states.len() as int)] == State::Ready {
        Some(wrap(cur, k, states.len() as int))
    } else {
        next_ready_from(states, cur, k + 1)
    }
}

/// The slot that a yield from `cur` hands over to: the first `Ready` slot
/// after `cur` in circular order, if there is one besides `cur` itself.
pub open spec fn next_ready(states: Seq<State>, cur: int) -> Option<int> {
    next_ready_from(states, cur, 1)
}

/// The first `Available` slot at position `k` or later.
pub open spec fn first_available_from(states: Seq<State>, k: int) -> Option<int>
    decreases states.len() - k,
{
    if k < 0 || k >= states.len() {
        None
    } else if states[k] == State::Available {
        Some(k)
    } else {
        first_available_from(states, k + 1)
    }
}

/// The slot that a spawn fills: the lowest `Available` one.
pub open spec fn first_available(states: Seq<State>) -> Option<int> {
    first_available_from(states, 0)
}

/// Exactly the slot `cur` is `Running`.
pub open spec fn one_running(states: Seq<State>, cur: int) -> bool {
    &&& 0 <= cur < states.len()
    &&& forall|i: int| 0 <= i < states.len() ==> (states[i] == State::Running <==> i == cur)
}

/// The transitions a slot may take in one operation: none, or one of
/// `Available -> Ready`, `Ready -> Running`, `Running -> Ready`,
/// `Running -> Available`.
pub open spec fn step_allowed(a: State, b: State) -> bool {
    ||| a == b
    ||| (a == State::Available && b == State::Ready)
    ||| (a == State::Ready && b == State::Running)
    ||| (a == State::Running && b == State::Ready)
    ||| (a == State::Running && b == State::Available)
}

/// Every slot moved by an allowed transition.
pub open spec fn steps_allowed(before: Seq<State>, after: Seq<State>) -> bool {
    &&& before.len() == after.len()
    &&& forall|i: int| 0 <= i < before.len() ==> step_allowed(before[i], after[i])
}

/// The states after the scheduler hands over from `cur` to `next`: `cur` is
/// demoted to `Ready` unless its task has died, and `next` runs.
pub open spec fn handed_over(states: Seq<State>, cur: int, next: int) -> Seq<State> {
    if states[cur] == State::Available {
        states.update(next, State::Running)
    } else {
        states.update(cur, State::Ready).update(next, State::Running)
    }
}

/// The two slot sequences agree in everything but the states.
pub open spec fn frames_kept(a: Seq<Routine>, b: Seq<Routine>) -> bool {
    &&& a.len() == b.len()
    &&& forall|i: int|
        0 <= i < a.len() ==> {
            &&& (#[trigger] a[i]).id == b[i].id
            &&& a[i].stack@ == b[i].stack@
            &&& a[i].ctx == b[i].ctx
        }
}

/// What a circular scan finds: a `Ready` slot other than `cur`, or none among
/// the positions it covers.
proof fn lemma_next_ready_from(states: Seq<State>, cur: int, k: int)
    requires
        0 <= cur < states.len(),
        1 <= k,
    ensures
        match next_ready_from(states, cur, k) {
            Some(p) => 0 <= p < states.len() && p != cur && states[p] == State::Ready,
            None => forall|j: int|
                1 <= j < states.len() && k <= j ==> states[wrap(cur, j, states.len() as int)]
                    != State::Ready,
        },
    decreases states.len() - k,
{
    if 1 <= k < states.len() {
        lemma_next_ready_from(states, cur, k + 1);
    }
}

/// Scanning away from a slot other than the first reaches the first slot.
proof fn lemma_ready_first_slot_found(states: Seq<State>, cur: int)
    requires
        0 < cur < states.len(),
        states[0] == State::Ready,
    ensures
        next_ready(states, cur) is Some,
{
    lemma_next_ready_from(states, cur, 1);
    assert(wrap(cur, states.len() - cur, states.len() as int) == 0);
}

/// The lowest free slot is free.
proof fn lemma_first_available_from(states: Seq<State>, k: int)
    requires
        0 <= k,
    ensures
        match first_available_from(states, k) {
            Some(i) => 0 <= i < states.len() && states[i] == State::Available,
            None => forall|j: int| 0 <= j < states.len() && k <= j ==> states[j] != State::Available,
        },
    decreases states.len() - k,
{
    if 0 <= k < states.len() {
        lemma_first_available_from(states, k + 1);
    }
}

/// What slot `j` still owes the scheduler when its task yields `left[j]`
/// more times and then returns: nothing for the main slot or a free one.
pub open spec fn work_term(states: Seq<State>, left: Seq<u64>, j: int) -> int {
    if 0 < j && states[j] != State::Available {
        left[j] + 1
    } else {
        0
    }
}

/// The work owed by the slots from `i` on.
pub open spec fn work_from(states: Seq<State>, left: Seq<u64>, i: int) -> int
    decreases states.len() - i,
{
    if i < 0 || i >= states.len() {
        0
    } else {
        work_term(states, left, i) + work_from(states, left, i + 1)
    }
}

/// The work owed by all slots.
pub open spec fn work(states: Seq<State>, left: Seq<u64>) -> int {
    work_from(states, left, 0)
}

/// Changing what one slot `c` owes changes the total by as much.
proof fn lemma_work_update(
    s1: Seq<State>,
    l1: Seq<u64>,
    s2: Seq<State>,
    l2: Seq<u64>,
    c: int,
    i: int,
)
    requires
        s1.len() == s2.len() == l1.len() == l2.len(),
        0 <= i,
        forall|j: int| 0 <= j < s1.len() && j != c ==> work_term(s1, l1, j) == work_term(s2, l2, j),
    ensures
        work_from(s2, l2, i) == work_from(s1, l1, i) + (if i <= c < s1.len() {
            work_term(s2, l2, c) - work_term(s1, l1, c)
        } else {
            0
        }),
        work_from(s1, l1, i) >= 0,
    decreases s1.len() - i,
{
    if i < s1.len() {
        lemma_work_update(s1, l1, s2, l2, c, i + 1);
    }
}

/// Round robin: a yield from `cur` goes to the slot `k` steps after it in
/// circular order, where `k` is the least positive step that reaches a
/// `Ready` slot; and to none when no other slot is `Ready`.
pub proof fn round_robin(states: Seq<State>, cur: int)
    requires
        0 <= cur < states.len(),
    ensures
        match next_ready(states, cur) {
            Some(p) => exists|k: int|
                1 <= k < states.len() && p == wrap(cur, k, states.len() as int)
                    && states[p] == State::Ready && forall|j: int|
                    1 <= j < k ==> states[#[trigger] wrap(cur, j, states.len() as int)]
                        != State::Ready,
            None => forall|j: int|
                1 <= j < states.len() ==> states[#[trigger] wrap(cur, j, states.len() as int)]
                    != State::Ready,
        },
{
    lemma_next_ready_from(states, cur, 1);
    lemma_round_robin_from(states, cur, 1);
}

proof fn lemma_round_robin_from(states: Seq<State>, cur: int, k: int)
    requires
        0 <= cur < states.len(),
        1 <= k,
        forall|j: int|
            1 <= j < k ==> states[#[trigger] wrap(cur, j, states.len() as int)] != State::Ready,
    ensures
        match next_ready_from(states, cur, k) {
            Some(p) => exists|m: int|
                1 <= m < states.len() && p == wrap(cur, m, states.len() as int)
                    && states[p] == State::Ready && forall|j: int|
                    1 <= j < m ==> states[#[trigger] wrap(cur, j, states.len() as int)]
                        != State::Ready,
            None => true,
        },
    decreases states.len() - k,
{
    if 1 <= k < states.len() && states[wrap(cur, k, states.len() as int)] != State::Ready {
        lemma_round_robin_from(states, cur, k + 1);
    }
}

/// A spawn finds a slot exactly when some slot is `Available`: a full pool
/// is refused, never overwritten.
pub proof fn spawn_needs_free_slot(states: Seq<State>)
    ensures
        (first_available(states) is Some) == exists|i: int|
            0 <= i < states.len() && states[i] == State::Available,
{
    lemma_first_available_from(states, 0);
    if let Some(i) = first_available(states) {
        assert(states[i] == State::Available);
    }
}

/// Relies on `Vec::as_ptr`: the address of the buffer, which like every
/// allocation does not wrap around the address space.
#[verifier::external_body]
fn stack_address(stack: &Vec<u8>) -> (r: usize)
    ensures
        r + stack@.len() <= usize::MAX,
{
    stack.as_ptr() as usize
}

/// The scheduler: a fixed pool of task slots and the index of the one that
/// runs. Slot 0 is the main task, which starts out running.
#[derive(Debug)]
pub struct Runtime {
    current: usize,
    routines: Vec<Routine>,
}

impl Runtime {
    /// The task slots, in order.
    pub closed spec fn slots(&self) -> Seq<Routine> {
        self.routines@
    }

    /// The index of the running slot.
    pub closed spec fn current_slot(&self) -> int {
        self.current as int
    }

    /// The state of each slot.
    pub open spec fn states(&self) -> Seq<State> {
        self.slots().map_values(|r: Routine| r.state)
    }

    /// The runtime's invariant: a full pool, in which the current slot and no
    /// other is `Running`, the main task's slot is never free, and each slot
    /// keeps its position as identifier and its whole stack.
    pub open spec fn wf(&self) -> bool {
        &&& self.slots().len() == MAX_ROUTINES
        &&& one_running(self.states(), self.current_slot())
        &&& self.states()[0] != State::Available
        &&& forall|i: int|
            0 <= i < self.slots().len() ==> {
                &&& (#[trigger] self.slots()[i]).id == i
                &&& self.slots()[i].stack@.len() == DEFAULT_STACK_SIZE
            }
    }

    /// A runtime whose main task runs and whose other slots are free.
    pub fn new() -> (rt: Runtime)
        ensures
            rt.wf(),
            rt.current_slot() == 0,
            rt.states() == Seq::new(
                MAX_ROUTINES as nat,
                |i: int|
                    if i == 0 {
                        State::Running
                    } else {
                        State::Available
                    },
            ),
            forall|i: int|
                0 <= i < MAX_ROUTINES ==> (#[trigger] rt.slots()[i]).ctx
                    == Context::with_stack_pointer(0),
    {
        let mut initial = Routine::new(0);
        initial.state = State::Running;
        let mut routines: Vec<Routine> = Vec::new();
        routines.push(initial);
        let mut id: usize = 1;
        while id < MAX_ROUTINES
            invariant
                1 <= id <= MAX_ROUTINES,
                routines@.len() == id,
                forall|j: int|
                    0 <= j < id ==> {
                        &&& (#[trigger] routines@[j]).id == j
                        &&& routines@[j].stack@.len() == DEFAULT_STACK_SIZE
                        &&& routines@[j].ctx == Context::with_stack_pointer(0)
                        &&& routines@[j].state == if j == 0 {
                            State::Running
                        } else {
                            State::Available
                        }
                    },
            decreases MAX_ROUTINES - id,
        {
            routines.push(Routine::new(id));
            id = id + 1;
        }
        let rt = Runtime { current: 0, routines };
        assert(rt.states() =~= Seq::new(
            MAX_ROUTINES as nat,
            |i: int|
                if i == 0 {
                    State::Running
                } else {
                    State::Available
                },
        ));
        rt
    }

    /// The index of the running slot.
    pub fn current(&self) -> (r: usize)
        ensures
            r == self.current_slot(),
    {
        self.current
    }

    /// The number of task slots.
    pub fn capacity(&self) -> (r: usize)
        ensures
            r == self.slots().len(),
    {
        self.routines.len()
    }

    /// The state of slot `i`.
    pub fn state(&self, i: usize) -> (r: State)
        requires
            i < self.slots().len(),
        ensures
            r == self.states()[i as int],
    {
        self.routines[i].state
    }

    /// The saved registers of slot `i`.
    pub fn context(&self, i: usize) -> (r: Context)
        requires
            i < self.slots().len(),
        ensures
            r == self.slots()[i as int].ctx,
    {
        self.routines[i].ctx
    }

    /// Hands over from the current slot to the next `Ready` one, if there is
    /// one: the current slot goes back to `Ready` unless its task has died.
    fn switch_to_next(&mut self) -> (switched: bool)
        requires
            old(self).current_slot() < old(self).slots().len(),
        ensures
            frames_kept(old(self).slots(), final(self).slots()),
            match next_ready(old(self).states(), old(self).current_slot()) {
                None => {
                    &&& !switched
                    &&& final(self).current_slot() == old(self).current_slot()
                    &&& final(self).states() == old(self).states()
                },
                Some(p) => {
                    &&& switched
                    &&& final(self).current_slot() == p
                    &&& final(self).states() == handed_over(
                        old(self).states(),
                        old(self).current_slot(),
                        p,
                    )
                },
            },
    {
        let ghost s = self.states();
        proof {
            lemma_next_ready_from(s, self.current_slot(), 1);
        }
        match self.find_next_ready() {
            None => false,
            Some(pos) => {
                let cur = self.current;
                if self.routines[cur].state != State::Available {
                    self.routines[cur].state = State::Ready;
                }
                self.routines[pos].state = State::Running;
                self.current = pos;
                assert(self.states() =~= handed_over(s, cur as int, pos as int));
                true
            },
        }
    }

    /// Suspends the running task in favour of the first `Ready` slot after it
    /// in circular order. Returns false, and changes nothing, when no other
    /// slot is `Ready`: there is no more work. The caller then switches the
    /// machine from the previous slot's context to the new current one's.
    pub fn yield_(&mut self) -> (switched: bool)
        requires
            old(self).wf(),
        ensures
            final(self).wf(),
            steps_allowed(old(self).states(), final(self).states()),
            frames_kept(old(self).slots(), final(self).slots()),
            switched == next_ready(old(self).states(), old(self).current_slot()) is Some,
            match next_ready(old(self).states(), old(self).current_slot()) {
                None => {
                    &&& final(self).current_slot() == old(self).current_slot()
                    &&& final(self).states() == old(self).states()
                },
                Some(p) => {
                    &&& final(self).current_slot() == p
                    &&& final(self).states() == old(self).states().update(
                        old(self).current_slot(),
                        State::Ready,
                    ).update(p, State::Running)
                },
            },
    {
        let ghost s = self.states();
        let ghost cur = self.current_slot();
        proof {
            lemma_next_ready_from(s, cur, 1);
        }
        let switched = self.switch_to_next();
        assert(forall|i: int|
            0 <= i < self.slots().len() ==> (#[trigger] self.slots()[i]).id == old(self).slots()[i].id);
        switched
    }

    /// Ends the running task: its slot becomes `Available` and the next
    /// `Ready` slot runs, which always exists, for the main task's slot is
    /// `Ready` while another task runs. The main task cannot end this way:
    /// from slot 0 nothing changes.
    pub fn return_(&mut self)
        requires
            old(self).wf(),
        ensures
            final(self).wf(),
            steps_allowed(old(self).states(), final(self).states()),
            frames_kept(old(self).slots(), final(self).slots()),
            old(self).current_slot() == 0 ==> {
                &&& final(self).current_slot() == 0
                &&& final(self).states() == old(self).states()
            },
            old(self).current_slot() != 0 ==> {
                let dead = old(self).states().update(old(self).current_slot(), State::Available);
                &&& next_ready(dead, old(self).current_slot()) == Some(final(self).current_slot())
                &&& final(self).states() == dead.update(final(self).current_slot(), State::Running)
            },
    {
        if self.current != 0 {
            let cur = self.current;
            self.routines[cur].state = State::Available;
            let ghost dead = self.states();
            let ghost mid = self.slots();
            assert(dead =~= old(self).states().update(cur as int, State::Available));
            assert(frames_kept(old(self).slots(), mid));
            proof {
                lemma_ready_first_slot_found(dead, cur as int);
                lemma_next_ready_from(dead, cur as int, 1);
            }
            self.switch_to_next();
            assert(forall|i: int|
                0 <= i < self.slots().len() ==> (#[trigger] self.slots()[i]).id == mid[i].id);
            assert(frames_kept(old(self).slots(), self.slots()));
        }
    }

    /// Fabricates a new task in the lowest `Available` slot: its stack gets
    /// the entry frame and its context the matching stack pointer, and the
    /// slot becomes `Ready`. The task runs when the scheduler reaches it.
    /// Fails, changing nothing, when no slot is `Available`.
    pub fn spawn(&mut self, frame: EntryFrame) -> (r: Result<usize, SpawnError>)
        requires
            old(self).wf(),
        ensures
            final(self).wf(),
            steps_allowed(old(self).states(), final(self).states()),
            final(self).current_slot() == old(self).current_slot(),
            match first_available(old(self).states()) {
                None => {
                    &&& r == Err::<usize, SpawnError>(SpawnError::PoolExhausted)
                    &&& final(self).slots() == old(self).slots()
                },
                Some(i) => {
                    let before = old(self).slots()[i];
                    let after = final(self).slots()[i];
                    &&& r == Ok::<usize, SpawnError>(i as usize)
                    &&& final(self).slots() == old(self).slots().update(i, after)
                    &&& after.id == before.id
                    &&& after.state == State::Ready
                    &&& exists|base: int|
                        0 <= base && base + before.stack@.len() <= usize::MAX
                            && after.stack@ == fabricated(before.stack@, base, frame)
                            && after.ctx == Context::with_stack_pointer(
                            #[trigger] entry_sp(base, before.stack@.len() as int) as u64,
                        )
                },
            },
    {
        let ghost s = self.states();
        proof {
            lemma_first_available_from(s, 0);
        }
        match self.find_available() {
            None => Err(SpawnError::PoolExhausted),
            Some(i) => {
                let ghost before = self.routines@[i as int];
                let base = stack_address(&self.routines[i].stack);
                let rsp = fabricate_entry(&mut self.routines[i].stack, base, frame);
                self.routines[i].ctx = Context::entry(rsp);
                self.routines[i].state = State::Ready;
                let ghost after = self.routines@[i as int];
                assert(self.slots() =~= old(self).slots().update(i as int, after));
                assert(self.states() =~= s.update(i as int, State::Ready));
                assert(after.ctx == Context::with_stack_pointer(
                    entry_sp(base as int, before.stack@.len() as int) as u64,
                ));
                Ok(i)
            },
        }
    }

    /// After initialization, and after every operation, the current slot
    /// and no other is `Running`.
    pub proof fn exactly_one_running(rt: &Runtime)
        requires
            rt.wf(),
        ensures
            0 <= rt.current_slot() < rt.states().len(),
            rt.states()[rt.current_slot()] == State::Running,
            forall|i: int|
                0 <= i < rt.states().len() && rt.states()[i] == State::Running ==> i
                    == rt.current_slot(),
    {
    }

    /// Runs the scheduler from the main task to the end over tasks that
    /// each yield `yields[i]` more times and then return: the main task
    /// yields until no other slot is `Ready`, and a task yields while it has
    /// yields left, else returns. Returns the slots in the order they were
    /// resumed. However the pool was spawned, this ends, with every task
    /// slot `Available` again.
    pub fn run_modeled(&mut self, yields: Vec<u64>) -> (resumed: Vec<usize>)
        requires
            old(self).wf(),
            old(self).current_slot() == 0,
            yields@.len() == MAX_ROUTINES,
        ensures
            final(self).wf(),
            final(self).current_slot() == 0,
            frames_kept(old(self).slots(), final(self).slots()),
            forall|i: int| 0 < i < MAX_ROUTINES ==> final(self).states()[i] == State::Available,
            forall|k: int| 0 <= k < resumed@.len() ==> resumed@[k] < MAX_ROUTINES,
    {
        let mut left = yields;
        let mut resumed: Vec<usize> = Vec::new();
        loop
            invariant
                self.wf(),
                left@.len() == MAX_ROUTINES,
                frames_kept(old(self).slots(), self.slots()),
                forall|k: int| 0 <= k < resumed@.len() ==> resumed@[k] < MAX_ROUTINES,
            ensures
                self.wf(),
                self.current_slot() == 0,
                frames_kept(old(self).slots(), self.slots()),
                forall|i: int| 0 < i < MAX_ROUTINES ==> self.states()[i] == State::Available,
                forall|k: int| 0 <= k < resumed@.len() ==> resumed@[k] < MAX_ROUTINES,
            decreases
                2 * work(self.states(), left@) + if self.current_slot() == 0 {
                    1int
                } else {
                    0int
                },
        {
            let ghost s1 = self.states();
            let ghost l1 = left@;
            let ghost old_slots = self.slots();
            proof {
                lemma_work_update(s1, l1, s1, l1, 0, 0);
                lemma_next_ready_from(s1, self.current_slot(), 1);
            }
            let cur = self.current;
            if cur == 0 {
                if !self.yield_() {
                    proof {
                        lemma_next_ready_from(s1, 0, 1);
                        assert forall|i: int| 0 < i < MAX_ROUTINES implies self.states()[i]
                            == State::Available by {
                            assert(wrap(0, i, MAX_ROUTINES as int) == i);
                        }
                    }
                    break ;
                }
                proof {
                    lemma_work_update(s1, l1, self.states(), left@, 0, 0);
                }
            } else if left[cur] > 0 {
                left.set(cur, left[cur] - 1);
                self.yield_();
                proof {
                    lemma_work_update(s1, l1, self.states(), left@, cur as int, 0);
                }
            } else {
                self.return_();
                proof {
                    lemma_next_ready_from(s1.update(cur as int, State::Available), cur as int, 1);
                    lemma_work_update(s1, l1, self.states(), left@, cur as int, 0);
                }
            }
            assert(frames_kept(old(self).slots(), self.slots())) by {
                assert(frames_kept(old_slots, self.slots()));
                assert forall|i: int| 0 <= i < self.slots().len() implies (#[trigger] self.slots()[i]).id
                    == old(self).slots()[i].id && self.slots()[i].stack@ == old(self).slots()[i].stack@
                    && self.slots()[i].ctx == old(self).slots()[i].ctx by {
                    assert(old_slots[i].id == old(self).slots()[i].id);
                }
            }
            resumed.push(self.current);
            proof {
                lemma_work_update(self.states(), left@, self.states(), left@, 0, 0);
            }
        }
        resumed
    }

    /// Scans the slots after the current one, in circular order, for the
    /// first `Ready` one.
    fn find_next_ready(&self) -> (r: Option<usize>)
        requires
            self.current_slot() < self.slots().len(),
        ensures
            match r {
                Some(p) => next_ready(self.states(), self.current_slot()) == Some(p as int),
                None => next_ready(self.states(), self.current_slot()) is None,
            },
    {
        let n = self.routines.len();
        let cur = self.current;
        let mut k: usize = 1;
        while k < n
            invariant
                1 <= k <= n,
                n == self.slots().len(),
                cur == self.current_slot(),
                cur < n,
                next_ready(self.states(), cur as int) == next_ready_from(
                    self.states(),
                    cur as int,
                    k as int,
                ),
            decreases n - k,
        {
            let pos: usize = if k < n - cur {
                cur + k
            } else {
                k - (n - cur)
            };
            if self.routines[pos].state == State::Ready {
                return Some(pos);
            }
            k = k + 1;
        }
        None
    }

    /// Scans the slots from the first on for an `Available` one.
    fn find_available(&self) -> (r: Option<usize>)
        ensures
            match r {
                Some(i) => first_available(self.states()) == Some(i as int),
                None => first_available(self.states()) is None,
            },
    {
        let n = self.routines.len();
        let mut i: usize = 0;
        while i < n
            invariant
                i <= n,
                n == self.slots().len(),
                first_available(self.states()) == first_available_from(self.states(), i as int),
            decreases n - i,
        {
            if self.routines[i].state == State::Available {
                return Some(i);
            }
            i = i + 1;
        }
        None
    }
}

} // verus!
