use rsroutine::context::Context;
use rsroutine::frame::{fabricate_entry, EntryFrame};
use rsroutine::routine::{Routine, State, DEFAULT_STACK_SIZE};
use rsroutine::runtime::{Runtime, SpawnError, MAX_ROUTINES};

fn frame() -> EntryFrame {
    EntryFrame { guard: 0x1111, start: 0x2222, body: 0x3333 }
}

fn count(trace: &[usize], slot: usize) -> usize {
    trace.iter().filter(|s| **s == slot).count()
}

#[test]
fn new_runtime_runs_main_slot_only() {
    let rt = Runtime::new();
    assert_eq!(rt.capacity(), MAX_ROUTINES);
    assert_eq!(rt.current(), 0);
    assert_eq!(rt.state(0), State::Running);
    for i in 1..MAX_ROUTINES {
        assert_eq!(rt.state(i), State::Available);
        assert_eq!(rt.context(i), Context::zeroed());
    }
}

#[test]
fn routine_starts_free_with_zeroed_stack() {
    let r = Routine::new(4);
    assert_eq!(r.id, 4);
    assert_eq!(r.state, State::Available);
    assert_eq!(r.stack.len(), DEFAULT_STACK_SIZE);
    assert!(r.stack.iter().all(|b| *b == 0));
    assert_eq!(r.ctx, Context::zeroed());
}

#[test]
fn fabricated_frame_layout() {
    let mut stack = vec![0u8; 64];
    // a buffer at 0x1004 of 64 bytes ends at 0x1044; the aligned top is 0x1040
    let rsp = fabricate_entry(&mut stack, 0x1004, frame());
    assert_eq!(rsp, 0x1020);
    assert_eq!(&stack[28..36], &0x3333u64.to_le_bytes());
    assert_eq!(&stack[36..44], &0x2222u64.to_le_bytes());
    assert_eq!(&stack[44..52], &0x1111u64.to_le_bytes());
    assert!(stack[..28].iter().all(|b| *b == 0));
    assert!(stack[52..].iter().all(|b| *b == 0));
}

#[test]
fn fabricated_frame_on_aligned_buffer() {
    let mut stack = vec![0u8; 48];
    let rsp = fabricate_entry(&mut stack, 0x2000, frame());
    assert_eq!(rsp, 0x2010);
    assert_eq!(&stack[16..24], &0x3333u64.to_le_bytes());
    assert_eq!(&stack[32..40], &0x1111u64.to_le_bytes());
}

#[test]
fn spawn_fills_lowest_free_slot() {
    let mut rt = Runtime::new();
    assert_eq!(rt.spawn(frame()), Ok(1));
    assert_eq!(rt.spawn(frame()), Ok(2));
    assert_eq!(rt.state(1), State::Ready);
    assert_eq!(rt.state(2), State::Ready);
    assert_eq!(rt.state(3), State::Available);
    assert_eq!(rt.current(), 0);
    let ctx = rt.context(1);
    assert_eq!(ctx.rsp % 16, 0);
    assert_ne!(ctx.rsp, 0);
    assert_eq!(ctx.r15, 0);
}

#[test]
fn spawn_beyond_capacity_is_refused() {
    let mut rt = Runtime::new();
    for i in 1..MAX_ROUTINES {
        assert_eq!(rt.spawn(frame()), Ok(i));
    }
    let before: Vec<Context> = (0..MAX_ROUTINES).map(|i| rt.context(i)).collect();
    assert_eq!(rt.spawn(frame()), Err(SpawnError::PoolExhausted));
    for i in 0..MAX_ROUTINES {
        assert_eq!(rt.context(i), before[i]);
        assert_eq!(rt.state(i), if i == 0 { State::Running } else { State::Ready });
    }
}

#[test]
fn yield_goes_round_robin() {
    let mut rt = Runtime::new();
    rt.spawn(frame()).unwrap();
    rt.spawn(frame()).unwrap();
    rt.spawn(frame()).unwrap();
    let mut order = Vec::new();
    for _ in 0..8 {
        assert!(rt.yield_());
        order.push(rt.current());
    }
    assert_eq!(order, vec![1, 2, 3, 0, 1, 2, 3, 0]);
    assert_eq!(rt.state(0), State::Running);
    assert_eq!(rt.state(1), State::Ready);
}

#[test]
fn yield_skips_free_slots() {
    let mut rt = Runtime::new();
    rt.spawn(frame()).unwrap();
    rt.spawn(frame()).unwrap();
    assert!(rt.yield_());
    assert_eq!(rt.current(), 1);
    rt.return_();
    assert_eq!(rt.current(), 2);
    assert_eq!(rt.state(1), State::Available);
    assert!(rt.yield_());
    assert_eq!(rt.current(), 0);
    assert!(rt.yield_());
    assert_eq!(rt.current(), 2);
}

#[test]
fn yield_with_nothing_ready_reports_no_work() {
    let mut rt = Runtime::new();
    assert!(!rt.yield_());
    assert_eq!(rt.current(), 0);
    assert_eq!(rt.state(0), State::Running);
}

#[test]
fn return_from_main_slot_changes_nothing() {
    let mut rt = Runtime::new();
    rt.spawn(frame()).unwrap();
    rt.return_();
    assert_eq!(rt.current(), 0);
    assert_eq!(rt.state(0), State::Running);
    assert_eq!(rt.state(1), State::Ready);
}

#[test]
fn returned_slot_is_reused_by_spawn() {
    let mut rt = Runtime::new();
    rt.spawn(frame()).unwrap();
    rt.spawn(frame()).unwrap();
    assert!(rt.yield_());
    rt.return_();
    assert_eq!(rt.spawn(frame()), Ok(1));
    assert_eq!(rt.state(1), State::Ready);
}

#[test]
fn two_counting_tasks_run_to_completion() {
    let mut rt = Runtime::new();
    assert_eq!(rt.spawn(frame()), Ok(1));
    assert_eq!(rt.spawn(frame()), Ok(2));
    let mut yields = vec![0u64; MAX_ROUTINES];
    yields[1] = 3;
    yields[2] = 5;
    let trace = rt.run_modeled(yields);
    // each resumption before the last of a task is one increment and one yield
    assert_eq!(count(&trace, 1) - 1, 3);
    assert_eq!(count(&trace, 2) - 1, 5);
    assert_eq!(trace, vec![1, 2, 0, 1, 2, 0, 1, 2, 0, 1, 2, 0, 2, 0, 2, 0]);
    assert_eq!(rt.current(), 0);
    for i in 1..MAX_ROUTINES {
        assert_eq!(rt.state(i), State::Available);
    }
}

#[test]
fn run_with_no_tasks_ends_at_once() {
    let mut rt = Runtime::new();
    let trace = rt.run_modeled(vec![0u64; MAX_ROUTINES]);
    assert!(trace.is_empty());
    assert_eq!(rt.current(), 0);
    assert_eq!(rt.state(0), State::Running);
}

#[test]
fn task_that_never_yields_frees_its_slot() {
    let mut rt = Runtime::new();
    rt.spawn(frame()).unwrap();
    assert!(rt.yield_());
    assert_eq!(rt.current(), 1);
    rt.return_();
    assert_eq!(rt.state(1), State::Available);
    assert_eq!(rt.current(), 0);
    assert_eq!(rt.state(0), State::Running);
    assert!(!rt.yield_());
}

#[test]
fn tasks_with_no_yields_each_run_once() {
    let mut rt = Runtime::new();
    rt.spawn(frame()).unwrap();
    rt.spawn(frame()).unwrap();
    let trace = rt.run_modeled(vec![0u64; MAX_ROUTINES]);
    assert_eq!(trace, vec![1, 2, 0]);
    assert_eq!(rt.state(1), State::Available);
    assert_eq!(rt.state(2), State::Available);
}

fn running_slots(rt: &Runtime) -> Vec<usize> {
    (0..rt.capacity()).filter(|i| rt.state(*i) == State::Running).collect()
}

#[test]
fn exactly_one_slot_runs_after_each_operation() {
    let mut rt = Runtime::new();
    assert_eq!(running_slots(&rt), vec![0]);
    rt.spawn(frame()).unwrap();
    rt.spawn(frame()).unwrap();
    assert_eq!(running_slots(&rt), vec![0]);
    assert!(rt.yield_());
    assert_eq!(running_slots(&rt), vec![1]);
    rt.return_();
    assert_eq!(running_slots(&rt), vec![2]);
    assert!(rt.yield_());
    assert_eq!(running_slots(&rt), vec![0]);
    rt.spawn(frame()).unwrap();
    assert_eq!(running_slots(&rt), vec![0]);
}

#[test]
fn slot_moves_through_its_lifecycle() {
    let mut rt = Runtime::new();
    let mut seen = vec![rt.state(1)];
    rt.spawn(frame()).unwrap();
    seen.push(rt.state(1));
    rt.yield_();
    seen.push(rt.state(1));
    rt.yield_();
    seen.push(rt.state(1));
    rt.yield_();
    seen.push(rt.state(1));
    rt.return_();
    seen.push(rt.state(1));
    assert_eq!(
        seen,
        vec![
            State::Available,
            State::Ready,
            State::Running,
            State::Ready,
            State::Running,
            State::Available
        ]
    );
}
