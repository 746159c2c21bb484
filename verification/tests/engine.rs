use finny::decl::FsmBuilder;
use finny::events::{Action, FsmError, FsmEvent, Guard};
use finny::frontend::FsmFactory;

const IDLE: u64 = 1;
const RUNNING: u64 = 2;
const START: u64 = 10;
const STOP: u64 = 11;

fn idle_running_schema() -> finny::decl::BuiltFsm {
    let mut b = FsmBuilder::new();
    b.initial_state(IDLE);
    b.state(IDLE, 0).on_event(START, RUNNING, None, Action::Nop).install(&mut b);
    b.state(RUNNING, 0).on_event(STOP, IDLE, None, Action::Nop).install(&mut b);
    b.build()
}

#[test]
fn start_stop_round_trip() {
    let mut fsm = idle_running_schema().new(0).unwrap();
    assert_eq!(fsm.backend.current[0], IDLE);
    fsm.enqueue(FsmEvent::Event(START)).unwrap();
    assert_eq!(fsm.drive(), Ok(true));
    assert_eq!(fsm.backend.current[0], RUNNING);
    fsm.enqueue(FsmEvent::Event(STOP)).unwrap();
    assert_eq!(fsm.drive(), Ok(true));
    assert_eq!(fsm.backend.current[0], IDLE);
    // Stop while already idle: silently dropped, no error.
    fsm.enqueue(FsmEvent::Event(STOP)).unwrap();
    assert_eq!(fsm.drive(), Ok(true));
    assert_eq!(fsm.backend.current[0], IDLE);
}

#[test]
fn unhandled_event_is_a_noop() {
    let mut fsm = idle_running_schema().new(7).unwrap();
    fsm.enqueue(FsmEvent::Event(999)).unwrap();
    assert_eq!(fsm.drive(), Ok(true));
    assert_eq!(fsm.backend.current[0], IDLE);
    assert_eq!(fsm.backend.context, 7);
    assert_eq!(fsm.queue.items.len(), 0);
    assert!(fsm.timers.items.is_empty());
}

#[test]
fn guard_false_drops_event_without_actions() {
    let mut b = FsmBuilder::new();
    b.initial_state(IDLE);
    b.state(IDLE, 0)
        .on_exit(Action::SetContext(-100))
        .on_event(START, RUNNING, Some(Guard::ContextAtLeast(5)), Action::Nop)
        .install(&mut b);
    b.state(RUNNING, 0).on_entry(Action::SetContext(-200)).install(&mut b);
    let schema = b.build();
    let mut fsm = schema.new(0).unwrap();
    fsm.enqueue(FsmEvent::Event(START)).unwrap();
    assert_eq!(fsm.drive(), Ok(true));
    // The guard rejected: no exit action, no entry action, no transition.
    assert_eq!(fsm.backend.current[0], IDLE);
    assert_eq!(fsm.backend.context, 0);
    assert_eq!(fsm.queue.items.len(), 0);
}

#[test]
fn guard_true_runs_exit_transition_entry_in_order() {
    let mut b = FsmBuilder::new();
    b.initial_state(IDLE);
    b.state(IDLE, 0)
        .on_exit(Action::SetContext(1))
        .on_event(START, RUNNING, Some(Guard::ContextAtLeast(5)), Action::SetContext(2))
        .install(&mut b);
    b.state(RUNNING, 0).on_entry(Action::SetContext(3)).install(&mut b);
    let schema = b.build();
    let mut fsm = schema.new(6).unwrap();
    fsm.enqueue(FsmEvent::Event(START)).unwrap();
    assert_eq!(fsm.drive(), Ok(true));
    assert_eq!(fsm.backend.current[0], RUNNING);
    // The entry action ran last.
    assert_eq!(fsm.backend.context, 3);
}

#[test]
fn regions_hold_exactly_one_state_each() {
    let mut b = FsmBuilder::new();
    b.initial_states(vec![1, 3]);
    b.state(1, 0).on_event(START, 2, None, Action::Nop).install(&mut b);
    b.state(2, 0).install(&mut b);
    b.state(3, 1).on_event(STOP, 4, None, Action::Nop).install(&mut b);
    b.state(4, 1).install(&mut b);
    let schema = b.build();
    let mut fsm = schema.new(0).unwrap();
    assert_eq!(fsm.backend.current.len(), 2);
    fsm.enqueue(FsmEvent::Event(START)).unwrap();
    assert_eq!(fsm.drive(), Ok(true));
    assert_eq!(fsm.backend.current.len(), 2);
    assert_eq!(fsm.backend.current[0], 2);
    assert_eq!(fsm.backend.current[1], 3);
    fsm.enqueue(FsmEvent::Event(STOP)).unwrap();
    assert_eq!(fsm.drive(), Ok(true));
    assert_eq!(fsm.backend.current.len(), 2);
    assert_eq!(fsm.backend.current[1], 4);
}

#[test]
fn one_event_can_serve_both_regions() {
    let mut b = FsmBuilder::new();
    b.initial_states(vec![1, 3]);
    b.state(1, 0).on_event(START, 2, None, Action::Nop).install(&mut b);
    b.state(2, 0).install(&mut b);
    b.state(3, 1).on_event(START, 4, None, Action::Nop).install(&mut b);
    b.state(4, 1).install(&mut b);
    let mut fsm = b.build().new(0).unwrap();
    fsm.enqueue(FsmEvent::Event(START)).unwrap();
    assert_eq!(fsm.drive(), Ok(true));
    assert_eq!(fsm.backend.current, vec![2, 4]);
}

#[test]
fn events_debug_marker_has_no_runtime_effect() {
    let mut b = FsmBuilder::new();
    b.events_debug();
    b.initial_state(IDLE);
    b.state(IDLE, 0).on_event(START, RUNNING, None, Action::Nop).install(&mut b);
    b.state(RUNNING, 0).install(&mut b);
    let mut fsm = b.build().new(0).unwrap();
    fsm.enqueue(FsmEvent::Event(START)).unwrap();
    assert_eq!(fsm.drive(), Ok(true));
    assert_eq!(fsm.backend.current[0], RUNNING);
}

#[test]
fn actions_enqueue_for_later_drive_cycles() {
    let mut b = FsmBuilder::new();
    b.initial_state(IDLE);
    b.state(IDLE, 0).on_event(START, RUNNING, None, Action::Enqueue(STOP)).install(&mut b);
    b.state(RUNNING, 0).on_event(STOP, IDLE, None, Action::Nop).install(&mut b);
    let schema = b.build();
    let mut fsm = schema.new(0).unwrap();
    fsm.enqueue(FsmEvent::Event(START)).unwrap();
    assert_eq!(fsm.drive(), Ok(true));
    // The transition ran once; the emitted Stop waits for the next cycle.
    assert_eq!(fsm.backend.current[0], RUNNING);
    assert_eq!(fsm.queue.items, vec![FsmEvent::Event(STOP)]);
    assert_eq!(fsm.drive(), Ok(true));
    assert_eq!(fsm.backend.current[0], IDLE);
    assert_eq!(fsm.queue.items.len(), 0);
}

#[test]
fn process_queue_settles_the_machine() {
    let mut b = FsmBuilder::new();
    b.initial_state(IDLE);
    b.state(IDLE, 0).on_event(START, RUNNING, None, Action::Enqueue(STOP)).install(&mut b);
    b.state(RUNNING, 0).on_event(STOP, IDLE, None, Action::Nop).install(&mut b);
    let schema = b.build();
    let mut fsm = schema.new(0).unwrap();
    fsm.enqueue(FsmEvent::Event(START)).unwrap();
    assert_eq!(fsm.process_queue(16), Ok(2));
    assert_eq!(fsm.backend.current[0], IDLE);
    assert_eq!(fsm.queue.items.len(), 0);
}

const HOLDER: u64 = 2;
const ROUTED: u64 = 50;
const OTHER: u64 = 60;
const CHILD_GO: u64 = 20;
const CHILD_OUT: u64 = 21;
const PARENT_OUT: u64 = 99;

fn child_schema(out_event: u64) -> finny::decl::BuiltFsm {
    let mut c = FsmBuilder::new();
    c.initial_state(1);
    c.state(1, 0).on_event(CHILD_GO, 2, None, Action::Enqueue(out_event)).install(&mut c);
    c.state(2, 0).install(&mut c);
    c.build()
}

fn parent_schema(child_out: u64, mapped: bool) -> finny::decl::BuiltFsm {
    let mut b = FsmBuilder::new();
    b.initial_state(HOLDER);
    b.state(1, 0).install(&mut b);
    b.state(HOLDER, 0).install(&mut b);
    let event_out = if mapped { vec![(CHILD_OUT, PARENT_OUT)] } else { vec![] };
    b.sub_machine(
        HOLDER,
        child_schema(child_out),
        0,
        vec![(ROUTED, CHILD_GO)],
        event_out,
        vec![],
    );
    b.build()
}

#[test]
fn sub_machine_event_routing_keeps_fifo_order() {
    let mut fsm = parent_schema(CHILD_OUT, true).new(0).unwrap();
    fsm.enqueue(FsmEvent::Event(ROUTED)).unwrap();
    fsm.enqueue(FsmEvent::Event(OTHER)).unwrap();
    assert_eq!(fsm.drive(), Ok(true));
    // The parent's own state is untouched; the child stepped.
    assert_eq!(fsm.backend.current[0], HOLDER);
    assert_eq!(fsm.backend.subs[0].current[0], 2);
    // The adapter's event sits behind the earlier enqueued one.
    assert_eq!(fsm.queue.items, vec![FsmEvent::Event(OTHER), FsmEvent::Event(PARENT_OUT)]);
    // It is dispatched exactly once, after everything enqueued before it.
    assert_eq!(fsm.drive(), Ok(true));
    assert_eq!(fsm.drive(), Ok(true));
    assert_eq!(fsm.queue.items.len(), 0);
}

#[test]
fn sub_machine_missing_out_conversion_is_structural() {
    let mut fsm = parent_schema(77, false).new(0).unwrap();
    fsm.enqueue(FsmEvent::Event(ROUTED)).unwrap();
    assert_eq!(fsm.drive(), Err(FsmError::MissingConversion));
    assert_eq!(fsm.queue.items.len(), 0);
}

#[test]
fn process_queue_surfaces_structural_errors() {
    let mut fsm = parent_schema(77, false).new(0).unwrap();
    fsm.enqueue(FsmEvent::Event(ROUTED)).unwrap();
    assert_eq!(fsm.process_queue(8), Err(FsmError::MissingConversion));
}

#[test]
fn unrouted_event_leaves_sub_machine_alone() {
    let mut fsm = parent_schema(CHILD_OUT, true).new(0).unwrap();
    fsm.enqueue(FsmEvent::Event(888)).unwrap();
    assert_eq!(fsm.drive(), Ok(true));
    assert_eq!(fsm.backend.subs[0].current[0], 1);
    assert_eq!(fsm.queue.items.len(), 0);
}

#[test]
fn invalid_schema_is_refused() {
    let mut b = FsmBuilder::new();
    b.initial_state(IDLE);
    // The initial state is never declared.
    let schema = b.build();
    assert!(matches!(schema.new(0), Err(FsmError::InvalidSchema)));
}

#[test]
fn duplicate_transition_key_is_refused() {
    let mut b = FsmBuilder::new();
    b.initial_state(IDLE);
    b.state(IDLE, 0)
        .on_event(START, RUNNING, None, Action::Nop)
        .on_event(START, IDLE, None, Action::Nop)
        .install(&mut b);
    b.state(RUNNING, 0).install(&mut b);
    let schema = b.build();
    assert!(matches!(schema.new(0), Err(FsmError::InvalidSchema)));
}

#[test]
fn to_event_context_borrows_context_and_region() {
    let fsm = idle_running_schema().new(42).unwrap();
    let ec = fsm.to_event_context(0);
    assert_eq!(ec.context, 42);
    assert_eq!(ec.region, 0);
}

#[test]
fn guards_evaluate_over_the_context() {
    assert!(finny::events::eval_guard(&Guard::ContextEquals(3), 3));
    assert!(!finny::events::eval_guard(&Guard::ContextEquals(3), 4));
    assert!(finny::events::eval_guard(&Guard::ContextAtLeast(3), 3));
    assert!(!finny::events::eval_guard(&Guard::ContextAtLeast(3), 2));
    assert!(finny::events::eval_guard(&Guard::ContextAtMost(3), 3));
    assert!(!finny::events::eval_guard(&Guard::ContextAtMost(3), 4));
}
