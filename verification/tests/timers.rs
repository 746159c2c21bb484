use finny::decl::FsmBuilder;
use finny::dispatch::execute_trigger;
use finny::events::{Action, FsmError, FsmEvent};
use finny::frontend::FsmFactory;
use finny::inspect::InspectNull;
use finny::queue::{FsmEventQueue, FsmEventQueueBounded, FsmEventQueueVec};
use finny::timers::{
    FsmTimers, FsmTimersNull, FsmTimersSub, FsmTimersVec, TimerFsmSettings,
};

const IDLE: u64 = 1;
const RUNNING: u64 = 2;
const START: u64 = 10;
const STOP: u64 = 11;
const TICK: u64 = 12;
const RUN_TIMER: u64 = 100;

fn timer_schema() -> finny::decl::BuiltFsm {
    let mut b = FsmBuilder::new();
    b.initial_state(IDLE);
    b.state(IDLE, 0).on_event(START, RUNNING, None, Action::Nop).install(&mut b);
    let settings = TimerFsmSettings {
        enabled: true,
        timeout: 5,
        renew: false,
        cancel_on_state_exit: true,
    };
    b.state(RUNNING, 0)
        .on_event(STOP, IDLE, None, Action::Nop)
        .on_entry_start_timer(settings, Some(TICK))
        .with_timer_ty(RUN_TIMER)
        .install(&mut b);
    b.build()
}

#[test]
fn entry_starts_timer_and_firing_enqueues_tick() {
    let mut fsm = timer_schema().new(0).unwrap();
    fsm.enqueue(FsmEvent::Event(START)).unwrap();
    assert_eq!(fsm.drive(), Ok(true));
    assert_eq!(fsm.backend.current[0], RUNNING);
    // Entering Running created the physical timer and stored an instance;
    // the capability's log shows the very settings the creation received.
    assert!(fsm.timers.items.contains(&RUN_TIMER));
    assert_eq!(fsm.timers.created.len(), 1);
    assert_eq!(fsm.timers.created[0].0, RUN_TIMER);
    assert_eq!(fsm.timers.created[0].1.timeout, 5);
    assert!(fsm.timers.created[0].1.enabled);
    let inst = fsm.backend.timer_slots[0].unwrap();
    assert_eq!(inst.id, RUN_TIMER);
    assert_eq!(inst.settings.timeout, 5);
    // Firing it while still in Running enqueues the tick event.
    fsm.timers.fire(RUN_TIMER);
    let polled = fsm.poll_timers(8);
    assert_eq!(polled.triggered_events, 1);
    assert_eq!(fsm.queue.items, vec![FsmEvent::Timer(RUN_TIMER)]);
    assert_eq!(fsm.drive(), Ok(true));
    assert_eq!(fsm.queue.items, vec![FsmEvent::Event(TICK)]);
}

#[test]
fn exit_cancels_timer_and_late_trigger_is_discarded() {
    let mut fsm = timer_schema().new(0).unwrap();
    fsm.enqueue(FsmEvent::Event(START)).unwrap();
    assert_eq!(fsm.drive(), Ok(true));
    // The timer fires, but the machine leaves Running before the report
    // is polled: the cancellation clears the instance, not the report.
    fsm.timers.fire(RUN_TIMER);
    fsm.enqueue(FsmEvent::Event(STOP)).unwrap();
    assert_eq!(fsm.drive(), Ok(true));
    assert_eq!(fsm.backend.current[0], IDLE);
    assert!(!fsm.timers.items.contains(&RUN_TIMER));
    assert!(fsm.backend.timer_slots[0].is_none());
    // The late report yields a timer event whose instance is gone: it is
    // discarded, and nothing is enqueued.
    assert_eq!(fsm.poll_timers(8).triggered_events, 1);
    assert_eq!(fsm.drive(), Ok(true));
    assert_eq!(fsm.queue.items.len(), 0);
}

#[test]
fn dead_trigger_reports_timer_not_started() {
    let fsm = timer_schema().new(0).unwrap();
    // Still in Idle: the timer was never started.
    let (res, emitted) = execute_trigger(&fsm.schema, &fsm.backend, RUN_TIMER, &InspectNull::new());
    assert_eq!(res, Err(FsmError::TimerNotStarted));
    assert!(emitted.is_empty());
    // An identifier nobody declared is discarded the same way.
    let (res, emitted) = execute_trigger(&fsm.schema, &fsm.backend, 777, &InspectNull::new());
    assert_eq!(res, Err(FsmError::TimerNotStarted));
    assert!(emitted.is_empty());
}

#[test]
fn null_timers_support_nothing() {
    let mut t = FsmTimersNull;
    let settings = TimerFsmSettings::default().to_timer_settings();
    assert_eq!(t.create(1, &settings), Err(FsmError::NotSupported));
    assert_eq!(t.cancel(1), Err(FsmError::NotSupported));
    assert_eq!(t.get_triggered_timer(), None);
}

#[test]
fn timer_settings_defaults_and_projection() {
    let d = TimerFsmSettings::default();
    assert!(d.enabled);
    assert_eq!(d.timeout, 1);
    assert!(!d.renew);
    assert!(d.cancel_on_state_exit);
    let t = d.to_timer_settings();
    assert!(t.enabled);
    assert_eq!(t.timeout, 1);
    assert!(!t.renew);
}

#[test]
fn disabled_timer_is_never_created() {
    let mut b = FsmBuilder::new();
    b.initial_state(IDLE);
    b.state(IDLE, 0).on_event(START, RUNNING, None, Action::Nop).install(&mut b);
    let settings = TimerFsmSettings { enabled: false, ..TimerFsmSettings::default() };
    b.state(RUNNING, 0)
        .on_entry_start_timer(settings, Some(TICK))
        .with_timer_ty(RUN_TIMER)
        .install(&mut b);
    let mut fsm = b.build().new(0).unwrap();
    fsm.enqueue(FsmEvent::Event(START)).unwrap();
    assert_eq!(fsm.drive(), Ok(true));
    assert!(fsm.timers.items.is_empty());
    assert!(fsm.backend.timer_slots[0].is_none());
}

#[test]
fn timers_with_null_capability_leave_no_instance() {
    let schema = timer_schema();
    let mut fsm = schema
        .new_with(0, FsmEventQueueVec::new(), InspectNull::new(), FsmTimersNull)
        .unwrap();
    fsm.enqueue(FsmEvent::Event(START)).unwrap();
    // Creation fails, is reported, and the machine continues consistently.
    assert_eq!(fsm.drive(), Ok(true));
    assert_eq!(fsm.backend.current[0], RUNNING);
    assert!(fsm.backend.timer_slots[0].is_none());
}

#[test]
fn sub_timer_adapter_translates_identifiers() {
    let adapter = FsmTimersSub { timer_out: vec![(5, 105)] };
    let mut parent = FsmTimersVec::new();
    let settings = TimerFsmSettings::default().to_timer_settings();
    assert_eq!(adapter.create(&mut parent, 5, &settings), Ok(()));
    assert!(parent.items.contains(&105));
    assert_eq!(adapter.cancel(&mut parent, 5), Ok(()));
    assert!(!parent.items.contains(&105));
    assert_eq!(adapter.create(&mut parent, 6, &settings), Err(FsmError::MissingConversion));
    assert_eq!(adapter.get_triggered_timer(), None);
}

#[test]
fn bounded_queue_rejects_over_capacity() {
    let mut q = FsmEventQueueBounded::new(2);
    assert_eq!(q.enqueue(FsmEvent::Event(1)), Ok(()));
    assert_eq!(q.enqueue(FsmEvent::Event(2)), Ok(()));
    assert_eq!(q.enqueue(FsmEvent::Event(3)), Err(FsmError::QueueOverCapacity));
    assert_eq!(q.dequeue(), Some(FsmEvent::Event(1)));
    assert_eq!(q.enqueue(FsmEvent::Event(3)), Ok(()));
    assert_eq!(q.len(), 2);
}

#[test]
fn polling_without_fired_reports_feeds_nothing() {
    let mut fsm = timer_schema().new(0).unwrap();
    let polled = fsm.poll_timers(4);
    assert_eq!(polled.triggered_events, 0);
    assert_eq!(fsm.queue.items.len(), 0);
}

#[test]
fn fired_reports_come_back_in_fifo_order() {
    let mut t = FsmTimersVec::new();
    let settings = TimerFsmSettings::default().to_timer_settings();
    t.create(1, &settings).unwrap();
    t.create(2, &settings).unwrap();
    t.fire(2);
    t.fire(1);
    // Firing an inactive identifier is ignored.
    t.fire(9);
    assert_eq!(t.get_triggered_timer(), Some(2));
    assert_eq!(t.get_triggered_timer(), Some(1));
    assert_eq!(t.get_triggered_timer(), None);
}
