use finny::decl::FsmBuilder;
use finny::events::{Action, FsmEvent};
use finny::frontend::FsmFactory;
use finny::timers::TimerFsmSettings;

const HOLDER: u64 = 2;

fn grandchild() -> finny::decl::BuiltFsm {
    let mut g = FsmBuilder::new();
    g.initial_state(1);
    g.state(1, 0).on_event(30, 2, None, Action::Enqueue(31)).install(&mut g);
    g.state(2, 0).install(&mut g);
    g.build()
}

fn child_wrapping_grandchild() -> finny::decl::BuiltFsm {
    let mut c = FsmBuilder::new();
    c.initial_state(3);
    c.state(3, 0).install(&mut c);
    c.sub_machine(3, grandchild(), 0, vec![(20, 30)], vec![(31, 22)], vec![]);
    c.build()
}

#[test]
fn two_levels_of_routing_and_translation() {
    let mut b = FsmBuilder::new();
    b.initial_state(HOLDER);
    b.state(HOLDER, 0).install(&mut b);
    b.sub_machine(HOLDER, child_wrapping_grandchild(), 0, vec![(50, 20)], vec![(22, 99)], vec![]);
    let mut fsm = b.build().new(0).unwrap();
    fsm.enqueue(FsmEvent::Event(50)).unwrap();
    assert_eq!(fsm.drive(), Ok(true));
    // The event travelled root -> child -> grandchild; the grandchild's
    // emission travelled back out, translated at each adapter.
    assert_eq!(fsm.backend.subs[0].subs[0].current[0], 2);
    assert_eq!(fsm.queue.items, vec![FsmEvent::Event(99)]);
}

fn child_with_timer() -> finny::decl::BuiltFsm {
    let mut c = FsmBuilder::new();
    c.initial_state(1);
    c.state(1, 0).on_event(20, 2, None, Action::Nop).install(&mut c);
    let settings = TimerFsmSettings { timeout: 3, ..TimerFsmSettings::default() };
    c.state(2, 0)
        .on_entry_start_timer(settings, Some(12))
        .with_timer_ty(5)
        .install(&mut c);
    c.build()
}

fn parent_with_timed_child() -> finny::decl::BuiltFsm {
    let mut b = FsmBuilder::new();
    b.initial_state(HOLDER);
    b.state(HOLDER, 0).install(&mut b);
    b.sub_machine(
        HOLDER,
        child_with_timer(),
        0,
        vec![(50, 20)],
        vec![(12, 97)],
        vec![(5, 105)],
    );
    b.build()
}

#[test]
fn sub_machine_timer_created_under_translated_identifier() {
    let mut fsm = parent_with_timed_child().new(0).unwrap();
    fsm.enqueue(FsmEvent::Event(50)).unwrap();
    assert_eq!(fsm.drive(), Ok(true));
    // The child entered its timed state: the physical timer lives in the
    // parent's capability under the adapter's identifier, while the
    // child's slot keeps its own.
    assert_eq!(fsm.backend.subs[0].current[0], 2);
    assert!(fsm.timers.items.contains(&105));
    assert_eq!(fsm.backend.subs[0].timer_slots[0].unwrap().id, 5);
}

#[test]
fn fired_sub_timer_routes_back_into_the_child() {
    let mut fsm = parent_with_timed_child().new(0).unwrap();
    fsm.enqueue(FsmEvent::Event(50)).unwrap();
    assert_eq!(fsm.drive(), Ok(true));
    fsm.timers.fire(105);
    assert_eq!(fsm.poll_timers(4).triggered_events, 1);
    assert_eq!(fsm.queue.items, vec![FsmEvent::Timer(105)]);
    // The root finds no such timer of its own, follows the adapter table
    // back into the child, and the child's trigger event comes out
    // translated into the root's namespace.
    assert_eq!(fsm.drive(), Ok(true));
    assert_eq!(fsm.queue.items, vec![FsmEvent::Event(97)]);
}
