//! The declarative layer: a builder that assembles the compiled schema of
//! one machine, and the well-formedness that the factory checks once before
//! the machine is ever driven.
//!
//! A schema is plain data: the initial state of every region, the declared
//! states with their entry and exit actions, the transition table, the
//! per-state timers, and the embedded sub-machines with the conversion
//! tables of their namespace adapters.
use vstd::prelude::*;

use crate::events::{Action, Guard};
use crate::timers::TimerFsmSettings;

verus! {

/// One row of the compiled transition table.
#[derive(Clone, Copy, Debug)]
pub struct Transition {
    /// The region this row belongs to; both ends lie in it.
    pub region: usize,
    pub from: u64,
    pub event: u64,
    pub to: u64,
    /// Evaluated before the transition; `None` is always eligible.
    pub guard: Option<Guard>,
    /// Run between the exit and the entry action.
    pub action: Action,
}

/// One declared state.
#[derive(Clone, Copy, Debug)]
pub struct StateDecl {
    pub id: u64,
    pub region: usize,
    pub entry: Action,
    pub exit: Action,
}

/// One per-state timer: started on entry when enabled, possibly cancelled
/// on exit, yielding `trigger_event` when it fires.
#[derive(Clone, Copy, Debug)]
pub struct TimerDecl {
    pub state: u64,
    pub timer_id: u64,
    pub settings: TimerFsmSettings,
    pub trigger_event: Option<u64>,
}

/// One embedded sub-machine: the parent state that stands for "inside the
/// sub-machine", the child's schema, its starting context, and the
/// conversion tables of the namespace adapters.
pub struct SubDecl {
    pub parent_state: u64,
    /// Parent event to child event: which events are routed inside.
    pub event_in: Vec<(u64, u64)>,
    /// Child event to parent event: the queue adapter's table.
    pub event_out: Vec<(u64, u64)>,
    /// Child timer to parent timer: the timer adapter's table.
    pub timer_out: Vec<(u64, u64)>,
    /// The context value the child starts with.
    pub initial_context: i64,
    pub child: BuiltFsm,
}

/// The compiled, immutable schema of one machine.
pub struct BuiltFsm {
    /// Initial state of each region; the length is the region count.
    pub initial: Vec<u64>,
    pub states: Vec<StateDecl>,
    pub transitions: Vec<Transition>,
    pub timers: Vec<TimerDecl>,
    pub subs: Vec<SubDecl>,
    /// Nesting bound: strictly greater than every child schema's.
    pub height: u64,
    /// Marker that events should carry a debug form; no runtime meaning.
    pub events_debug: bool,
}

/// Whether some declared state carries `id`.
pub open spec fn state_declared(s: BuiltFsm, id: u64) -> bool {
    exists|i: int| 0 <= i < s.states@.len() && s.states@[i].id == id
}

/// The declaration of state `id` (meaningful under `state_declared` and
/// unique under `schema_wf`).
pub open spec fn state_decl(s: BuiltFsm, id: u64) -> StateDecl {
    s.states@[choose|i: int| 0 <= i < s.states@.len() && s.states@[i].id == id]
}

/// Whether a transition row serves (region, from, event).
pub open spec fn trans_matches(t: Transition, region: int, from: u64, eid: u64) -> bool {
    t.region == region && t.from == from && t.event == eid
}

/// Whether the table has a row for (region, from, event).
pub open spec fn has_transition(s: BuiltFsm, region: int, from: u64, eid: u64) -> bool {
    exists|j: int|
        0 <= j < s.transitions@.len() && trans_matches(s.transitions@[j], region, from, eid)
}

/// The single row for (region, from, event) (meaningful under
/// `has_transition` and unique under `schema_wf`).
pub open spec fn the_transition(s: BuiltFsm, region: int, from: u64, eid: u64) -> Transition {
    s.transitions@[choose|j: int|
        0 <= j < s.transitions@.len() && trans_matches(s.transitions@[j], region, from, eid)]
}

/// Whether `state` wraps an embedded sub-machine.
pub open spec fn has_sub(s: BuiltFsm, state: u64) -> bool {
    exists|i: int| 0 <= i < s.subs@.len() && s.subs@[i].parent_state == state
}

/// The index of the sub-machine wrapped by `state` (meaningful under
/// `has_sub` and unique under `schema_wf`).
pub open spec fn sub_index(s: BuiltFsm, state: u64) -> int {
    choose|i: int| 0 <= i < s.subs@.len() && s.subs@[i].parent_state == state
}

/// The conditions on one schema level, child schemas not yet included.
pub open spec fn schema_wf_local(s: BuiltFsm) -> bool {
    &&& 1 <= s.initial@.len()
    &&& (forall|i: int, j: int|
        0 <= i < j < s.states@.len() ==> s.states@[i].id != s.states@[j].id)
    &&& (forall|i: int|
        0 <= i < s.states@.len() ==> (#[trigger] s.states@[i]).region < s.initial@.len())
    &&& (forall|r: int|
        0 <= r < s.initial@.len() ==> state_declared(s, #[trigger] s.initial@[r]) && state_decl(
            s,
            s.initial@[r],
        ).region == r)
    &&& (forall|i: int|
        0 <= i < s.transitions@.len() ==> {
            let t = #[trigger] s.transitions@[i];
            &&& state_declared(s, t.from)
            &&& state_declared(s, t.to)
            &&& state_decl(s, t.from).region == t.region
            &&& state_decl(s, t.to).region == t.region
        })
    &&& (forall|i: int, j: int|
        0 <= i < j < s.transitions@.len() ==> !(s.transitions@[i].region == s.transitions@[j].region
            && s.transitions@[i].from == s.transitions@[j].from && s.transitions@[i].event
            == s.transitions@[j].event))
    &&& (forall|i: int|
        0 <= i < s.timers@.len() ==> state_declared(s, (#[trigger] s.timers@[i]).state))
    &&& (forall|i: int, j: int|
        0 <= i < j < s.timers@.len() ==> s.timers@[i].timer_id != s.timers@[j].timer_id)
    &&& (forall|i: int|
        0 <= i < s.subs@.len() ==> state_declared(s, (#[trigger] s.subs@[i]).parent_state))
    &&& (forall|i: int, j: int|
        0 <= i < j < s.subs@.len() ==> s.subs@[i].parent_state != s.subs@[j].parent_state)
}

/// A well-formed schema: every level is locally well formed and every
/// embedded child sits strictly below its parent's nesting bound.
pub open spec fn schema_wf(s: BuiltFsm) -> bool
    decreases s.height,
{
    schema_wf_local(s) && (forall|i: int|
        0 <= i < s.subs@.len() ==> (#[trigger] s.subs@[i]).child.height < s.height && schema_wf(
            s.subs@[i].child,
        ))
}

/// The builder API for defining a machine: collect regions, states,
/// transitions, timers and sub-machines, then `build` the schema.
pub struct FsmBuilder {
    pub initial: Vec<u64>,
    pub states: Vec<StateDecl>,
    pub transitions: Vec<Transition>,
    pub timers: Vec<TimerDecl>,
    pub subs: Vec<SubDecl>,
    pub height: u64,
    pub events_debug: bool,
}

impl FsmBuilder {
    /// A builder with no regions, states or transitions yet.
    pub fn new() -> (r: FsmBuilder)
        ensures
            r.initial@ == Seq::<u64>::empty(),
            r.states@ == Seq::<StateDecl>::empty(),
            r.transitions@ == Seq::<Transition>::empty(),
            r.timers@ == Seq::<TimerDecl>::empty(),
            r.subs@ == Seq::<SubDecl>::empty(),
            r.height == 1,
            r.events_debug == false,
    {
        FsmBuilder {
            initial: Vec::new(),
            states: Vec::new(),
            transitions: Vec::new(),
            timers: Vec::new(),
            subs: Vec::new(),
            height: 1,
            events_debug: false,
        }
    }

    /// Set the initial state of a single-region machine.
    pub fn initial_state(&mut self, state: u64)
        ensures
            final(self).initial@ == seq![state],
            unchanged_but_initial(*old(self), *final(self)),
    {
        self.initial = Vec::new();
        self.initial.push(state);
    }

    /// Set the initial states of a multi-region machine, one per region,
    /// region by region.
    pub fn initial_states(&mut self, states: Vec<u64>)
        ensures
            final(self).initial@ == states@,
            unchanged_but_initial(*old(self), *final(self)),
    {
        self.initial = states;
    }

    /// Mark that events should carry a debug form; a marker only.
    pub fn events_debug(&mut self)
        ensures
            final(self).events_debug == true,
            final(self).initial@ == old(self).initial@,
            final(self).states@ == old(self).states@,
            final(self).transitions@ == old(self).transitions@,
            final(self).timers@ == old(self).timers@,
            final(self).subs@ == old(self).subs@,
            final(self).height == old(self).height,
    {
        self.events_debug = true;
    }

    /// Open the declaration of one state of one region. The returned
    /// builder is configured by value and handed back with `install`.
    pub fn state(&mut self, id: u64, region: usize) -> (r: FsmStateBuilder)
        ensures
            *final(self) == *old(self),
            r.state == id,
            r.region == region,
            r.entry == Action::Nop,
            r.exit == Action::Nop,
            r.transitions@ == Seq::<Transition>::empty(),
            r.timers@ == Seq::<TimerDecl>::empty(),
    {
        FsmStateBuilder {
            state: id,
            region,
            entry: Action::Nop,
            exit: Action::Nop,
            transitions: Vec::new(),
            timers: Vec::new(),
        }
    }

    /// Embed a sub-machine under `parent_state`: while that state is
    /// current, routed events are dispatched inside the child rather than
    /// transitioning the parent.
    pub fn sub_machine(
        &mut self,
        parent_state: u64,
        child: BuiltFsm,
        initial_context: i64,
        event_in: Vec<(u64, u64)>,
        event_out: Vec<(u64, u64)>,
        timer_out: Vec<(u64, u64)>,
    )
        requires
            child.height < u64::MAX,
        ensures
            final(self).subs@ == old(self).subs@.push(
                SubDecl {
                    parent_state,
                    event_in,
                    event_out,
                    timer_out,
                    initial_context,
                    child,
                },
            ),
            final(self).height == if old(self).height > child.height + 1 {
                old(self).height
            } else {
                (child.height + 1) as u64
            },
            final(self).initial@ == old(self).initial@,
            final(self).states@ == old(self).states@,
            final(self).transitions@ == old(self).transitions@,
            final(self).timers@ == old(self).timers@,
            final(self).events_debug == old(self).events_debug,
    {
        if self.height <= child.height {
            self.height = child.height + 1;
        }
        self.subs.push(
            SubDecl { parent_state, event_in, event_out, timer_out, initial_context, child },
        );
    }

    /// Close the definition and hand out the immutable schema.
    pub fn build(self) -> (r: BuiltFsm)
        ensures
            r.initial@ == self.initial@,
            r.states@ == self.states@,
            r.transitions@ == self.transitions@,
            r.timers@ == self.timers@,
            r.subs@ == self.subs@,
            r.height == self.height,
            r.events_debug == self.events_debug,
    {
        BuiltFsm {
            initial: self.initial,
            states: self.states,
            transitions: self.transitions,
            timers: self.timers,
            subs: self.subs,
            height: self.height,
            events_debug: self.events_debug,
        }
    }
}

/// Everything of a builder except the initial states is the same.
pub open spec fn unchanged_but_initial(a: FsmBuilder, b: FsmBuilder) -> bool {
    &&& b.states@ == a.states@
    &&& b.transitions@ == a.transitions@
    &&& b.timers@ == a.timers@
    &&& b.subs@ == a.subs@
    &&& b.height == a.height
    &&& b.events_debug == a.events_debug
}

/// The declaration of one state, configured by value: entry and exit
/// actions, the transitions leaving it, and its timers.
pub struct FsmStateBuilder {
    pub state: u64,
    pub region: usize,
    pub entry: Action,
    pub exit: Action,
    pub transitions: Vec<Transition>,
    pub timers: Vec<TimerDecl>,
}

impl FsmStateBuilder {
    /// Run this action when entering the state.
    pub fn on_entry(self, action: Action) -> (r: FsmStateBuilder)
        ensures
            r == (FsmStateBuilder { entry: action, ..self }),
    {
        FsmStateBuilder { entry: action, ..self }
    }

    /// Run this action when exiting the state.
    pub fn on_exit(self, action: Action) -> (r: FsmStateBuilder)
        ensures
            r == (FsmStateBuilder { exit: action, ..self }),
    {
        FsmStateBuilder { exit: action, ..self }
    }

    /// When this event arrives in this state, transition to `target` —
    /// guard permitting — running `action` along the way.
    pub fn on_event(self, event: u64, target: u64, guard: Option<Guard>, action: Action) -> (r:
        FsmStateBuilder)
        ensures
            r.transitions@ == self.transitions@.push(
                Transition {
                    region: self.region,
                    from: self.state,
                    event,
                    to: target,
                    guard,
                    action,
                },
            ),
            r.state == self.state,
            r.region == self.region,
            r.entry == self.entry,
            r.exit == self.exit,
            r.timers@ == self.timers@,
    {
        let region = self.region;
        let from = self.state;
        let mut r = self;
        r.transitions.push(Transition { region, from, event, to: target, guard, action });
        r
    }

    /// Start a timer with these settings when entering this state; when it
    /// fires, `trigger_event` (if any) is enqueued. Closed by
    /// `with_timer_ty`, which names the timer.
    pub fn on_entry_start_timer(self, settings: TimerFsmSettings, trigger_event: Option<u64>) -> (r:
        FsmStateTimerBuilder)
        ensures
            r.state == self,
            r.settings == settings,
            r.trigger_event == trigger_event,
    {
        FsmStateTimerBuilder { state: self, settings, trigger_event }
    }

    /// Hand the configured state back to the machine's builder.
    pub fn install(self, fsm: &mut FsmBuilder)
        ensures
            final(fsm).states@ == old(fsm).states@.push(
                StateDecl {
                    id: self.state,
                    region: self.region,
                    entry: self.entry,
                    exit: self.exit,
                },
            ),
            final(fsm).transitions@ == old(fsm).transitions@ + self.transitions@,
            final(fsm).timers@ == old(fsm).timers@ + self.timers@,
            final(fsm).initial@ == old(fsm).initial@,
            final(fsm).subs@ == old(fsm).subs@,
            final(fsm).height == old(fsm).height,
            final(fsm).events_debug == old(fsm).events_debug,
    {
        fsm.states.push(
            StateDecl { id: self.state, region: self.region, entry: self.entry, exit: self.exit },
        );
        let mut ts = self.transitions;
        fsm.transitions.append(&mut ts);
        let mut tm = self.timers;
        fsm.timers.append(&mut tm);
    }
}

/// A state's timer declaration, waiting for its identifier.
pub struct FsmStateTimerBuilder {
    pub state: FsmStateBuilder,
    pub settings: TimerFsmSettings,
    pub trigger_event: Option<u64>,
}

impl FsmStateTimerBuilder {
    /// Name the timer and return to the state's builder.
    pub fn with_timer_ty(self, timer_id: u64) -> (r: FsmStateBuilder)
        ensures
            r.timers@ == self.state.timers@.push(
                TimerDecl {
                    state: self.state.state,
                    timer_id,
                    settings: self.settings,
                    trigger_event: self.trigger_event,
                },
            ),
            r.state == self.state.state,
            r.region == self.state.region,
            r.entry == self.state.entry,
            r.exit == self.state.exit,
            r.transitions@ == self.state.transitions@,
    {
        let state_id = self.state.state;
        let mut r = self.state;
        r.timers.push(
            TimerDecl {
                state: state_id,
                timer_id,
                settings: self.settings,
                trigger_event: self.trigger_event,
            },
        );
        r
    }
}

} // verus!
