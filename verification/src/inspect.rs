//! The instrumentation capability: observers of everything the dispatch
//! engine does. Every method must be safe to no-op; the null baseline
//! proves it.
use vstd::prelude::*;

use crate::events::{FsmError, FsmEvent};

verus! {

/// Notifications of dispatch-relevant moments, plus narrowing: an
/// instrumentation value can produce a fresh child value scoped to a
/// sub-machine, a transition, or a timer, and is discarded when that scope
/// ends. No contract is attached: instrumentation never influences what
/// the engine decides.
pub trait Inspect: Sized {
    /// A new event was taken up for dispatch.
    fn new_event(&self, ev: &FsmEvent) -> Self;

    /// A narrowed value scoped to one transition.
    fn for_transition(&self) -> Self;

    /// A narrowed value scoped to the sub-machine embedded in the given
    /// parent state.
    fn for_sub_machine(&self, parent_state: u64) -> Self;

    /// A narrowed value scoped to one timer.
    fn for_timer(&self, timer_id: u64) -> Self;

    /// A guard was evaluated.
    fn on_guard(&self, guard_result: bool);

    /// A state is being entered.
    fn on_state_enter(&self, state: u64);

    /// A state is being exited.
    fn on_state_exit(&self, state: u64);

    /// A transition action is being run.
    fn on_action(&self, state: u64);

    /// The dispatch of one event finished.
    fn event_done(&self);

    /// A recovered failure: reported, never propagated.
    fn on_error(&self, msg: &str, error: &FsmError);

    /// Free-text information.
    fn info(&self, msg: &str);
}

/// The no-op baseline of the instrumentation capability.
#[derive(Clone, Copy, Debug)]
pub struct InspectNull;

impl InspectNull {
    pub fn new() -> (r: InspectNull) {
        InspectNull
    }
}

impl Inspect for InspectNull {
    fn new_event(&self, ev: &FsmEvent) -> Self {
        InspectNull
    }

    fn for_transition(&self) -> Self {
        InspectNull
    }

    fn for_sub_machine(&self, parent_state: u64) -> Self {
        InspectNull
    }

    fn for_timer(&self, timer_id: u64) -> Self {
        InspectNull
    }

    fn on_guard(&self, guard_result: bool) {
    }

    fn on_state_enter(&self, state: u64) {
    }

    fn on_state_exit(&self, state: u64) {
    }

    fn on_action(&self, state: u64) {
    }

    fn event_done(&self) {
    }

    fn on_error(&self, msg: &str, error: &FsmError) {
    }

    fn info(&self, msg: &str) {
    }
}

} // verus!
