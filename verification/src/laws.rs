//! The engine's general guarantees, stated once as theorems over the
//! dispatch relation that `dispatch_event` and `drive` establish.
use vstd::prelude::*;

use crate::backend::{backend_inv, slot_ok, FsmBackendImpl};
use crate::decl::{state_decl, the_transition, BuiltFsm};
use crate::dispatch::{
    dispatch_rel, no_consumer, plain_guard_false, sole_consumer, sole_outcome, timer_decl_index,
    trigger_outcome, has_timer_decl,
};
use crate::events::{FsmError, FsmEvent, FsmResult};

verus! {

/// Every dispatch keeps one state per region: the region count never
/// changes, and each region's current state stays a declared state of
/// that region — that is what the preserved core invariant says.
pub proof fn lemma_regions_preserved(
    s: BuiltFsm,
    pre: FsmBackendImpl,
    ev: FsmEvent,
    post: FsmBackendImpl,
    emits: Seq<u64>,
    res: FsmResult<()>,
)
    requires
        backend_inv(s, pre),
        backend_inv(s, post),
        dispatch_rel(s, pre, ev, post, emits, res),
    ensures
        post.current@.len() == pre.current@.len(),
        post.current@.len() == s.initial@.len(),
        forall|r: int|
            0 <= r < post.current@.len() ==> state_decl(s, #[trigger] post.current@[r]).region
                == r,
{
}

/// Dispatching an event with no matching handler in any region is a
/// no-op: context, states and timer slots are unchanged, nothing is
/// emitted, and it is not an error.
pub proof fn lemma_unhandled_event_noop(
    s: BuiltFsm,
    pre: FsmBackendImpl,
    eid: u64,
    post: FsmBackendImpl,
    emits: Seq<u64>,
    res: FsmResult<()>,
)
    requires
        dispatch_rel(s, pre, FsmEvent::Event(eid), post, emits, res),
        no_consumer(s, pre, eid),
    ensures
        post == pre,
        emits == Seq::<u64>::empty(),
        res is Ok,
{
}

/// If a guard rejects the event in the region that alone consumes it,
/// the machine is unchanged and the event is dropped: no exit action, no
/// entry action, no emission, no error.
pub proof fn lemma_guard_false_noop(
    s: BuiltFsm,
    pre: FsmBackendImpl,
    r: int,
    eid: u64,
    post: FsmBackendImpl,
    emits: Seq<u64>,
    res: FsmResult<()>,
)
    requires
        dispatch_rel(s, pre, FsmEvent::Event(eid), post, emits, res),
        sole_consumer(s, pre, r, eid),
        plain_guard_false(s, pre, r, eid),
    ensures
        post == pre,
        emits == Seq::<u64>::empty(),
        res is Ok,
{
    assert(sole_outcome(s, pre, post, r, eid, emits, res));
    assert(!guard_opt_holds_here(s, pre, r, eid));
}

/// The guard of the sole matching transition, evaluated on the context
/// as dispatch sees it.
pub open spec fn guard_opt_holds_here(s: BuiltFsm, pre: FsmBackendImpl, r: int, eid: u64) -> bool {
    crate::events::guard_opt_passes(
        the_transition(s, r, pre.current@[r], eid).guard,
        pre.context,
    )
}

/// A live timer instance whose settings ask for cancellation on exit only
/// exists while its owning state is current: the timer invariant carried
/// by every well-formed machine.
pub proof fn lemma_timer_instance_owner_current(s: BuiltFsm, m: FsmBackendImpl, k: int)
    requires
        backend_inv(s, m),
        0 <= k < m.timer_slots@.len(),
        m.timer_slots@[k] is Some,
        m.timer_slots@[k].unwrap().settings.cancel_on_state_exit,
    ensures
        m.current@[state_decl(s, s.timers@[k].state).region as int] == s.timers@[k].state,
{
    assert(slot_ok(s, m, k));
}

/// The start half of the timer lifecycle: at a state entry under a
/// capability that never refuses a creation, every enabled timer of the
/// entered state whose identifier converts comes up live, holding its
/// declared identifier and settings, and its physical timer is active
/// under the converted identifier.
pub proof fn lemma_reliable_entry_starts_timer(
    s: BuiltFsm,
    post: Seq<Option<crate::timers::TimerInstance>>,
    state: u64,
    k: int,
    tmap: Option<Seq<(u64, u64)>>,
    active: Set<u64>,
)
    requires
        crate::dispatch::enter_slot_capability_ok(s, post, state, k, tmap, true, active),
        0 <= k < s.timers@.len(),
        s.timers@[k].state == state,
        s.timers@[k].settings.enabled,
        crate::dispatch::physical_id(tmap, s.timers@[k].timer_id) is Some,
    ensures
        post[k] == Some(
            crate::timers::TimerInstance {
                id: s.timers@[k].timer_id,
                settings: s.timers@[k].settings,
            },
        ),
        active.contains(crate::dispatch::physical_id(tmap, s.timers@[k].timer_id).unwrap()),
{
}

/// The other direction of the start half: a live instance can only come
/// from an accepted creation — at a state entry, a slot holding an
/// instance implies its physical timer is active afterwards, so a
/// capability that refused (or could create nothing) provably leaves the
/// slot empty. A TimerInstance therefore exists only from a state's
/// successful entry onward.
pub proof fn lemma_timer_instance_needs_active(
    s: BuiltFsm,
    post: Seq<Option<crate::timers::TimerInstance>>,
    state: u64,
    k: int,
    tmap: Option<Seq<(u64, u64)>>,
    cap_reliable: bool,
    active: Set<u64>,
)
    requires
        crate::dispatch::enter_slot_capability_ok(s, post, state, k, tmap, cap_reliable, active),
        0 <= k < s.timers@.len(),
        s.timers@[k].state == state,
        s.timers@[k].settings.enabled,
        post[k] is Some,
    ensures
        match crate::dispatch::physical_id(tmap, s.timers@[k].timer_id) {
            Some(pid) => active.contains(pid),
            None => false,
        },
{
}

/// A trigger for a declared timer with no live instance enqueues nothing
/// and reports `TimerNotStarted`: the machine tolerates a timer that
/// fired after being logically cancelled by simply discarding it.
pub proof fn lemma_dead_trigger_rejected(s: BuiltFsm, m: FsmBackendImpl, tid: u64)
    requires
        has_timer_decl(s, tid),
        m.timer_slots@[timer_decl_index(s, tid)] is None,
    ensures
        trigger_outcome(s, m, tid).0 == FsmResult::<()>::Err(FsmError::TimerNotStarted),
        trigger_outcome(s, m, tid).1 == Seq::<u64>::empty(),
{
}

/// A drive step appends what the dispatch emitted behind everything that
/// was already queued: an event a sub-machine's queue adapter enqueued
/// lands in the parent's FIFO behind every previously enqueued event and
/// in emission order, so it is dequeued exactly once, after all of them.
pub proof fn lemma_emission_order(qpre: Seq<FsmEvent>, qpost: Seq<FsmEvent>, emits: Seq<u64>)
    requires
        qpre.len() > 0,
        qpost == qpre.drop_first() + crate::frontend::emits_to_events(emits),
    ensures
        qpost.len() == qpre.len() - 1 + emits.len(),
        forall|j: int| 0 <= j < qpre.len() - 1 ==> qpost[j] == qpre[j + 1],
        forall|k: int|
            0 <= k < emits.len() ==> qpost[qpre.len() - 1 + k] == FsmEvent::Event(emits[k]),
{
    assert forall|k: int| 0 <= k < emits.len() implies qpost[qpre.len() - 1 + k]
        == FsmEvent::Event(emits[k]) by {
        assert(crate::frontend::emits_to_events(emits)[k] == FsmEvent::Event(emits[k]));
    }
}

} // verus!
