//! The dispatch engine and the timer lifecycle controller.
//!
//! One dispatch takes one dequeued event against the current state of
//! every region: it either runs a transition (exit action, timer
//! cancellation, state swap, transition action, entry action, timer
//! start), routes the event into an embedded sub-machine, or — with no
//! matching handler anywhere — drops it silently. Actions never touch the
//! queue directly; everything they emit is collected and enqueued by the
//! frontend after the dispatch, which is what keeps dispatch free of
//! re-entrancy.
use vstd::prelude::*;

use crate::decl::{
    has_sub, has_transition, schema_wf, state_decl, state_declared, sub_index, the_transition,
    trans_matches, BuiltFsm, Transition,
};
use crate::events::{
    action_context, action_emits, guard_opt_passes, spec_rev_translate, spec_translate,
    eval_guard, rev_translate_id, translate_id, Action, FsmError, FsmEvent, FsmResult,
};
use crate::backend::{
    backend_inv, find_state_idx, lemma_state_decl_at, lemma_sub_at, lemma_transition_at, slot_ok,
    FsmBackendImpl,
};
use crate::inspect::Inspect;
use crate::timers::{spec_timer_settings, FsmTimers, TimerInstance, TimerSettings};

verus! {

/// The transient view handed to an action: the context value it runs over
/// and the region being acted upon. It lives only for one action of one
/// dispatch step.
#[derive(Clone, Copy, Debug)]
pub struct EventContext {
    pub context: i64,
    pub region: usize,
}

/// Run one action: the new context value is exactly `action_context`, and
/// whatever the action emits is appended to `emits` for a later drive
/// cycle.
pub fn run_action(a: &Action, ec: EventContext, emits: &mut Vec<u64>) -> (r: i64)
    ensures
        r == action_context(*a, ec.context),
        final(emits)@ == old(emits)@ + action_emits(*a),
{
    match a {
        Action::Nop => {
            proof {
                assert(old(emits)@ + action_emits(*a) =~= old(emits)@);
            }
            ec.context
        },
        Action::SetContext(v) => {
            proof {
                assert(old(emits)@ + action_emits(*a) =~= old(emits)@);
            }
            *v
        },
        Action::Enqueue(e) => {
            emits.push(*e);
            proof {
                assert(old(emits)@.push(*e) =~= old(emits)@ + action_emits(*a));
            }
            ec.context
        },
    }
}

/// The index of the transition row serving (region, from, event), if any.
pub fn find_transition_idx(ts: &Vec<Transition>, region: usize, from: u64, eid: u64) -> (r: Option<
    usize,
>)
    ensures
        match r {
            Some(j) => j < ts@.len() && trans_matches(ts@[j as int], region as int, from, eid),
            None => forall|j: int|
                0 <= j < ts@.len() ==> !trans_matches(ts@[j], region as int, from, eid),
        },
{
    let mut j: usize = 0;
    while j < ts.len()
        invariant
            j <= ts@.len(),
            forall|a: int| 0 <= a < j ==> !trans_matches(ts@[a], region as int, from, eid),
        decreases ts@.len() - j,
    {
        if ts[j].region == region && ts[j].from == from && ts[j].event == eid {
            return Some(j);
        }
        j = j + 1;
    }
    None
}

/// The index of the sub-machine declaration wrapped by `state`, if any.
pub fn find_sub_idx(s: &BuiltFsm, state: u64) -> (r: Option<usize>)
    ensures
        match r {
            Some(i) => i < s.subs@.len() && s.subs@[i as int].parent_state == state,
            None => !has_sub(*s, state),
        },
{
    let mut i: usize = 0;
    while i < s.subs.len()
        invariant
            i <= s.subs@.len(),
            forall|a: int| 0 <= a < i ==> s.subs@[a].parent_state != state,
        decreases s.subs@.len() - i,
    {
        if s.subs[i].parent_state == state {
            return Some(i);
        }
        i = i + 1;
    }
    None
}

/// A borrowed conversion table as its mathematical form; `None` is the
/// identity.
pub open spec fn table_view(t: Option<&Vec<(u64, u64)>>) -> Option<Seq<(u64, u64)>> {
    match t {
        None => None,
        Some(v) => Some(v@),
    }
}

/// The chained timer table: each entry `(c, p)` of the inner table
/// becomes `(c, root)` where `root` is the outer table's image of `p`, in
/// order; an entry whose parent identifier leads nowhere is left out. No
/// outer table is the identity.
pub open spec fn compose_spec(outer: Option<Seq<(u64, u64)>>, inner: Seq<(u64, u64)>) -> Seq<
    (u64, u64),
>
    decreases inner.len(),
{
    if inner.len() == 0 {
        Seq::empty()
    } else {
        let rest = compose_spec(outer, inner.drop_first());
        match outer {
            None => seq![inner[0]] + rest,
            Some(t) => match spec_translate(t, inner[0].1) {
                Some(root) => seq![(inner[0].0, root)] + rest,
                None => rest,
            },
        }
    }
}

/// Chain a sub-machine's timer conversion table onto the table that leads
/// from its parent to the machine being driven, so that a nested timer is
/// created under the outermost namespace — exactly `compose_spec`.
/// Creating a timer whose entry was left out is then reported and
/// recovered like any other creation failure.
pub fn compose_tables(outer: Option<&Vec<(u64, u64)>>, inner: &Vec<(u64, u64)>) -> (r: Vec<
    (u64, u64),
>)
    ensures
        r@ == compose_spec(table_view(outer), inner@),
{
    let mut out: Vec<(u64, u64)> = Vec::new();
    let mut i: usize = 0;
    let ghost tv = table_view(outer);
    proof {
        assert(inner@.skip(0) =~= inner@);
        assert(Seq::<(u64, u64)>::empty() + compose_spec(tv, inner@) =~= compose_spec(
            tv,
            inner@,
        ));
    }
    while i < inner.len()
        invariant
            i <= inner@.len(),
            tv == table_view(outer),
            out@ + compose_spec(tv, inner@.skip(i as int)) == compose_spec(tv, inner@),
        decreases inner@.len() - i,
    {
        proof {
            assert(inner@.skip(i as int)[0] == inner@[i as int]);
            assert(inner@.skip(i as int).drop_first() =~= inner@.skip(i + 1));
        }
        let ghost rest = compose_spec(tv, inner@.skip(i + 1));
        let (c, p) = inner[i];
        match outer {
            None => {
                let ghost pre_out = out@;
                out.push((c, p));
                proof {
                    assert(pre_out + (seq![(c, p)] + rest) =~= out@ + rest);
                }
            },
            Some(m) => {
                match translate_id(m, p) {
                    Some(root) => {
                        let ghost pre_out = out@;
                        out.push((c, root));
                        proof {
                            assert(pre_out + (seq![(c, root)] + rest) =~= out@ + rest);
                        }
                    },
                    None => {
                    },
                }
            },
        }
        i = i + 1;
    }
    proof {
        assert(inner@.skip(i as int).len() == 0);
        assert(out@ + Seq::<(u64, u64)>::empty() =~= out@);
    }
    out
}

/// What one timer slot holds after its owning state was exited: a live
/// instance configured to be cancelled on exit is gone, anything else is
/// kept.
pub open spec fn exit_slot(
    s: BuiltFsm,
    slots: Seq<Option<TimerInstance>>,
    state: u64,
    k: int,
) -> Option<TimerInstance> {
    match slots[k] {
        Some(inst) => {
            if s.timers@[k].state == state && inst.settings.cancel_on_state_exit {
                None
            } else {
                Some(inst)
            }
        },
        None => None,
    }
}

/// Slot `k` holds a live instance that exiting `state` cancels.
pub open spec fn slot_cancelled(
    s: BuiltFsm,
    slots: Seq<Option<TimerInstance>>,
    state: u64,
    k: int,
) -> bool {
    &&& 0 <= k < slots.len()
    &&& s.timers@[k].state == state
    &&& slots[k] is Some
    &&& slots[k].unwrap().settings.cancel_on_state_exit
}

/// The physical identifiers cancelled by exiting `state`, looking only at
/// the first `kk` slots.
pub open spec fn exit_removed_upto(
    s: BuiltFsm,
    slots: Seq<Option<TimerInstance>>,
    state: u64,
    tmap: Option<Seq<(u64, u64)>>,
    kk: int,
) -> Set<u64> {
    Set::new(
        |p: u64|
            exists|k: int|
                #[trigger] slot_cancelled(s, slots, state, k) && k < kk && physical_id(
                    tmap,
                    slots[k].unwrap().id,
                ) == Some(p),
    )
}

/// The physical identifiers of the live timers that exiting `state`
/// cancels with the capability, under the adapter chain in force.
pub open spec fn exit_removed_ids(
    s: BuiltFsm,
    slots: Seq<Option<TimerInstance>>,
    state: u64,
    tmap: Option<Seq<(u64, u64)>>,
) -> Set<u64> {
    exit_removed_upto(s, slots, state, tmap, slots.len() as int)
}

/// The timer lifecycle at a state-exit boundary: every live timer of the
/// exited state that asks for it is cancelled with the capability and its
/// slot cleared; cancellation failures are reported, never propagated, and
/// the slot is cleared regardless so that no live instance outlasts the
/// state. The capability only ever loses timers here — exactly the
/// cancelled identifiers when it never refuses a cancel — and is untouched
/// when no slot asks for cancellation.
pub fn execute_on_exit<I: Inspect, T: FsmTimers>(
    s: &BuiltFsm,
    slots: &mut Vec<Option<TimerInstance>>,
    state: u64,
    inspect: &I,
    timers: &mut T,
    timer_map: Option<&Vec<(u64, u64)>>,
)
    requires
        old(slots)@.len() == s.timers@.len(),
    ensures
        final(slots)@.len() == old(slots)@.len(),
        forall|k: int|
            0 <= k < old(slots)@.len() ==> final(slots)@[k] == exit_slot(
                *s,
                old(slots)@,
                state,
                k,
            ),
        final(timers).reliable() == old(timers).reliable(),
        final(timers).active().subset_of(old(timers).active()),
        old(timers).reliable() ==> final(timers).active() =~= old(timers).active().difference(
            exit_removed_ids(*s, old(slots)@, state, table_view(timer_map)),
        ),
        (forall|a: int|
            !slot_cancelled(*s, old(slots)@, state, a)) ==> *final(timers) == *old(timers),
{
    let mut k: usize = 0;
    while k < slots.len()
        invariant
            slots@.len() == old(slots)@.len(),
            old(slots)@.len() == s.timers@.len(),
            k <= slots@.len(),
            forall|a: int| 0 <= a < k ==> slots@[a] == exit_slot(*s, old(slots)@, state, a),
            forall|a: int| k <= a < slots@.len() ==> slots@[a] == old(slots)@[a],
            timers.reliable() == old(timers).reliable(),
            timers.active().subset_of(old(timers).active()),
            old(timers).reliable() ==> timers.active() =~= old(timers).active().difference(
                exit_removed_upto(*s, old(slots)@, state, table_view(timer_map), k as int),
            ),
            (forall|a: int|
                !slot_cancelled(*s, old(slots)@, state, a)) ==> *timers == *old(timers),
        decreases slots@.len() - k,
    {
        let ghost pre_active = timers.active();
        let slot = slots[k];
        proof {
            assert(slot == old(slots)@[k as int]);
        }
        match slot {
            Some(inst) => {
                if s.timers[k].state == state && inst.settings.cancel_on_state_exit {
                    let log = inspect.for_timer(inst.id);
                    let physical = match timer_map {
                        None => Some(inst.id),
                        Some(m) => translate_id(m, inst.id),
                    };
                    match physical {
                        Some(pid) => {
                            proof {
                                assert(slot_cancelled(*s, old(slots)@, state, k as int));
                                assert forall|p: u64|
                                    exit_removed_upto(
                                        *s,
                                        old(slots)@,
                                        state,
                                        table_view(timer_map),
                                        k + 1,
                                    ).contains(p) <==> exit_removed_upto(
                                    *s,
                                    old(slots)@,
                                    state,
                                    table_view(timer_map),
                                    k as int,
                                ).insert(pid).contains(p) by {}
                            }
                            match timers.cancel(pid) {
                                Ok(_) => {
                                    log.info("cancelled the timer");
                                },
                                Err(e) => {
                                    log.on_error("failed to cancel the timer", &e);
                                },
                            }
                            proof {
                                if old(timers).reliable() {
                                    assert(timers.active() =~= old(timers).active().difference(
                                        exit_removed_upto(
                                            *s,
                                            old(slots)@,
                                            state,
                                            table_view(timer_map),
                                            k + 1,
                                        ),
                                    ));
                                }
                            }
                        },
                        None => {
                            log.on_error(
                                "no conversion for the timer identifier",
                                &FsmError::MissingConversion,
                            );
                            proof {
                                assert forall|p: u64|
                                    exit_removed_upto(
                                        *s,
                                        old(slots)@,
                                        state,
                                        table_view(timer_map),
                                        k + 1,
                                    ).contains(p) <==> exit_removed_upto(
                                    *s,
                                    old(slots)@,
                                    state,
                                    table_view(timer_map),
                                    k as int,
                                ).contains(p) by {}
                                if old(timers).reliable() {
                                    assert(timers.active() =~= old(timers).active().difference(
                                        exit_removed_upto(
                                            *s,
                                            old(slots)@,
                                            state,
                                            table_view(timer_map),
                                            k + 1,
                                        ),
                                    ));
                                }
                            }
                        },
                    }
                    slots[k] = None;
                } else {
                    proof {
                        lemma_exit_upto_same(*s, old(slots)@, state, table_view(timer_map), k as int);
                        if old(timers).reliable() {
                            assert(timers.active() =~= old(timers).active().difference(
                                exit_removed_upto(
                                    *s,
                                    old(slots)@,
                                    state,
                                    table_view(timer_map),
                                    k + 1,
                                ),
                            ));
                        }
                    }
                }
            },
            None => {
                proof {
                    lemma_exit_upto_same(*s, old(slots)@, state, table_view(timer_map), k as int);
                    if old(timers).reliable() {
                        assert(timers.active() =~= old(timers).active().difference(
                            exit_removed_upto(
                                *s,
                                old(slots)@,
                                state,
                                table_view(timer_map),
                                k + 1,
                            ),
                        ));
                    }
                }
            },
        }
        k = k + 1;
    }
    proof {
        assert(exit_removed_upto(
            *s,
            old(slots)@,
            state,
            table_view(timer_map),
            old(slots)@.len() as int,
        ) =~= exit_removed_ids(*s, old(slots)@, state, table_view(timer_map)));
    }
}

/// A slot that cancels nothing adds nothing to the removed set.
proof fn lemma_exit_upto_same(
    s: BuiltFsm,
    slots: Seq<Option<TimerInstance>>,
    state: u64,
    tmap: Option<Seq<(u64, u64)>>,
    k: int,
)
    requires
        !slot_cancelled(s, slots, state, k),
    ensures
        exit_removed_upto(s, slots, state, tmap, k + 1) =~= exit_removed_upto(
            s,
            slots,
            state,
            tmap,
            k,
        ),
{
    assert forall|p: u64|
        exit_removed_upto(s, slots, state, tmap, k + 1).contains(p) <==> exit_removed_upto(
            s,
            slots,
            state,
            tmap,
            k,
        ).contains(p) by {}
}

/// Whether one timer slot after a state entry is consistent with the
/// slots before it: a timer of the entered state that is enabled either
/// came up live with its declared identifier and settings, or failed to
/// start and holds nothing; every other slot is untouched.
pub open spec fn enter_slot_ok(
    s: BuiltFsm,
    pre: Seq<Option<TimerInstance>>,
    post: Seq<Option<TimerInstance>>,
    state: u64,
    k: int,
) -> bool {
    if s.timers@[k].state == state && s.timers@[k].settings.enabled {
        post[k] == Some(
            TimerInstance { id: s.timers@[k].timer_id, settings: s.timers@[k].settings },
        ) || post[k] is None
    } else {
        post[k] == pre[k]
    }
}

/// The identifier a timer of this machine is physically created under:
/// its own where no adapter chain applies, else the chained table's image.
pub open spec fn physical_id(tmap: Option<Seq<(u64, u64)>>, id: u64) -> Option<u64> {
    match tmap {
        None => Some(id),
        Some(t) => spec_translate(t, id),
    }
}

/// A prefix of a prefix is a prefix.
proof fn lemma_log_prefix_trans(
    a: Seq<(u64, TimerSettings)>,
    b: Seq<(u64, TimerSettings)>,
    c: Seq<(u64, TimerSettings)>,
)
    requires
        a.is_prefix_of(b),
        b.is_prefix_of(c),
    ensures
        a.is_prefix_of(c),
{
    assert forall|i: int| 0 <= i < a.len() implies a[i] == c[i] by {
        assert(a[i] == b.subrange(0, a.len() as int)[i]);
        assert(b[i] == c.subrange(0, b.len() as int)[i]);
    }
    assert(a =~= c.subrange(0, a.len() as int));
}

/// An element of a prefix is an element of the whole.
proof fn lemma_log_prefix_contains(
    b: Seq<(u64, TimerSettings)>,
    c: Seq<(u64, TimerSettings)>,
    x: (u64, TimerSettings),
)
    requires
        b.is_prefix_of(c),
        b.contains(x),
    ensures
        c.contains(x),
{
    let i = choose|i: int| 0 <= i < b.len() && b[i] == x;
    assert(b[i] == c.subrange(0, b.len() as int)[i]);
    assert(0 <= i < c.len() && c[i] == x);
}

/// Declaration `k` is a timer that entering `state` tries to create.
pub open spec fn slot_creates(s: BuiltFsm, state: u64, k: int) -> bool {
    &&& 0 <= k < s.timers@.len()
    &&& s.timers@[k].state == state
    &&& s.timers@[k].settings.enabled
}

/// The physical identifiers that entering `state` creates timers under,
/// looking only at the first `kk` declarations.
pub open spec fn enter_created_upto(
    s: BuiltFsm,
    state: u64,
    tmap: Option<Seq<(u64, u64)>>,
    kk: int,
) -> Set<u64> {
    Set::new(
        |p: u64|
            exists|k: int|
                #[trigger] slot_creates(s, state, k) && k < kk && physical_id(
                    tmap,
                    s.timers@[k].timer_id,
                ) == Some(p),
    )
}

/// The physical identifiers that entering `state` creates timers under,
/// through the adapter chain in force.
pub open spec fn enter_created_ids(s: BuiltFsm, state: u64, tmap: Option<Seq<(u64, u64)>>) -> Set<
    u64,
> {
    enter_created_upto(s, state, tmap, s.timers@.len() as int)
}

/// A declaration that creates nothing adds nothing to the created set.
proof fn lemma_enter_upto_same(s: BuiltFsm, state: u64, tmap: Option<Seq<(u64, u64)>>, k: int)
    requires
        !slot_creates(s, state, k) || physical_id(tmap, s.timers@[k].timer_id) is None,
    ensures
        enter_created_upto(s, state, tmap, k + 1) =~= enter_created_upto(s, state, tmap, k),
{
    assert forall|p: u64|
        enter_created_upto(s, state, tmap, k + 1).contains(p) <==> enter_created_upto(
            s,
            state,
            tmap,
            k,
        ).contains(p) by {}
}

/// The fate of one timer slot at a state entry, held against the
/// capability: an identifier with no conversion leaves nothing stored; a
/// capability that never refuses a creation forces the declared instance
/// to be stored; and a stored instance implies its physical timer is
/// active afterwards.
pub open spec fn enter_slot_capability_ok(
    s: BuiltFsm,
    post: Seq<Option<TimerInstance>>,
    state: u64,
    k: int,
    tmap: Option<Seq<(u64, u64)>>,
    cap_reliable: bool,
    active_post: Set<u64>,
) -> bool {
    if s.timers@[k].state == state && s.timers@[k].settings.enabled {
        match physical_id(tmap, s.timers@[k].timer_id) {
            Some(pid) => {
                &&& (cap_reliable ==> post[k] == Some(
                    TimerInstance { id: s.timers@[k].timer_id, settings: s.timers@[k].settings },
                ))
                &&& (post[k] is Some ==> active_post.contains(pid))
            },
            None => post[k] is None,
        }
    } else {
        true
    }
}

/// The timer lifecycle at a state-entry boundary: for every enabled timer
/// of the entered state, ask the capability to create a physical timer
/// under the (possibly adapter-translated) identifier; on success a live
/// instance is stored, on any failure the failure is reported and no live
/// instance remains. A stored instance comes with an active physical
/// timer; a capability that never refuses always leaves the instance
/// stored; and where no timer of the state can be created at all, the
/// capability is untouched.
pub fn execute_on_enter<I: Inspect, T: FsmTimers>(
    s: &BuiltFsm,
    slots: &mut Vec<Option<TimerInstance>>,
    state: u64,
    inspect: &I,
    timers: &mut T,
    timer_map: Option<&Vec<(u64, u64)>>,
)
    requires
        old(slots)@.len() == s.timers@.len(),
    ensures
        final(slots)@.len() == old(slots)@.len(),
        forall|k: int|
            0 <= k < old(slots)@.len() ==> enter_slot_ok(*s, old(slots)@, final(slots)@, state, k),
        forall|k: int|
            0 <= k < old(slots)@.len() ==> enter_slot_capability_ok(
                *s,
                final(slots)@,
                state,
                k,
                table_view(timer_map),
                old(timers).reliable(),
                final(timers).active(),
            ),
        final(timers).reliable() == old(timers).reliable(),
        old(timers).active().subset_of(final(timers).active()),
        old(timers).reliable() ==> final(timers).active() =~= old(timers).active().union(
            enter_created_ids(*s, state, table_view(timer_map)),
        ),
        old(timers).creation_log().is_prefix_of(final(timers).creation_log()),
        forall|k: int|
            0 <= k < old(slots)@.len() && final(slots)@[k] is Some && (#[trigger] s.timers@[k]).state
                == state && s.timers@[k].settings.enabled ==> match physical_id(
                table_view(timer_map),
                s.timers@[k].timer_id,
            ) {
                Some(pid) => final(timers).creation_log().contains(
                    (pid, spec_timer_settings(s.timers@[k].settings)),
                ),
                None => true,
            },
        (forall|k: int|
            0 <= k < s.timers@.len() && (#[trigger] s.timers@[k]).state == state
                && s.timers@[k].settings.enabled ==> physical_id(
                table_view(timer_map),
                s.timers@[k].timer_id,
            ) is None) ==> *final(timers) == *old(timers),
{
    let mut k: usize = 0;
    while k < slots.len()
        invariant
            slots@.len() == old(slots)@.len(),
            old(slots)@.len() == s.timers@.len(),
            k <= slots@.len(),
            forall|a: int| 0 <= a < k ==> enter_slot_ok(*s, old(slots)@, slots@, state, a),
            forall|a: int| k <= a < slots@.len() ==> slots@[a] == old(slots)@[a],
            timers.reliable() == old(timers).reliable(),
            old(timers).active().subset_of(timers.active()),
            forall|a: int|
                0 <= a < k ==> enter_slot_capability_ok(
                    *s,
                    slots@,
                    state,
                    a,
                    table_view(timer_map),
                    old(timers).reliable(),
                    timers.active(),
                ),
            old(timers).reliable() ==> timers.active() =~= old(timers).active().union(
                enter_created_upto(*s, state, table_view(timer_map), k as int),
            ),
            old(timers).creation_log().is_prefix_of(timers.creation_log()),
            forall|a: int|
                0 <= a < k && slots@[a] is Some && (#[trigger] s.timers@[a]).state == state
                    && s.timers@[a].settings.enabled ==> match physical_id(
                    table_view(timer_map),
                    s.timers@[a].timer_id,
                ) {
                    Some(pid) => timers.creation_log().contains(
                        (pid, spec_timer_settings(s.timers@[a].settings)),
                    ),
                    None => true,
                },
            (forall|a: int|
                0 <= a < k && (#[trigger] s.timers@[a]).state == state
                    && s.timers@[a].settings.enabled ==> physical_id(
                    table_view(timer_map),
                    s.timers@[a].timer_id,
                ) is None) ==> *timers == *old(timers),
        decreases slots@.len() - k,
    {
        let ghost pre_iter = slots@;
        let ghost pre_active = timers.active();
        let ghost pre_log = timers.creation_log();
        if s.timers[k].state == state {
            let decl_id = s.timers[k].timer_id;
            let settings = s.timers[k].settings;
            let log = inspect.for_timer(decl_id);
            if settings.enabled {
                let physical = match timer_map {
                    None => Some(decl_id),
                    Some(m) => translate_id(m, decl_id),
                };
                match physical {
                    Some(pid) => {
                        match timers.create(pid, &settings.to_timer_settings()) {
                            Ok(_) => {
                                slots[k] = Some(TimerInstance { id: decl_id, settings });
                                log.info("started the timer");
                            },
                            Err(e) => {
                                slots[k] = None;
                                log.on_error("failed to create a timer", &e);
                            },
                        }
                    },
                    None => {
                        slots[k] = None;
                        log.on_error(
                            "no conversion for the timer identifier",
                            &FsmError::MissingConversion,
                        );
                    },
                }
            } else {
                log.info("the timer is not enabled");
            }
        }
        proof {
            assert(pre_active.subset_of(timers.active()));
            assert(pre_log.is_prefix_of(timers.creation_log())) by {
                assert(pre_log =~= timers.creation_log().subrange(0, pre_log.len() as int));
            }
            lemma_log_prefix_trans(
                old(timers).creation_log(),
                pre_log,
                timers.creation_log(),
            );
            assert forall|a: int|
                0 <= a < k + 1 && slots@[a] is Some && (#[trigger] s.timers@[a]).state == state
                    && s.timers@[a].settings.enabled implies (match physical_id(
                table_view(timer_map),
                s.timers@[a].timer_id,
            ) {
                Some(pid) => timers.creation_log().contains(
                    (pid, spec_timer_settings(s.timers@[a].settings)),
                ),
                None => true,
            }) by {
                match physical_id(table_view(timer_map), s.timers@[a].timer_id) {
                    Some(pid) => {
                        if a < k {
                            assert(slots@[a] == pre_iter[a]);
                            assert(pre_log.contains(
                                (pid, spec_timer_settings(s.timers@[a].settings)),
                            ));
                            lemma_log_prefix_contains(
                                pre_log,
                                timers.creation_log(),
                                (pid, spec_timer_settings(s.timers@[a].settings)),
                            );
                        } else {
                            assert(timers.creation_log()[timers.creation_log().len() - 1] == (
                                pid,
                                spec_timer_settings(s.timers@[a].settings),
                            ));
                        }
                    },
                    None => {
                    },
                }
            }
            if old(timers).reliable() {
                let tv = table_view(timer_map);
                if slot_creates(*s, state, k as int) && physical_id(
                    tv,
                    s.timers@[k as int].timer_id,
                ) is Some {
                    let p = physical_id(tv, s.timers@[k as int].timer_id).unwrap();
                    assert forall|q: u64|
                        enter_created_upto(*s, state, tv, k + 1).contains(q)
                            <==> enter_created_upto(*s, state, tv, k as int).insert(p).contains(
                            q,
                        ) by {}
                    assert(timers.active() =~= old(timers).active().union(
                        enter_created_upto(*s, state, tv, k + 1),
                    ));
                } else {
                    lemma_enter_upto_same(*s, state, tv, k as int);
                    assert(timers.active() =~= old(timers).active().union(
                        enter_created_upto(*s, state, tv, k + 1),
                    ));
                }
            }
            assert forall|a: int| 0 <= a < k + 1 implies enter_slot_ok(
                *s,
                old(slots)@,
                slots@,
                state,
                a,
            ) by {
                if a < k {
                    assert(slots@[a] == pre_iter[a]);
                    assert(enter_slot_ok(*s, old(slots)@, pre_iter, state, a));
                }
            }
            assert forall|a: int| 0 <= a < k + 1 implies enter_slot_capability_ok(
                *s,
                slots@,
                state,
                a,
                table_view(timer_map),
                old(timers).reliable(),
                timers.active(),
            ) by {
                if a < k {
                    assert(slots@[a] == pre_iter[a]);
                    assert(enter_slot_capability_ok(
                        *s,
                        pre_iter,
                        state,
                        a,
                        table_view(timer_map),
                        old(timers).reliable(),
                        pre_active,
                    ));
                }
            }
        }
        k = k + 1;
    }
    proof {
        assert(enter_created_upto(*s, state, table_view(timer_map), s.timers@.len() as int)
            =~= enter_created_ids(*s, state, table_view(timer_map)));
    }
}

/// The events of a sub-machine, translated into its parent's namespace
/// through the queue adapter's table; `None` as soon as one of them has no
/// conversion.
pub open spec fn translate_emits(table: Seq<(u64, u64)>, evs: Seq<u64>) -> Option<Seq<u64>>
    decreases evs.len(),
{
    if evs.len() == 0 {
        Some(Seq::empty())
    } else {
        match spec_translate(table, evs[0]) {
            None => None,
            Some(p) => match translate_emits(table, evs.drop_first()) {
                None => None,
                Some(rest) => Some(seq![p] + rest),
            },
        }
    }
}

pub open spec fn opt_concat(prefix: Seq<u64>, rest: Option<Seq<u64>>) -> Option<Seq<u64>> {
    match rest {
        None => None,
        Some(r) => Some(prefix + r),
    }
}

/// Translate a sub-machine's emitted events into the parent's namespace,
/// exactly as `translate_emits` states.
pub fn translate_emits_vec(table: &Vec<(u64, u64)>, evs: &Vec<u64>) -> (r: Option<Vec<u64>>)
    ensures
        match r {
            Some(v) => translate_emits(table@, evs@) == Some(v@),
            None => translate_emits(table@, evs@) is None,
        },
{
    let mut out: Vec<u64> = Vec::new();
    let mut i: usize = 0;
    proof {
        assert(evs@.skip(0) =~= evs@);
        if translate_emits(table@, evs@) is Some {
            assert(Seq::<u64>::empty() + translate_emits(table@, evs@).unwrap() =~= translate_emits(
                table@,
                evs@,
            ).unwrap());
        }
    }
    while i < evs.len()
        invariant
            i <= evs@.len(),
            opt_concat(out@, translate_emits(table@, evs@.skip(i as int))) == translate_emits(
                table@,
                evs@,
            ),
        decreases evs@.len() - i,
    {
        proof {
            assert(evs@.skip(i as int)[0] == evs@[i as int]);
            assert(evs@.skip(i as int).drop_first() =~= evs@.skip(i + 1));
        }
        match translate_id(table, evs[i]) {
            Some(p) => {
                let ghost pre_out = out@;
                out.push(p);
                proof {
                    match translate_emits(table@, evs@.skip(i + 1)) {
                        Some(rest) => {
                            assert(pre_out + (seq![p] + rest) =~= out@ + rest);
                        },
                        None => {
                        },
                    }
                }
            },
            None => {
                return None;
            },
        }
        i = i + 1;
    }
    proof {
        assert(evs@.skip(i as int).len() == 0);
        assert(out@ + Seq::<u64>::empty() =~= out@);
    }
    Some(out)
}

/// Whether some timer declaration carries `tid`.
pub open spec fn has_timer_decl(s: BuiltFsm, tid: u64) -> bool {
    exists|k: int| 0 <= k < s.timers@.len() && s.timers@[k].timer_id == tid
}

/// The index of the declaration of timer `tid` (meaningful under
/// `has_timer_decl` and unique under `schema_wf`).
pub open spec fn timer_decl_index(s: BuiltFsm, tid: u64) -> int {
    choose|k: int| 0 <= k < s.timers@.len() && s.timers@[k].timer_id == tid
}

/// Under unique timer identifiers, the declaration found at an index is
/// the declaration of its identifier.
pub proof fn lemma_timer_at(s: BuiltFsm, k: int)
    requires
        forall|a: int, b: int|
            0 <= a < b < s.timers@.len() ==> s.timers@[a].timer_id != s.timers@[b].timer_id,
        0 <= k < s.timers@.len(),
    ensures
        has_timer_decl(s, s.timers@[k].timer_id),
        timer_decl_index(s, s.timers@[k].timer_id) == k,
{
    let tid = s.timers@[k].timer_id;
    assert(has_timer_decl(s, tid));
    let j = choose|j: int| 0 <= j < s.timers@.len() && s.timers@[j].timer_id == tid;
    if j < k {
        assert(s.timers@[j].timer_id != s.timers@[k].timer_id);
    } else if k < j {
        assert(s.timers@[k].timer_id != s.timers@[j].timer_id);
    }
}

/// The index of the declaration of timer `tid`, if any.
pub fn find_timer_idx(s: &BuiltFsm, tid: u64) -> (r: Option<usize>)
    ensures
        match r {
            Some(k) => k < s.timers@.len() && s.timers@[k as int].timer_id == tid,
            None => !has_timer_decl(*s, tid),
        },
{
    let mut k: usize = 0;
    while k < s.timers.len()
        invariant
            k <= s.timers@.len(),
            forall|a: int| 0 <= a < k ==> s.timers@[a].timer_id != tid,
        decreases s.timers@.len() - k,
    {
        if s.timers[k].timer_id == tid {
            return Some(k);
        }
        k = k + 1;
    }
    None
}

/// What handling a fired timer yields: the result and the events left for
/// the queue. A trigger never changes the machine. A timer declared here
/// answers from its own slot — a live instance yields its trigger event,
/// a dead one is the `TimerNotStarted` condition. An identifier not
/// declared here is searched for among the sub-machines' timer adapters,
/// first match routing the trigger inside.
pub open spec fn trigger_outcome(s: BuiltFsm, m: FsmBackendImpl, tid: u64) -> (FsmResult<
    (),
>, Seq<u64>)
    decreases s.height, s.subs@.len() + 1,
{
    if has_timer_decl(s, tid) {
        let k = timer_decl_index(s, tid);
        if m.timer_slots@[k] is Some {
            match s.timers@[k].trigger_event {
                Some(e) => (FsmResult::<()>::Ok(()), seq![e]),
                None => (FsmResult::<()>::Ok(()), Seq::empty()),
            }
        } else {
            (FsmResult::<()>::Err(FsmError::TimerNotStarted), Seq::empty())
        }
    } else {
        trigger_sub_search(s, m, tid, 0)
    }
}

/// The sub-machine part of `trigger_outcome`, searching from index `i`.
pub open spec fn trigger_sub_search(s: BuiltFsm, m: FsmBackendImpl, tid: u64, i: int) -> (FsmResult<
    (),
>, Seq<u64>)
    decreases s.height, s.subs@.len() - i,
{
    if i < 0 || i >= s.subs@.len() {
        (FsmResult::<()>::Err(FsmError::TimerNotStarted), Seq::empty())
    } else {
        match spec_rev_translate(s.subs@[i].timer_out@, tid) {
            Some(ct) => {
                if s.subs@[i].child.height < s.height {
                    let inner = trigger_outcome(s.subs@[i].child, m.subs@[i], ct);
                    match translate_emits(s.subs@[i].event_out@, inner.1) {
                        Some(tr) => (inner.0, tr),
                        None => (FsmResult::<()>::Err(FsmError::MissingConversion), Seq::empty()),
                    }
                } else {
                    (FsmResult::<()>::Err(FsmError::TimerNotStarted), Seq::empty())
                }
            },
            None => trigger_sub_search(s, m, tid, i + 1),
        }
    }
}

/// Handle a fired timer: exactly `trigger_outcome`, reported through the
/// narrowed instrumentation. The machine itself is read, never changed,
/// so a trigger with no live instance provably enqueues nothing.
pub fn execute_trigger<I: Inspect>(s: &BuiltFsm, m: &FsmBackendImpl, tid: u64, inspect: &I) -> (r:
    (FsmResult<()>, Vec<u64>))
    requires
        schema_wf(*s),
        backend_inv(*s, *m),
    ensures
        r.0 == trigger_outcome(*s, *m, tid).0,
        r.1@ == trigger_outcome(*s, *m, tid).1,
    decreases s.height,
{
    let log = inspect.for_timer(tid);
    match find_timer_idx(s, tid) {
        Some(k) => {
            proof {
                lemma_timer_at(*s, k as int);
            }
            match m.timer_slots[k] {
                Some(_) => {
                    match s.timers[k].trigger_event {
                        Some(e) => {
                            let mut out: Vec<u64> = Vec::new();
                            out.push(e);
                            proof {
                                assert(out@ =~= seq![e]);
                            }
                            (Ok(()), out)
                        },
                        None => (Ok(()), Vec::new()),
                    }
                },
                None => {
                    log.on_error("the timer has not been started", &FsmError::TimerNotStarted);
                    (Err(FsmError::TimerNotStarted), Vec::new())
                },
            }
        },
        None => {
            let mut i: usize = 0;
            while i < s.subs.len()
                invariant
                    schema_wf(*s),
                    backend_inv(*s, *m),
                    !has_timer_decl(*s, tid),
                    i <= s.subs@.len(),
                    trigger_sub_search(*s, *m, tid, 0) == trigger_sub_search(*s, *m, tid, i as int),
                decreases s.subs@.len() - i,
            {
                match rev_translate_id(&s.subs[i].timer_out, tid) {
                    Some(ct) => {
                        let inner = execute_trigger(&s.subs[i].child, &m.subs[i], ct, inspect);
                        match translate_emits_vec(&s.subs[i].event_out, &inner.1) {
                            Some(tr) => {
                                return (inner.0, tr);
                            },
                            None => {
                                log.on_error(
                                    "no conversion for a sub-machine event",
                                    &FsmError::MissingConversion,
                                );
                                return (Err(FsmError::MissingConversion), Vec::new());
                            },
                        }
                    },
                    None => {
                    },
                }
                i = i + 1;
            }
            log.on_error("the timer has not been started", &FsmError::TimerNotStarted);
            (Err(FsmError::TimerNotStarted), Vec::new())
        },
    }
}

/// Whether region `r` consumes a plain event: its current state either
/// wraps a sub-machine whose adapter routes the event inside, or has a
/// transition row for it. A wrapper state only ever delegates.
pub open spec fn consumes_in_region(s: BuiltFsm, m: FsmBackendImpl, r: int, eid: u64) -> bool {
    let cur = m.current@[r];
    if has_sub(s, cur) {
        spec_translate(s.subs@[sub_index(s, cur)].event_in@, eid) is Some
    } else {
        has_transition(s, r, cur, eid)
    }
}

/// No region consumes the event: the unhandled case, defined behaviour.
pub open spec fn no_consumer(s: BuiltFsm, m: FsmBackendImpl, eid: u64) -> bool {
    forall|r: int| 0 <= r < m.current@.len() ==> !consumes_in_region(s, m, r, eid)
}

/// Every region that consumes the event does so through its own
/// transition table, none through a sub-machine.
pub open spec fn all_consumers_plain(s: BuiltFsm, pre: FsmBackendImpl, eid: u64) -> bool {
    forall|r: int|
        0 <= r < pre.current@.len() && consumes_in_region(s, pre, r, eid) ==> !has_sub(
            s,
            pre.current@[r],
        )
}

/// Region `r` is the only one that consumes the event.
pub open spec fn sole_consumer(s: BuiltFsm, m: FsmBackendImpl, r: int, eid: u64) -> bool {
    &&& 0 <= r < m.current@.len()
    &&& consumes_in_region(s, m, r, eid)
    &&& forall|r2: int|
        0 <= r2 < m.current@.len() && consumes_in_region(s, m, r2, eid) ==> r2 == r
}

/// The timer slots after the exit half of a transition.
pub open spec fn exit_slots(
    s: BuiltFsm,
    slots: Seq<Option<TimerInstance>>,
    state: u64,
) -> Seq<Option<TimerInstance>> {
    Seq::new(slots.len(), |k: int| exit_slot(s, slots, state, k))
}

/// What taking transition `t` in region `r` does to the machine: the
/// context runs through the exit, transition and entry actions in that
/// order, the region's state is swapped for the target, the exited
/// state's cancelled-on-exit timers are gone and the entered state's
/// enabled timers are live or failed, and nothing else moves.
pub open spec fn transition_taken(
    s: BuiltFsm,
    pre: FsmBackendImpl,
    post: FsmBackendImpl,
    r: int,
    t: Transition,
) -> bool {
    let exit_a = state_decl(s, t.from).exit;
    let entry_a = state_decl(s, t.to).entry;
    let mid = exit_slots(s, pre.timer_slots@, t.from);
    &&& post.context == action_context(
        entry_a,
        action_context(t.action, action_context(exit_a, pre.context)),
    )
    &&& post.current@ == pre.current@.update(r, t.to)
    &&& post.timer_slots@.len() == pre.timer_slots@.len()
    &&& (forall|k: int|
        0 <= k < pre.timer_slots@.len() ==> enter_slot_ok(s, mid, post.timer_slots@, t.to, k))
    &&& post.subs@ == pre.subs@
}

/// The events a taken transition leaves for the queue: what the exit,
/// transition and entry actions emit, in that order.
pub open spec fn transition_emits(s: BuiltFsm, t: Transition) -> Seq<u64> {
    action_emits(state_decl(s, t.from).exit) + action_emits(t.action) + action_emits(
        state_decl(s, t.to).entry,
    )
}

/// What delegating an event to the sub-machine at index `i` does: the
/// parent's own context, states and timers are untouched — from the
/// parent's viewpoint the wrapper is one opaque state — the child steps by
/// its own dispatch relation, and its emitted events come back through
/// the queue adapter's conversion table, a missing conversion being the
/// one structural failure.
pub open spec fn sub_dispatched(
    s: BuiltFsm,
    pre: FsmBackendImpl,
    post: FsmBackendImpl,
    i: int,
    eid: u64,
    emits: Seq<u64>,
    res: FsmResult<()>,
) -> bool
    decreases s.height, 1int, 0int,
{
    &&& s.subs@[i].child.height < s.height
    &&& post.context == pre.context
    &&& post.current@ == pre.current@
    &&& post.timer_slots@ == pre.timer_slots@
    &&& post.subs@.len() == pre.subs@.len()
    &&& (forall|j: int| 0 <= j < pre.subs@.len() && j != i ==> post.subs@[j] == pre.subs@[j])
    &&& exists|ce: Seq<u64>, cres: FsmResult<()>|
        #[trigger] step_witness(ce, cres) && sub_step_ok(s, pre, post, i, eid, ce, cres, emits, res)
}

/// A trigger anchor for the existential over a sub-machine's own
/// emissions and result.
pub open spec fn step_witness(ce: Seq<u64>, cres: FsmResult<()>) -> bool {
    true
}

/// One concrete way a delegation can have gone: the child stepped by its
/// dispatch relation with emissions `ce` and result `cres`, and the queue
/// adapter's translation of `ce` accounts for what the parent saw.
pub open spec fn sub_step_ok(
    s: BuiltFsm,
    pre: FsmBackendImpl,
    post: FsmBackendImpl,
    i: int,
    eid: u64,
    ce: Seq<u64>,
    cres: FsmResult<()>,
    emits: Seq<u64>,
    res: FsmResult<()>,
) -> bool
    decreases s.height, 0int, 0int,
{
    let sd = s.subs@[i];
    &&& (if sd.child.height < s.height {
        dispatch_rel(
            sd.child,
            pre.subs@[i],
            FsmEvent::Event(spec_translate(sd.event_in@, eid).unwrap()),
            post.subs@[i],
            ce,
            cres,
        )
    } else {
        false
    })
    &&& match translate_emits(sd.event_out@, ce) {
        Some(tr) => emits == tr && res == cres,
        None => emits == Seq::<u64>::empty() && res == FsmResult::<()>::Err(
            FsmError::MissingConversion,
        ),
    }
}

/// The outcome in the region that alone consumes the event: delegation
/// for a wrapper state; otherwise the single matching transition, taken
/// when its guard passes and a provable no-op when it does not.
pub open spec fn sole_outcome(
    s: BuiltFsm,
    pre: FsmBackendImpl,
    post: FsmBackendImpl,
    r: int,
    eid: u64,
    emits: Seq<u64>,
    res: FsmResult<()>,
) -> bool
    decreases s.height, 2int, 0int,
{
    let cur = pre.current@[r];
    if has_sub(s, cur) {
        sub_dispatched(s, pre, post, sub_index(s, cur), eid, emits, res)
    } else {
        let t = the_transition(s, r, cur, eid);
        if guard_opt_passes(t.guard, pre.context) {
            transition_taken(s, pre, post, r, t) && emits == transition_emits(s, t) && res is Ok
        } else {
            post == pre && emits == Seq::<u64>::empty() && res is Ok
        }
    }
}

/// The regions that consume the event, in index order, from region `r`
/// on: the order in which dispatch processes them.
pub open spec fn consuming_regions_from(
    s: BuiltFsm,
    pre: FsmBackendImpl,
    eid: u64,
    r: int,
) -> Seq<int>
    decreases pre.current@.len() - r,
{
    if r < 0 || r >= pre.current@.len() {
        Seq::empty()
    } else if consumes_in_region(s, pre, r, eid) {
        seq![r] + consuming_regions_from(s, pre, eid, r + 1)
    } else {
        consuming_regions_from(s, pre, eid, r + 1)
    }
}

/// A region index sequence as mathematical integers.
pub open spec fn usizes_to_ints(s: Seq<usize>) -> Seq<int> {
    s.map_values(|u: usize| u as int)
}

/// How a step's result folds into the run's: the first error wins, and a
/// run of successes succeeds.
pub open spec fn result_combines(r1: FsmResult<()>, r2: FsmResult<()>, res: FsmResult<()>) -> bool {
    if r1 is Err {
        res == r1
    } else if r2 is Err {
        res == r2
    } else {
        res is Ok
    }
}

/// A trigger anchor for the existential over one region step of a fold.
pub open spec fn region_step_witness(
    mm: FsmBackendImpl,
    e1: Seq<u64>,
    r1: FsmResult<()>,
    e2: Seq<u64>,
    r2: FsmResult<()>,
) -> bool {
    true
}

/// The left fold of `sole_outcome` over the consuming regions, in index
/// order: each region steps on the machine as the previous ones left it —
/// later regions see the context as earlier actions wrote it — the
/// emissions are concatenated, and the first error wins.
pub open spec fn regions_fold(
    s: BuiltFsm,
    m0: FsmBackendImpl,
    mn: FsmBackendImpl,
    rs: Seq<int>,
    eid: u64,
    emits: Seq<u64>,
    res: FsmResult<()>,
) -> bool
    decreases s.height, 3int, rs.len(),
{
    if rs.len() == 0 {
        mn == m0 && emits == Seq::<u64>::empty() && res is Ok
    } else {
        exists|mm: FsmBackendImpl, e1: Seq<u64>, r1: FsmResult<()>, e2: Seq<u64>, r2: FsmResult<()>|
            {
                &&& #[trigger] region_step_witness(mm, e1, r1, e2, r2)
                &&& sole_outcome(s, m0, mm, rs[0], eid, e1, r1)
                &&& regions_fold(s, mm, mn, rs.drop_first(), eid, e2, r2)
                &&& emits == e1 + e2
                &&& result_combines(r1, r2, res)
            }
    }
}

/// Extend a region fold by one more step at its end.
proof fn lemma_regions_fold_snoc(
    s: BuiltFsm,
    m0: FsmBackendImpl,
    mm: FsmBackendImpl,
    mn: FsmBackendImpl,
    rs: Seq<int>,
    r: int,
    eid: u64,
    e1: Seq<u64>,
    r1: FsmResult<()>,
    e2: Seq<u64>,
    r2: FsmResult<()>,
    res: FsmResult<()>,
)
    requires
        regions_fold(s, m0, mm, rs, eid, e1, r1),
        sole_outcome(s, mm, mn, r, eid, e2, r2),
        result_combines(r1, r2, res),
    ensures
        regions_fold(s, m0, mn, rs.push(r), eid, e1 + e2, res),
    decreases rs.len(),
{
    if rs.len() == 0 {
        assert(rs.push(r)[0] == r);
        assert(rs.push(r).drop_first() =~= Seq::<int>::empty());
        assert(regions_fold(s, mn, mn, rs.push(r).drop_first(), eid, Seq::<u64>::empty(), r1));
        assert(region_step_witness(mn, e2, r2, Seq::<u64>::empty(), r1));
        assert(sole_outcome(s, m0, mn, r, eid, e2, r2));
        assert(e1 + e2 =~= e2 + Seq::<u64>::empty());
        assert(result_combines(r2, r1, res));
        assert(regions_fold(s, m0, mn, rs.push(r), eid, e1 + e2, res));
    } else {
        let (mm1, a1, ra1, a2, ra2) = choose|
            mm1: FsmBackendImpl,
            a1: Seq<u64>,
            ra1: FsmResult<()>,
            a2: Seq<u64>,
            ra2: FsmResult<()>,
        |
            {
                &&& #[trigger] region_step_witness(mm1, a1, ra1, a2, ra2)
                &&& sole_outcome(s, m0, mm1, rs[0], eid, a1, ra1)
                &&& regions_fold(s, mm1, mm, rs.drop_first(), eid, a2, ra2)
                &&& e1 == a1 + a2
                &&& result_combines(ra1, ra2, r1)
            };
        let res2: FsmResult<()> = if ra2 is Err {
            ra2
        } else if r2 is Err {
            r2
        } else {
            FsmResult::<()>::Ok(())
        };
        assert(result_combines(ra2, r2, res2));
        lemma_regions_fold_snoc(s, mm1, mm, mn, rs.drop_first(), r, eid, a2, ra2, e2, r2, res2);
        assert(rs.drop_first().push(r) =~= rs.push(r).drop_first());
        assert(rs.push(r)[0] == rs[0]);
        assert(region_step_witness(mm1, a1, ra1, a2 + e2, res2));
        assert(e1 + e2 =~= a1 + (a2 + e2));
        assert(result_combines(ra1, res2, res));
        assert(regions_fold(s, m0, mn, rs.push(r), eid, e1 + e2, res));
    }
}

/// What one dispatch does. A fired-timer marker never changes the
/// machine and yields exactly the trigger outcome. A plain event: an
/// event nobody consumes is dropped with nothing changed; a region that
/// does not consume keeps its state; and when exactly one region
/// consumes, the machine steps by `sole_outcome`. Regions are processed
/// in index order, so with several consuming regions the later ones see
/// the context as the earlier ones left it.
pub open spec fn dispatch_rel(
    s: BuiltFsm,
    pre: FsmBackendImpl,
    ev: FsmEvent,
    post: FsmBackendImpl,
    emits: Seq<u64>,
    res: FsmResult<()>,
) -> bool
    decreases s.height, 4int, 0int,
{
    match ev {
        FsmEvent::Timer(tid) => {
            &&& post == pre
            &&& emits == trigger_outcome(s, pre, tid).1
            &&& res == (match trigger_outcome(s, pre, tid).0 {
                Err(FsmError::MissingConversion) => FsmResult::<()>::Err(
                    FsmError::MissingConversion,
                ),
                _ => FsmResult::<()>::Ok(()),
            })
        },
        FsmEvent::Event(eid) => {
            &&& post.current@.len() == pre.current@.len()
            &&& post.timer_slots@.len() == pre.timer_slots@.len()
            &&& (no_consumer(s, pre, eid) ==> post == pre && emits == Seq::<u64>::empty()
                && res is Ok)
            &&& (all_consumers_plain(s, pre, eid) ==> res is Ok)
            &&& (forall|r: int|
                0 <= r < pre.current@.len() && !consumes_in_region(s, pre, r, eid)
                    ==> post.current@[r] == pre.current@[r])
            &&& (forall|r: int|
                0 <= r < pre.current@.len() && plain_unguarded(s, pre, r, eid)
                    ==> post.current@[r] == the_transition(s, r, pre.current@[r], eid).to)
            &&& (forall|r: int|
                sole_consumer(s, pre, r, eid) ==> sole_outcome(s, pre, post, r, eid, emits, res))
            &&& regions_fold(s, pre, post, consuming_regions_from(s, pre, eid, 0), eid, emits, res)
        },
    }
}

/// The region consumes the event through an unguarded transition of its
/// own: such a region's outcome does not depend on what other regions do
/// to the context, so it is pinned even when several regions consume.
pub open spec fn plain_unguarded(s: BuiltFsm, pre: FsmBackendImpl, r: int, eid: u64) -> bool {
    let cur = pre.current@[r];
    &&& !has_sub(s, cur)
    &&& has_transition(s, r, cur, eid)
    &&& the_transition(s, r, cur, eid).guard is None
}

/// The region's current state wraps a sub-machine in which the routed
/// event finds no handler either: a no-op that crosses the router.
pub open spec fn sub_noop(s: BuiltFsm, pre: FsmBackendImpl, r: int, eid: u64) -> bool {
    let cur = pre.current@[r];
    &&& has_sub(s, cur)
    &&& match spec_translate(s.subs@[sub_index(s, cur)].event_in@, eid) {
        Some(ce) => no_consumer(
            s.subs@[sub_index(s, cur)].child,
            pre.subs@[sub_index(s, cur)],
            ce,
        ),
        None => true,
    }
}

/// The region alone consumes the event through a transition whose guard
/// rejects it: the provable no-op of guard semantics.
pub open spec fn plain_guard_false(s: BuiltFsm, pre: FsmBackendImpl, r: int, eid: u64) -> bool {
    let cur = pre.current@[r];
    &&& !has_sub(s, cur)
    &&& has_transition(s, r, cur, eid)
    &&& !guard_opt_passes(the_transition(s, r, cur, eid).guard, pre.context)
}

/// The region consumes the event through a transition whose guard passes:
/// the transition is taken.
pub open spec fn plain_guard_true(s: BuiltFsm, pre: FsmBackendImpl, r: int, eid: u64) -> bool {
    let cur = pre.current@[r];
    &&& !has_sub(s, cur)
    &&& has_transition(s, r, cur, eid)
    &&& guard_opt_passes(the_transition(s, r, cur, eid).guard, pre.context)
}

/// What a taken transition does to a timer capability that never refuses:
/// the exited state's cancelled timers leave the active set, the entered
/// state's enabled timers join it, all under the adapter chain in force.
pub open spec fn transition_timer_effect(
    s: BuiltFsm,
    pre: FsmBackendImpl,
    r: int,
    eid: u64,
    tmap: Option<Seq<(u64, u64)>>,
    active_pre: Set<u64>,
    active_post: Set<u64>,
) -> bool {
    let t = the_transition(s, r, pre.current@[r], eid);
    active_post =~= active_pre.difference(
        exit_removed_ids(s, pre.timer_slots@, t.from, tmap),
    ).union(enter_created_ids(s, t.to, tmap))
}

/// Package the results of one delegation into `sub_dispatched`.
#[verifier::spinoff_prover]
#[verifier::rlimit(50)]
proof fn lemma_sub_dispatched_intro(
    s: BuiltFsm,
    pre: FsmBackendImpl,
    post: FsmBackendImpl,
    i: int,
    eid: u64,
    ce: Seq<u64>,
    cres: FsmResult<()>,
    emits: Seq<u64>,
    res: FsmResult<()>,
)
    requires
        0 <= i < s.subs@.len(),
        s.subs@[i].child.height < s.height,
        post.context == pre.context,
        post.current@ == pre.current@,
        post.timer_slots@ == pre.timer_slots@,
        post.subs@.len() == pre.subs@.len(),
        forall|j: int| 0 <= j < pre.subs@.len() && j != i ==> post.subs@[j] == pre.subs@[j],
        dispatch_rel(
            s.subs@[i].child,
            pre.subs@[i],
            FsmEvent::Event(spec_translate(s.subs@[i].event_in@, eid).unwrap()),
            post.subs@[i],
            ce,
            cres,
        ),
        match translate_emits(s.subs@[i].event_out@, ce) {
            Some(tr) => emits == tr && res == cres,
            None => emits == Seq::<u64>::empty() && res == FsmResult::<()>::Err(
                FsmError::MissingConversion,
            ),
        },
    ensures
        sub_dispatched(s, pre, post, i, eid, emits, res),
{
    assert(step_witness(ce, cres) && sub_step_ok(s, pre, post, i, eid, ce, cres, emits, res));
}

/// Funnel an event down to the sub-machine at index `i`: the parent's
/// queue and timer capability are wrapped in per-call namespace adapters
/// — the emitted events come back translated by the queue adapter's
/// table, the timers are created and cancelled under identifiers chained
/// through the timer tables — the instrumentation is narrowed to the
/// sub-machine, and the child's own dispatch engine runs.
pub fn dispatch_to_submachine<I: Inspect, T: FsmTimers>(
    s: &BuiltFsm,
    m: &mut FsmBackendImpl,
    i: usize,
    eid: u64,
    inspect: &I,
    timers: &mut T,
    timer_map: Option<&Vec<(u64, u64)>>,
) -> (r: (FsmResult<()>, Vec<u64>))
    requires
        schema_wf(*s),
        backend_inv(*s, *old(m)),
        i < s.subs@.len(),
        spec_translate(s.subs@[i as int].event_in@, eid) is Some,
    ensures
        backend_inv(*s, *final(m)),
        sub_dispatched(*s, *old(m), *final(m), i as int, eid, r.1@, r.0),
        no_consumer(
            s.subs@[i as int].child,
            old(m).subs@[i as int],
            spec_translate(s.subs@[i as int].event_in@, eid).unwrap(),
        ) ==> *final(timers) == *old(timers),
        final(timers).reliable() == old(timers).reliable(),
    decreases s.height, 1int,
{
    let ceid = match translate_id(&s.subs[i].event_in, eid) {
        Some(c) => c,
        None => {
            proof {
                assert(false);
            }
            0
        },
    };
    let composed = compose_tables(timer_map, &s.subs[i].timer_out);
    let sub_inspect = inspect.for_sub_machine(s.subs[i].parent_state);
    let ghost pre = *m;
    let (cres, cemits) = dispatch_event(
        &s.subs[i].child,
        &mut m.subs[i],
        FsmEvent::Event(ceid),
        &sub_inspect,
        timers,
        Some(&composed),
    );
    proof {
        assert(m.subs@ =~= pre.subs@.update(i as int, m.subs@[i as int]));
        assert(m.current@ == pre.current@);
        assert(m.timer_slots@ == pre.timer_slots@);
        assert forall|j: int| 0 <= j < m.subs@.len() implies (#[trigger] s.subs@[j]).child.height
            < s.height && backend_inv(s.subs@[j].child, m.subs@[j]) by {
            if j != i as int {
                assert(backend_inv(s.subs@[j].child, pre.subs@[j]));
            }
        }
        assert forall|k: int| 0 <= k < m.timer_slots@.len() implies slot_ok(*s, *m, k) by {
            assert(slot_ok(*s, pre, k));
        }
        assert(backend_inv(*s, *m));
        assert(ceid == spec_translate(s.subs@[i as int].event_in@, eid).unwrap());
        assert(dispatch_rel(
            s.subs@[i as int].child,
            pre.subs@[i as int],
            FsmEvent::Event(spec_translate(s.subs@[i as int].event_in@, eid).unwrap()),
            m.subs@[i as int],
            cemits@,
            cres,
        ));
    }
    match translate_emits_vec(&s.subs[i].event_out, &cemits) {
        Some(tr) => {
            proof {
                let sd = s.subs@[i as int];
                assert(sd.child.height < s.height);
                assert(m.context == pre.context);
                assert forall|j: int| 0 <= j < pre.subs@.len() && j != i as int implies m.subs@[j]
                    == pre.subs@[j] by {
                    assert(m.subs@[j] == pre.subs@.update(i as int, m.subs@[i as int])[j]);
                }
                assert(translate_emits(sd.event_out@, cemits@) == Some(tr@));
                lemma_sub_dispatched_intro(
                    *s,
                    pre,
                    *m,
                    i as int,
                    eid,
                    cemits@,
                    cres,
                    tr@,
                    cres,
                );
            }
            (cres, tr)
        },
        None => {
            inspect.on_error(
                "no conversion for a sub-machine event",
                &FsmError::MissingConversion,
            );
            proof {
                let sd = s.subs@[i as int];
                assert forall|j: int| 0 <= j < pre.subs@.len() && j != i as int implies m.subs@[j]
                    == pre.subs@[j] by {
                    assert(m.subs@[j] == pre.subs@.update(i as int, m.subs@[i as int])[j]);
                }
                assert(translate_emits(sd.event_out@, cemits@) is None);
                lemma_sub_dispatched_intro(
                    *s,
                    pre,
                    *m,
                    i as int,
                    eid,
                    cemits@,
                    cres,
                    Seq::<u64>::empty(),
                    FsmResult::<()>::Err(FsmError::MissingConversion),
                );
            }
            (Err(FsmError::MissingConversion), Vec::new())
        },
    }
}

/// Dispatch one dequeued event against the machine: exactly
/// `dispatch_rel`. The returned events are what the actions and triggers
/// left for later drive cycles, in emission order; the frontend enqueues
/// them after this call returns, which is why dispatch can never re-enter
/// itself through the queue. An event nobody consumes, and a guard that
/// rejects a sole match, leave machine, emissions and timer capability
/// provably untouched.
pub fn dispatch_event<I: Inspect, T: FsmTimers>(
    s: &BuiltFsm,
    m: &mut FsmBackendImpl,
    ev: FsmEvent,
    inspect: &I,
    timers: &mut T,
    timer_map: Option<&Vec<(u64, u64)>>,
) -> (r: (FsmResult<()>, Vec<u64>))
    requires
        schema_wf(*s),
        backend_inv(*s, *old(m)),
    ensures
        backend_inv(*s, *final(m)),
        dispatch_rel(*s, *old(m), ev, *final(m), r.1@, r.0),
        match ev {
            FsmEvent::Timer(_) => *final(timers) == *old(timers),
            FsmEvent::Event(eid) => {
                &&& (no_consumer(*s, *old(m), eid) ==> *final(timers) == *old(timers))
                &&& (forall|rr: int|
                    sole_consumer(*s, *old(m), rr, eid) && plain_guard_false(
                        *s,
                        *old(m),
                        rr,
                        eid,
                    ) ==> *final(timers) == *old(timers))
                &&& (forall|rr: int|
                    sole_consumer(*s, *old(m), rr, eid) && sub_noop(*s, *old(m), rr, eid)
                        ==> *final(timers) == *old(timers))
                &&& (forall|rr: int|
                    sole_consumer(*s, *old(m), rr, eid) && plain_guard_true(*s, *old(m), rr, eid)
                        && old(timers).reliable() ==> transition_timer_effect(
                        *s,
                        *old(m),
                        rr,
                        eid,
                        table_view(timer_map),
                        old(timers).active(),
                        final(timers).active(),
                    ))
                &&& final(timers).reliable() == old(timers).reliable()
            },
        },
    decreases s.height, 2int,
{
    let ghost pre = *m;
    match ev {
        FsmEvent::Timer(tid) => {
            let (tres, temits) = execute_trigger(s, m, tid, inspect);
            let out = match tres {
                Err(FsmError::MissingConversion) => Err(FsmError::MissingConversion),
                _ => Ok(()),
            };
            (out, temits)
        },
        FsmEvent::Event(eid) => {
            // First pass: which regions consume the event, in index order.
            let mut consumers: Vec<usize> = Vec::new();
            let nregions = m.current.len();
            let mut rr: usize = 0;
            proof {
                assert(usizes_to_ints(consumers@) + consuming_regions_from(*s, pre, eid, 0)
                    =~= consuming_regions_from(*s, pre, eid, 0));
            }
            while rr < nregions
                invariant
                    schema_wf(*s),
                    backend_inv(*s, *m),
                    *m == pre,
                    nregions == m.current@.len(),
                    rr <= nregions,
                    forall|a: int|
                        0 <= a < consumers@.len() ==> (#[trigger] consumers@[a]) < rr
                            && consumes_in_region(*s, pre, consumers@[a] as int, eid),
                    forall|a: int, b: int|
                        0 <= a < b < consumers@.len() ==> consumers@[a] < consumers@[b],
                    forall|r2: int|
                        0 <= r2 < rr ==> (consumes_in_region(*s, pre, r2, eid)
                            <==> consumers@.contains(r2 as usize)),
                    usizes_to_ints(consumers@) + consuming_regions_from(*s, pre, eid, rr as int)
                        == consuming_regions_from(*s, pre, eid, 0),
                decreases nregions - rr,
            {
                let cur = m.current[rr];
                let consumed: bool = match find_sub_idx(s, cur) {
                    Some(si) => {
                        proof {
                            lemma_sub_at(*s, si as int);
                        }
                        translate_id(&s.subs[si].event_in, eid).is_some()
                    },
                    None => {
                        match find_transition_idx(&s.transitions, rr, cur, eid) {
                            Some(j) => {
                                proof {
                                    assert(has_transition(*s, rr as int, cur, eid));
                                }
                                true
                            },
                            None => false,
                        }
                    },
                };
                proof {
                    assert(consumed == consumes_in_region(*s, pre, rr as int, eid));
                }
                let ghost pre_c = consumers@;
                if consumed {
                    consumers.push(rr);
                }
                proof {
                    if consumed {
                        assert(consuming_regions_from(*s, pre, eid, rr as int) == seq![rr as int]
                            + consuming_regions_from(*s, pre, eid, rr + 1));
                        assert(usizes_to_ints(consumers@) =~= usizes_to_ints(pre_c).push(
                            rr as int,
                        ));
                        assert(usizes_to_ints(pre_c).push(rr as int) + consuming_regions_from(
                            *s,
                            pre,
                            eid,
                            rr + 1,
                        ) =~= usizes_to_ints(pre_c) + (seq![rr as int] + consuming_regions_from(
                            *s,
                            pre,
                            eid,
                            rr + 1,
                        )));
                    } else {
                        assert(consuming_regions_from(*s, pre, eid, rr as int)
                            == consuming_regions_from(*s, pre, eid, rr + 1));
                    }
                    assert forall|r2: int| 0 <= r2 < rr + 1 implies (consumes_in_region(
                        *s,
                        pre,
                        r2,
                        eid,
                    ) <==> consumers@.contains(r2 as usize)) by {
                        if r2 < rr {
                            if pre_c.contains(r2 as usize) {
                                let a = choose|a: int|
                                    0 <= a < pre_c.len() && pre_c[a] == r2 as usize;
                                assert(consumers@[a] == r2 as usize);
                            }
                            if consumers@.contains(r2 as usize) {
                                let a = choose|a: int|
                                    0 <= a < consumers@.len() && consumers@[a] == r2 as usize;
                                if a < pre_c.len() {
                                    assert(pre_c[a] == r2 as usize);
                                }
                            }
                        } else {
                            if consumed {
                                assert(consumers@[consumers@.len() - 1] == rr);
                            } else {
                                if consumers@.contains(r2 as usize) {
                                    let a = choose|a: int|
                                        0 <= a < consumers@.len() && consumers@[a] == r2 as usize;
                                    assert(consumers@[a] < rr);
                                }
                            }
                        }
                    }
                }
                rr = rr + 1;
            }
            // Second pass: process the consuming regions in order.
            let mut emits: Vec<u64> = Vec::new();
            let mut result: FsmResult<()> = Ok(());
            let mut idx: usize = 0;
            proof {
                assert(consuming_regions_from(*s, pre, eid, nregions as int)
                    == Seq::<int>::empty());
                assert(usizes_to_ints(consumers@) + Seq::<int>::empty() =~= usizes_to_ints(
                    consumers@,
                ));
                assert(usizes_to_ints(consumers@.take(0)) =~= Seq::<int>::empty());
                assert(regions_fold(
                    *s,
                    pre,
                    *m,
                    usizes_to_ints(consumers@.take(0)),
                    eid,
                    emits@,
                    result,
                ));
            }
            while idx < consumers.len()
                invariant
                    schema_wf(*s),
                    backend_inv(*s, *m),
                    m.current@.len() == pre.current@.len(),
                    m.timer_slots@.len() == pre.timer_slots@.len(),
                    idx <= consumers@.len(),
                    forall|a: int|
                        0 <= a < consumers@.len() ==> (#[trigger] consumers@[a])
                            < pre.current@.len() && consumes_in_region(
                            *s,
                            pre,
                            consumers@[a] as int,
                            eid,
                        ),
                    forall|a: int, b: int|
                        0 <= a < b < consumers@.len() ==> consumers@[a] < consumers@[b],
                    forall|r2: int|
                        0 <= r2 < pre.current@.len() ==> (consumes_in_region(*s, pre, r2, eid)
                            <==> consumers@.contains(r2 as usize)),
                    forall|r2: int|
                        0 <= r2 < pre.current@.len() && !consumes_in_region(*s, pre, r2, eid)
                            ==> m.current@[r2] == pre.current@[r2],
                    forall|a: int|
                        idx <= a < consumers@.len() ==> m.current@[consumers@[a] as int]
                            == pre.current@[consumers@[a] as int],
                    forall|a: int|
                        0 <= a < idx && plain_unguarded(*s, pre, consumers@[a] as int, eid)
                            ==> m.current@[consumers@[a] as int] == the_transition(
                            *s,
                            consumers@[a] as int,
                            pre.current@[consumers@[a] as int],
                            eid,
                        ).to,
                    idx == 0 ==> *m == pre && emits@ == Seq::<u64>::empty() && result is Ok
                        && *timers == *old(timers),
                    all_consumers_plain(*s, pre, eid) ==> result is Ok,
                    usizes_to_ints(consumers@) == consuming_regions_from(*s, pre, eid, 0),
                    regions_fold(
                        *s,
                        pre,
                        *m,
                        usizes_to_ints(consumers@.take(idx as int)),
                        eid,
                        emits@,
                        result,
                    ),
                    consumers@.len() == 1 && idx >= 1 ==> sole_outcome(
                        *s,
                        pre,
                        *m,
                        consumers@[0] as int,
                        eid,
                        emits@,
                        result,
                    ),
                    consumers@.len() == 1 && idx >= 1 && plain_guard_false(
                        *s,
                        pre,
                        consumers@[0] as int,
                        eid,
                    ) ==> *timers == *old(timers),
                    consumers@.len() == 1 && idx >= 1 && sub_noop(
                        *s,
                        pre,
                        consumers@[0] as int,
                        eid,
                    ) ==> *timers == *old(timers),
                    timers.reliable() == old(timers).reliable(),
                    consumers@.len() == 1 && idx >= 1 && plain_guard_true(
                        *s,
                        pre,
                        consumers@[0] as int,
                        eid,
                    ) && old(timers).reliable() ==> transition_timer_effect(
                        *s,
                        pre,
                        consumers@[0] as int,
                        eid,
                        table_view(timer_map),
                        old(timers).active(),
                        timers.active(),
                    ),
                decreases consumers@.len() - idx,
            {
                let r = consumers[idx];
                let ghost it_pre = *m;
                let ghost pre_emits_all = emits@;
                let ghost pre_result = result;
                let cur = m.current[r];
                proof {
                    assert(cur == pre.current@[r as int]);
                    assert(usizes_to_ints(consumers@.take(idx + 1)) =~= usizes_to_ints(
                        consumers@.take(idx as int),
                    ).push(r as int));
                }
                match find_sub_idx(s, cur) {
                    Some(si) => {
                        proof {
                            lemma_sub_at(*s, si as int);
                        }
                        let (sres, mut semits) = dispatch_to_submachine(
                            s,
                            m,
                            si,
                            eid,
                            inspect,
                            timers,
                            timer_map,
                        );
                        let ghost semits_v = semits@;
                        emits.append(&mut semits);
                        result = match result {
                            Ok(()) => sres,
                            Err(e) => Err(e),
                        };
                        proof {
                            assert(sole_outcome(*s, it_pre, *m, r as int, eid, semits_v, sres));
                            assert(result_combines(pre_result, sres, result));
                            lemma_regions_fold_snoc(
                                *s,
                                pre,
                                it_pre,
                                *m,
                                usizes_to_ints(consumers@.take(idx as int)),
                                r as int,
                                eid,
                                pre_emits_all,
                                pre_result,
                                semits_v,
                                sres,
                                result,
                            );
                            if consumers@.len() == 1 && idx == 0 {
                                assert(pre_emits_all + semits_v =~= semits_v);
                                assert(sole_outcome(
                                    *s,
                                    pre,
                                    *m,
                                    r as int,
                                    eid,
                                    emits@,
                                    result,
                                ));
                                if sub_noop(*s, pre, r as int, eid) {
                                    assert(*timers == *old(timers));
                                }
                            }
                        }
                    },
                    None => {
                        match find_transition_idx(&s.transitions, r, cur, eid) {
                            Some(j) => {
                                proof {
                                    lemma_transition_at(*s, j as int);
                                }
                                let t = s.transitions[j];
                                let guard_ok = match t.guard {
                                    Some(g) => {
                                        let gr = eval_guard(&g, m.context);
                                        inspect.on_guard(gr);
                                        gr
                                    },
                                    None => true,
                                };
                                if guard_ok {
                                    inspect.on_state_exit(cur);
                                    let fi = match find_state_idx(&s.states, t.from) {
                                        Some(x) => x,
                                        None => {
                                            proof {
                                                assert(false);
                                            }
                                            0
                                        },
                                    };
                                    proof {
                                        lemma_state_decl_at(*s, fi as int);
                                    }
                                    let ec = EventContext { context: m.context, region: r };
                                    m.context = run_action(&s.states[fi].exit, ec, &mut emits);
                                    execute_on_exit(
                                        s,
                                        &mut m.timer_slots,
                                        t.from,
                                        inspect,
                                        timers,
                                        timer_map,
                                    );
                                    proof {
                                        assert(m.timer_slots@ =~= exit_slots(
                                            *s,
                                            it_pre.timer_slots@,
                                            t.from,
                                        ));
                                    }
                                    let to = t.to;
                                    m.current[r] = to;
                                    inspect.on_action(to);
                                    let ec2 = EventContext { context: m.context, region: r };
                                    m.context = run_action(&t.action, ec2, &mut emits);
                                    let ti = match find_state_idx(&s.states, to) {
                                        Some(x) => x,
                                        None => {
                                            proof {
                                                assert(false);
                                            }
                                            0
                                        },
                                    };
                                    proof {
                                        lemma_state_decl_at(*s, ti as int);
                                    }
                                    inspect.on_state_enter(to);
                                    let ec3 = EventContext { context: m.context, region: r };
                                    m.context = run_action(&s.states[ti].entry, ec3, &mut emits);
                                    execute_on_enter(
                                        s,
                                        &mut m.timer_slots,
                                        to,
                                        inspect,
                                        timers,
                                        timer_map,
                                    );
                                    proof {
                                        lemma_transition_step_inv(*s, it_pre, *m, r as int, t);
                                        assert(transition_taken(*s, it_pre, *m, r as int, t));
                                        assert(emits@ =~= pre_emits_all + transition_emits(
                                            *s,
                                            t,
                                        ));
                                        assert(sole_outcome(
                                            *s,
                                            it_pre,
                                            *m,
                                            r as int,
                                            eid,
                                            transition_emits(*s, t),
                                            FsmResult::<()>::Ok(()),
                                        ));
                                        assert(result_combines(
                                            pre_result,
                                            FsmResult::<()>::Ok(()),
                                            result,
                                        ));
                                        lemma_regions_fold_snoc(
                                            *s,
                                            pre,
                                            it_pre,
                                            *m,
                                            usizes_to_ints(consumers@.take(idx as int)),
                                            r as int,
                                            eid,
                                            pre_emits_all,
                                            pre_result,
                                            transition_emits(*s, t),
                                            FsmResult::<()>::Ok(()),
                                            result,
                                        );
                                        if consumers@.len() == 1 && idx == 0 {
                                            assert(sole_outcome(
                                                *s,
                                                pre,
                                                *m,
                                                r as int,
                                                eid,
                                                emits@,
                                                result,
                                            ));
                                            if old(timers).reliable() {
                                                assert(timers.active() =~= old(
                                                    timers,
                                                ).active().difference(
                                                    exit_removed_ids(
                                                        *s,
                                                        pre.timer_slots@,
                                                        t.from,
                                                        table_view(timer_map),
                                                    ),
                                                ).union(
                                                    enter_created_ids(
                                                        *s,
                                                        t.to,
                                                        table_view(timer_map),
                                                    ),
                                                ));
                                                assert(transition_timer_effect(
                                                    *s,
                                                    pre,
                                                    r as int,
                                                    eid,
                                                    table_view(timer_map),
                                                    old(timers).active(),
                                                    timers.active(),
                                                ));
                                            }
                                        }
                                    }
                                } else {
                                    proof {
                                        assert(sole_outcome(
                                            *s,
                                            it_pre,
                                            *m,
                                            r as int,
                                            eid,
                                            Seq::<u64>::empty(),
                                            FsmResult::<()>::Ok(()),
                                        ));
                                        assert(result_combines(
                                            pre_result,
                                            FsmResult::<()>::Ok(()),
                                            result,
                                        ));
                                        lemma_regions_fold_snoc(
                                            *s,
                                            pre,
                                            it_pre,
                                            *m,
                                            usizes_to_ints(consumers@.take(idx as int)),
                                            r as int,
                                            eid,
                                            pre_emits_all,
                                            pre_result,
                                            Seq::<u64>::empty(),
                                            FsmResult::<()>::Ok(()),
                                            result,
                                        );
                                        assert(pre_emits_all + Seq::<u64>::empty() =~= emits@);
                                        if consumers@.len() == 1 && idx == 0 {
                                            assert(sole_outcome(
                                                *s,
                                                pre,
                                                *m,
                                                r as int,
                                                eid,
                                                emits@,
                                                result,
                                            ));
                                        }
                                    }
                                }
                            },
                            None => {
                                proof {
                                    assert(false);
                                }
                            },
                        }
                    },
                }
                idx = idx + 1;
            }
            proof {
                if no_consumer(*s, pre, eid) {
                    if consumers@.len() > 0 {
                        assert(consumes_in_region(*s, pre, consumers@[0] as int, eid));
                    }
                }
                assert(consumers@.take(consumers@.len() as int) =~= consumers@);
                assert(regions_fold(
                    *s,
                    pre,
                    *m,
                    consuming_regions_from(*s, pre, eid, 0),
                    eid,
                    emits@,
                    result,
                ));
                assert forall|r2: int|
                    0 <= r2 < pre.current@.len() && plain_unguarded(
                        *s,
                        pre,
                        r2,
                        eid,
                    ) implies m.current@[r2] == the_transition(
                    *s,
                    r2,
                    pre.current@[r2],
                    eid,
                ).to by {
                    assert(consumes_in_region(*s, pre, r2, eid));
                    assert(consumers@.contains(r2 as usize));
                    let a = choose|a: int|
                        0 <= a < consumers@.len() && consumers@[a] == r2 as usize;
                    assert(plain_unguarded(*s, pre, consumers@[a] as int, eid));
                }
                assert forall|r2: int|
                    sole_consumer(*s, pre, r2, eid) implies sole_outcome(
                    *s,
                    pre,
                    *m,
                    r2,
                    eid,
                    emits@,
                    result,
                ) by {
                    assert(consumers@.contains(r2 as usize));
                    let a = choose|a: int|
                        0 <= a < consumers@.len() && consumers@[a] == r2 as usize;
                    if consumers@.len() > 1 {
                        let other: int = if a == 0 {
                            1
                        } else {
                            0
                        };
                        assert(consumes_in_region(*s, pre, consumers@[other] as int, eid));
                        assert(consumers@[other] as int == r2);
                        assert(false);
                    }
                    assert(consumers@.len() == 1 && consumers@[0] as int == r2);
                }
                assert forall|r2: int|
                    sole_consumer(*s, pre, r2, eid) && plain_guard_true(*s, pre, r2, eid) && old(
                        timers,
                    ).reliable() implies transition_timer_effect(
                    *s,
                    pre,
                    r2,
                    eid,
                    table_view(timer_map),
                    old(timers).active(),
                    timers.active(),
                ) by {
                    assert(consumers@.contains(r2 as usize));
                    let a = choose|a: int|
                        0 <= a < consumers@.len() && consumers@[a] == r2 as usize;
                    if consumers@.len() > 1 {
                        let other: int = if a == 0 {
                            1
                        } else {
                            0
                        };
                        assert(consumes_in_region(*s, pre, consumers@[other] as int, eid));
                        assert(consumers@[other] as int == r2);
                        assert(false);
                    }
                    assert(consumers@.len() == 1 && consumers@[0] as int == r2);
                }
                assert forall|r2: int|
                    sole_consumer(*s, pre, r2, eid) && sub_noop(
                        *s,
                        pre,
                        r2,
                        eid,
                    ) implies *timers == *old(timers) by {
                    assert(consumers@.contains(r2 as usize));
                    let a = choose|a: int|
                        0 <= a < consumers@.len() && consumers@[a] == r2 as usize;
                    if consumers@.len() > 1 {
                        let other: int = if a == 0 {
                            1
                        } else {
                            0
                        };
                        assert(consumes_in_region(*s, pre, consumers@[other] as int, eid));
                        assert(consumers@[other] as int == r2);
                        assert(false);
                    }
                    assert(consumers@.len() == 1 && consumers@[0] as int == r2);
                }
                assert forall|r2: int|
                    sole_consumer(*s, pre, r2, eid) && plain_guard_false(
                        *s,
                        pre,
                        r2,
                        eid,
                    ) implies *timers == *old(timers) by {
                    assert(consumers@.contains(r2 as usize));
                    let a = choose|a: int|
                        0 <= a < consumers@.len() && consumers@[a] == r2 as usize;
                    if consumers@.len() > 1 {
                        let other: int = if a == 0 {
                            1
                        } else {
                            0
                        };
                        assert(consumes_in_region(*s, pre, consumers@[other] as int, eid));
                        assert(consumers@[other] as int == r2);
                        assert(false);
                    }
                    assert(consumers@.len() == 1 && consumers@[0] as int == r2);
                }
            }
            (result, emits)
        },
    }
}

/// A single taken transition preserves the core invariant.
proof fn lemma_transition_step_inv(
    s: BuiltFsm,
    pre: FsmBackendImpl,
    post: FsmBackendImpl,
    r: int,
    t: Transition,
)
    requires
        schema_wf(s),
        backend_inv(s, pre),
        0 <= r < pre.current@.len(),
        pre.current@[r] == t.from,
        state_declared(s, t.to),
        state_decl(s, t.to).region == r,
        post.current@ == pre.current@.update(r, t.to),
        post.timer_slots@.len() == pre.timer_slots@.len(),
        forall|k: int|
            0 <= k < pre.timer_slots@.len() ==> enter_slot_ok(
                s,
                exit_slots(s, pre.timer_slots@, t.from),
                post.timer_slots@,
                t.to,
                k,
            ),
        post.subs@ == pre.subs@,
    ensures
        backend_inv(s, post),
{
    assert forall|r2: int| 0 <= r2 < post.current@.len() implies state_declared(
        s,
        #[trigger] post.current@[r2],
    ) && state_decl(s, post.current@[r2]).region == r2 by {
        if r2 != r {
            assert(post.current@[r2] == pre.current@[r2]);
        }
    }
    assert forall|k: int| 0 <= k < post.timer_slots@.len() implies slot_ok(s, post, k) by {
        assert(enter_slot_ok(
            s,
            exit_slots(s, pre.timer_slots@, t.from),
            post.timer_slots@,
            t.to,
            k,
        ));
        let mid = exit_slots(s, pre.timer_slots@, t.from)[k];
        assert(mid == exit_slot(s, pre.timer_slots@, t.from, k));
        if s.timers@[k].state == t.to && s.timers@[k].settings.enabled {
            // freshly started or failed: either the declared instance or none
        } else {
            assert(post.timer_slots@[k] == mid);
            match pre.timer_slots@[k] {
                Some(inst) => {
                    assert(slot_ok(s, pre, k));
                    if inst.settings.cancel_on_state_exit {
                        let owner = s.timers@[k].state;
                        let owner_region = state_decl(s, owner).region as int;
                        if owner_region == r {
                            assert(pre.current@[r] == owner);
                        } else {
                            assert(post.current@[owner_region] == pre.current@[owner_region]);
                        }
                    }
                },
                None => {
                },
            }
        }
    }
    assert(backend_inv(s, post));
}

} // verus!
