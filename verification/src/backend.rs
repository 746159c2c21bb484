//! The live instance of a machine: one context value, one current state
//! per region, one live-timer slot per declared timer, and one embedded
//! child instance per declared sub-machine. The schema itself stays
//! outside the instance and is passed alongside it, immutable.
use vstd::prelude::*;

use crate::decl::{
    has_sub, has_transition, schema_wf, schema_wf_local, state_decl, state_declared, sub_index,
    the_transition, trans_matches, BuiltFsm, StateDecl, SubDecl, TimerDecl, Transition,
};
use crate::events::{FsmError, FsmResult};
use crate::timers::TimerInstance;

verus! {

/// The mutable state of one machine instance.
pub struct FsmBackendImpl {
    /// The user context value, exclusively owned by this instance.
    pub context: i64,
    /// The current state of each region; the core invariant keeps exactly
    /// one per region.
    pub current: Vec<u64>,
    /// The live timer of each declared timer, in declaration order.
    pub timer_slots: Vec<Option<TimerInstance>>,
    /// One child instance per declared sub-machine, in declaration order.
    pub subs: Vec<FsmBackendImpl>,
}

/// A live timer slot is consistent: it carries the declared identifier and
/// settings, and — when the timer is cancelled on state exit — its owning
/// state is still current in its region.
pub open spec fn slot_ok(s: BuiltFsm, m: FsmBackendImpl, k: int) -> bool {
    match m.timer_slots@[k] {
        Some(inst) => {
            &&& inst.id == s.timers@[k].timer_id
            &&& inst.settings == s.timers@[k].settings
            &&& inst.settings.cancel_on_state_exit ==> m.current@[state_decl(
                s,
                s.timers@[k].state,
            ).region as int] == s.timers@[k].state
        },
        None => true,
    }
}

/// The core invariant of an instance against its schema: every region
/// holds exactly one declared state of that region, every timer slot is
/// consistent, and every embedded child instance satisfies the same
/// invariant against its child schema.
pub open spec fn backend_inv(s: BuiltFsm, m: FsmBackendImpl) -> bool
    decreases s.height,
{
    &&& m.current@.len() == s.initial@.len()
    &&& (forall|r: int|
        0 <= r < m.current@.len() ==> state_declared(s, #[trigger] m.current@[r]) && state_decl(
            s,
            m.current@[r],
        ).region == r)
    &&& m.timer_slots@.len() == s.timers@.len()
    &&& (forall|k: int| 0 <= k < m.timer_slots@.len() ==> slot_ok(s, m, k))
    &&& m.subs@.len() == s.subs@.len()
    &&& (forall|i: int|
        0 <= i < m.subs@.len() ==> (#[trigger] s.subs@[i]).child.height < s.height && backend_inv(
            s.subs@[i].child,
            m.subs@[i],
        ))
}

/// A freshly built instance: every region at its initial state, no live
/// timers, every child instance fresh at its declared starting context.
pub open spec fn fresh_instance(s: BuiltFsm, m: FsmBackendImpl) -> bool
    decreases s.height,
{
    &&& m.current@ == s.initial@
    &&& m.timer_slots@.len() == s.timers@.len()
    &&& (forall|k: int| 0 <= k < m.timer_slots@.len() ==> m.timer_slots@[k] is None)
    &&& m.subs@.len() == s.subs@.len()
    &&& (forall|i: int|
        0 <= i < m.subs@.len() ==> (#[trigger] s.subs@[i]).child.height < s.height
            && m.subs@[i].context == s.subs@[i].initial_context && fresh_instance(
            s.subs@[i].child,
            m.subs@[i],
        ))
}

/// Under unique state identifiers, the declaration found at an index is
/// the declaration of its identifier.
pub proof fn lemma_state_decl_at(s: BuiltFsm, i: int)
    requires
        forall|a: int, b: int| 0 <= a < b < s.states@.len() ==> s.states@[a].id != s.states@[b].id,
        0 <= i < s.states@.len(),
    ensures
        state_declared(s, s.states@[i].id),
        state_decl(s, s.states@[i].id) == s.states@[i],
{
    let id = s.states@[i].id;
    assert(state_declared(s, id));
    let j = choose|j: int| 0 <= j < s.states@.len() && s.states@[j].id == id;
    if j < i {
        assert(s.states@[j].id != s.states@[i].id);
    } else if i < j {
        assert(s.states@[i].id != s.states@[j].id);
    }
}

/// Under a duplicate-free transition table, the row found at an index is
/// the row of its key.
pub proof fn lemma_transition_at(s: BuiltFsm, j: int)
    requires
        forall|a: int, b: int|
            0 <= a < b < s.transitions@.len() ==> !(s.transitions@[a].region
                == s.transitions@[b].region && s.transitions@[a].from == s.transitions@[b].from
                && s.transitions@[a].event == s.transitions@[b].event),
        0 <= j < s.transitions@.len(),
    ensures
        has_transition(
            s,
            s.transitions@[j].region as int,
            s.transitions@[j].from,
            s.transitions@[j].event,
        ),
        the_transition(
            s,
            s.transitions@[j].region as int,
            s.transitions@[j].from,
            s.transitions@[j].event,
        ) == s.transitions@[j],
{
    let t = s.transitions@[j];
    assert(trans_matches(s.transitions@[j], t.region as int, t.from, t.event));
    assert(has_transition(s, t.region as int, t.from, t.event));
    let k = choose|k: int|
        0 <= k < s.transitions@.len() && trans_matches(
            s.transitions@[k],
            t.region as int,
            t.from,
            t.event,
        );
    if k < j {
        assert(!(s.transitions@[k].region == s.transitions@[j].region && s.transitions@[k].from
            == s.transitions@[j].from && s.transitions@[k].event == s.transitions@[j].event));
    } else if j < k {
        assert(!(s.transitions@[j].region == s.transitions@[k].region && s.transitions@[j].from
            == s.transitions@[k].from && s.transitions@[j].event == s.transitions@[k].event));
    }
}

/// Under unique wrapper states, the sub-machine found at an index is the
/// sub-machine of its wrapper state.
pub proof fn lemma_sub_at(s: BuiltFsm, i: int)
    requires
        forall|a: int, b: int|
            0 <= a < b < s.subs@.len() ==> s.subs@[a].parent_state != s.subs@[b].parent_state,
        0 <= i < s.subs@.len(),
    ensures
        has_sub(s, s.subs@[i].parent_state),
        sub_index(s, s.subs@[i].parent_state) == i,
{
    let st = s.subs@[i].parent_state;
    assert(has_sub(s, st));
    let j = choose|j: int| 0 <= j < s.subs@.len() && s.subs@[j].parent_state == st;
    if j < i {
        assert(s.subs@[j].parent_state != s.subs@[i].parent_state);
    } else if i < j {
        assert(s.subs@[i].parent_state != s.subs@[j].parent_state);
    }
}

/// The index of the declaration of state `id`, if any.
pub fn find_state_idx(states: &Vec<StateDecl>, id: u64) -> (r: Option<usize>)
    ensures
        match r {
            Some(i) => i < states@.len() && states@[i as int].id == id,
            None => forall|i: int| 0 <= i < states@.len() ==> states@[i].id != id,
        },
{
    let mut i: usize = 0;
    while i < states.len()
        invariant
            i <= states@.len(),
            forall|j: int| 0 <= j < i ==> states@[j].id != id,
        decreases states@.len() - i,
    {
        if states[i].id == id {
            return Some(i);
        }
        i = i + 1;
    }
    None
}

fn check_states_unique(states: &Vec<StateDecl>) -> (r: bool)
    ensures
        r == (forall|a: int, b: int|
            0 <= a < b < states@.len() ==> states@[a].id != states@[b].id),
{
    let mut i: usize = 0;
    while i < states.len()
        invariant
            i <= states@.len(),
            forall|a: int, b: int| 0 <= a < b < states@.len() && a < i ==> states@[a].id
                != states@[b].id,
        decreases states@.len() - i,
    {
        let mut j: usize = i + 1;
        while j < states.len()
            invariant
                i < states@.len(),
                i + 1 <= j <= states@.len(),
                forall|a: int, b: int| 0 <= a < b < states@.len() && a < i ==> states@[a].id
                    != states@[b].id,
                forall|b: int| i < b < j ==> states@[i as int].id != states@[b].id,
            decreases states@.len() - j,
        {
            if states[i].id == states[j].id {
                return false;
            }
            j = j + 1;
        }
        i = i + 1;
    }
    true
}

fn check_transitions_unique(ts: &Vec<Transition>) -> (r: bool)
    ensures
        r == (forall|a: int, b: int|
            0 <= a < b < ts@.len() ==> !(ts@[a].region == ts@[b].region && ts@[a].from == ts@[b].from
                && ts@[a].event == ts@[b].event)),
{
    let mut i: usize = 0;
    while i < ts.len()
        invariant
            i <= ts@.len(),
            forall|a: int, b: int| 0 <= a < b < ts@.len() && a < i ==> !(ts@[a].region
                == ts@[b].region && ts@[a].from == ts@[b].from && ts@[a].event == ts@[b].event),
        decreases ts@.len() - i,
    {
        let mut j: usize = i + 1;
        while j < ts.len()
            invariant
                i < ts@.len(),
                i + 1 <= j <= ts@.len(),
                forall|a: int, b: int| 0 <= a < b < ts@.len() && a < i ==> !(ts@[a].region
                    == ts@[b].region && ts@[a].from == ts@[b].from && ts@[a].event
                    == ts@[b].event),
                forall|b: int| i < b < j ==> !(ts@[i as int].region == ts@[b].region
                    && ts@[i as int].from == ts@[b].from && ts@[i as int].event == ts@[b].event),
            decreases ts@.len() - j,
        {
            if ts[i].region == ts[j].region && ts[i].from == ts[j].from && ts[i].event == ts[j].event
            {
                return false;
            }
            j = j + 1;
        }
        i = i + 1;
    }
    true
}

fn check_timers_unique(tm: &Vec<TimerDecl>) -> (r: bool)
    ensures
        r == (forall|a: int, b: int|
            0 <= a < b < tm@.len() ==> tm@[a].timer_id != tm@[b].timer_id),
{
    let mut i: usize = 0;
    while i < tm.len()
        invariant
            i <= tm@.len(),
            forall|a: int, b: int| 0 <= a < b < tm@.len() && a < i ==> tm@[a].timer_id
                != tm@[b].timer_id,
        decreases tm@.len() - i,
    {
        let mut j: usize = i + 1;
        while j < tm.len()
            invariant
                i < tm@.len(),
                i + 1 <= j <= tm@.len(),
                forall|a: int, b: int| 0 <= a < b < tm@.len() && a < i ==> tm@[a].timer_id
                    != tm@[b].timer_id,
                forall|b: int| i < b < j ==> tm@[i as int].timer_id != tm@[b].timer_id,
            decreases tm@.len() - j,
        {
            if tm[i].timer_id == tm[j].timer_id {
                return false;
            }
            j = j + 1;
        }
        i = i + 1;
    }
    true
}

fn check_subs_unique(subs: &Vec<SubDecl>) -> (r: bool)
    ensures
        r == (forall|a: int, b: int|
            0 <= a < b < subs@.len() ==> subs@[a].parent_state != subs@[b].parent_state),
{
    let mut i: usize = 0;
    while i < subs.len()
        invariant
            i <= subs@.len(),
            forall|a: int, b: int| 0 <= a < b < subs@.len() && a < i ==> subs@[a].parent_state
                != subs@[b].parent_state,
        decreases subs@.len() - i,
    {
        let mut j: usize = i + 1;
        while j < subs.len()
            invariant
                i < subs@.len(),
                i + 1 <= j <= subs@.len(),
                forall|a: int, b: int| 0 <= a < b < subs@.len() && a < i ==> subs@[a].parent_state
                    != subs@[b].parent_state,
                forall|b: int| i < b < j ==> subs@[i as int].parent_state
                    != subs@[b].parent_state,
            decreases subs@.len() - j,
        {
            if subs[i].parent_state == subs[j].parent_state {
                return false;
            }
            j = j + 1;
        }
        i = i + 1;
    }
    true
}

/// Decide `schema_wf` at run time: the factory's one-time validation.
pub fn check_schema(s: &BuiltFsm) -> (r: bool)
    ensures
        r == schema_wf(*s),
    decreases s.height,
{
    if s.initial.len() == 0 {
        return false;
    }
    if !check_states_unique(&s.states) {
        return false;
    }
    // State regions in range.
    let mut i: usize = 0;
    while i < s.states.len()
        invariant
            i <= s.states@.len(),
            forall|a: int| 0 <= a < i ==> (#[trigger] s.states@[a]).region < s.initial@.len(),
        decreases s.states@.len() - i,
    {
        if s.states[i].region >= s.initial.len() {
            return false;
        }
        i = i + 1;
    }
    // Initial states declared, one per region, in that region.
    let mut r: usize = 0;
    while r < s.initial.len()
        invariant
            r <= s.initial@.len(),
            forall|a: int, b: int| 0 <= a < b < s.states@.len() ==> s.states@[a].id
                != s.states@[b].id,
            forall|a: int| 0 <= a < r ==> state_declared(*s, #[trigger] s.initial@[a])
                && state_decl(*s, s.initial@[a]).region == a,
        decreases s.initial@.len() - r,
    {
        match find_state_idx(&s.states, s.initial[r]) {
            Some(ix) => {
                proof {
                    lemma_state_decl_at(*s, ix as int);
                }
                if s.states[ix].region != r {
                    return false;
                }
            },
            None => {
                return false;
            },
        }
        r = r + 1;
    }
    // Transition ends declared and in the row's region.
    if !check_transitions_unique(&s.transitions) {
        return false;
    }
    let mut i: usize = 0;
    while i < s.transitions.len()
        invariant
            i <= s.transitions@.len(),
            forall|a: int, b: int| 0 <= a < b < s.states@.len() ==> s.states@[a].id
                != s.states@[b].id,
            forall|a: int|
                0 <= a < i ==> {
                    let t = #[trigger] s.transitions@[a];
                    &&& state_declared(*s, t.from)
                    &&& state_declared(*s, t.to)
                    &&& state_decl(*s, t.from).region == t.region
                    &&& state_decl(*s, t.to).region == t.region
                },
        decreases s.transitions@.len() - i,
    {
        let t_from = s.transitions[i].from;
        let t_to = s.transitions[i].to;
        let t_region = s.transitions[i].region;
        match find_state_idx(&s.states, t_from) {
            Some(ix) => {
                proof {
                    lemma_state_decl_at(*s, ix as int);
                }
                if s.states[ix].region != t_region {
                    return false;
                }
            },
            None => {
                return false;
            },
        }
        match find_state_idx(&s.states, t_to) {
            Some(ix) => {
                proof {
                    lemma_state_decl_at(*s, ix as int);
                }
                if s.states[ix].region != t_region {
                    return false;
                }
            },
            None => {
                return false;
            },
        }
        i = i + 1;
    }
    // Timer states declared, timer identifiers unique.
    if !check_timers_unique(&s.timers) {
        return false;
    }
    let mut i: usize = 0;
    while i < s.timers.len()
        invariant
            i <= s.timers@.len(),
            forall|a: int| 0 <= a < i ==> state_declared(*s, (#[trigger] s.timers@[a]).state),
        decreases s.timers@.len() - i,
    {
        match find_state_idx(&s.states, s.timers[i].state) {
            Some(_) => {
            },
            None => {
                return false;
            },
        }
        i = i + 1;
    }
    // Sub-machine wrappers declared and unique, children below the bound
    // and themselves well formed.
    if !check_subs_unique(&s.subs) {
        return false;
    }
    let mut i: usize = 0;
    while i < s.subs.len()
        invariant
            i <= s.subs@.len(),
            forall|a: int| 0 <= a < i ==> state_declared(*s, (#[trigger] s.subs@[a]).parent_state)
                && s.subs@[a].child.height < s.height && schema_wf(s.subs@[a].child),
        decreases s.subs@.len() - i,
    {
        match find_state_idx(&s.states, s.subs[i].parent_state) {
            Some(_) => {
            },
            None => {
                return false;
            },
        }
        if s.subs[i].child.height >= s.height {
            return false;
        }
        if !check_schema(&s.subs[i].child) {
            return false;
        }
        i = i + 1;
    }
    true
}

impl FsmBackendImpl {
    /// Build the instance of a schema already known to be well formed:
    /// every region at its initial state, no live timers, children fresh.
    pub fn build_fresh(s: &BuiltFsm, context: i64) -> (r: FsmBackendImpl)
        requires
            schema_wf(*s),
        ensures
            fresh_instance(*s, r),
            backend_inv(*s, r),
            r.context == context,
        decreases s.height,
    {
        let mut current: Vec<u64> = Vec::new();
        let mut i: usize = 0;
        while i < s.initial.len()
            invariant
                i <= s.initial@.len(),
                current@ == s.initial@.take(i as int),
            decreases s.initial@.len() - i,
        {
            current.push(s.initial[i]);
            proof {
                assert(s.initial@.take(i + 1) =~= s.initial@.take(i as int).push(
                    s.initial@[i as int],
                ));
            }
            i = i + 1;
        }
        proof {
            assert(s.initial@.take(s.initial@.len() as int) =~= s.initial@);
        }
        let mut timer_slots: Vec<Option<TimerInstance>> = Vec::new();
        let mut i: usize = 0;
        while i < s.timers.len()
            invariant
                i <= s.timers@.len(),
                timer_slots@.len() == i,
                forall|k: int| 0 <= k < i ==> timer_slots@[k] is None,
            decreases s.timers@.len() - i,
        {
            timer_slots.push(None);
            i = i + 1;
        }
        let mut subs: Vec<FsmBackendImpl> = Vec::new();
        let mut i: usize = 0;
        while i < s.subs.len()
            invariant
                schema_wf(*s),
                i <= s.subs@.len(),
                subs@.len() == i,
                forall|a: int| 0 <= a < i ==> (#[trigger] s.subs@[a]).child.height < s.height
                    && subs@[a].context == s.subs@[a].initial_context && fresh_instance(
                    s.subs@[a].child,
                    subs@[a],
                ) && backend_inv(s.subs@[a].child, subs@[a]),
            decreases s.subs@.len() - i,
        {
            let child = FsmBackendImpl::build_fresh(&s.subs[i].child, s.subs[i].initial_context);
            subs.push(child);
            i = i + 1;
        }
        FsmBackendImpl { context, current, timer_slots, subs }
    }

    /// Build an instance from a context value: validate the schema once,
    /// then start fresh. Succeeds exactly on well-formed schemas.
    pub fn new(s: &BuiltFsm, context: i64) -> (r: FsmResult<FsmBackendImpl>)
        ensures
            r is Ok <==> schema_wf(*s),
            r is Err ==> r == FsmResult::<FsmBackendImpl>::Err(FsmError::InvalidSchema),
            r is Ok ==> fresh_instance(*s, r.unwrap()) && backend_inv(*s, r.unwrap())
                && r.unwrap().context == context,
    {
        if check_schema(s) {
            Ok(FsmBackendImpl::build_fresh(s, context))
        } else {
            Err(FsmError::InvalidSchema)
        }
    }
}

} // verus!
