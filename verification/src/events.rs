//! Events, errors, guards and actions: the value vocabulary of the engine.
//!
//! States, events and timers of a compiled machine are identified by plain
//! integers; a schema (see `decl`) closes them into a machine. Guards and
//! actions — supplied by the machine's author through the declarative layer —
//! are carried as small data values with exact semantics, so that the
//! dispatch engine's contracts can state precisely what one dispatch does.
use vstd::prelude::*;

verus! {

/// The error kinds of the engine and its capabilities.
#[derive(Clone, Copy, Debug, PartialEq, Eq, Structural)]
pub enum FsmError {
    /// A capability cannot perform the requested operation at all.
    NotSupported,
    /// A trigger was reported for a timer with no live instance.
    TimerNotStarted,
    /// A sub-machine event or timer conversion was unexpectedly absent.
    MissingConversion,
    /// The queue rejected an event for want of capacity.
    QueueOverCapacity,
    /// The schema handed to the factory is not well formed.
    InvalidSchema,
}

pub type FsmResult<T> = Result<T, FsmError>;

/// An event as it sits in the queue: either a plain schema event or the
/// marker that the timer with the given identifier fired.
#[derive(Clone, Copy, Debug, PartialEq, Eq, Structural)]
pub enum FsmEvent {
    Event(u64),
    Timer(u64),
}

/// A guard: a predicate over the machine's context value, evaluated before
/// a transition is taken. A transition without a guard is always eligible.
#[derive(Clone, Copy, Debug, PartialEq, Eq, Structural)]
pub enum Guard {
    ContextEquals(i64),
    ContextAtLeast(i64),
    ContextAtMost(i64),
}

/// What a guard means.
pub open spec fn guard_passes(g: Guard, ctx: i64) -> bool {
    match g {
        Guard::ContextEquals(v) => ctx == v,
        Guard::ContextAtLeast(v) => ctx >= v,
        Guard::ContextAtMost(v) => ctx <= v,
    }
}

/// An absent guard always passes.
pub open spec fn guard_opt_passes(g: Option<Guard>, ctx: i64) -> bool {
    match g {
        Some(g) => guard_passes(g, ctx),
        None => true,
    }
}

/// Evaluate a guard against the context, exactly as `guard_passes` states.
pub fn eval_guard(g: &Guard, ctx: i64) -> (r: bool)
    ensures
        r == guard_passes(*g, ctx),
{
    match g {
        Guard::ContextEquals(v) => ctx == *v,
        Guard::ContextAtLeast(v) => ctx >= *v,
        Guard::ContextAtMost(v) => ctx <= *v,
    }
}

/// An action run on state entry, on state exit, or along a transition: a
/// pure step over the context value that may also leave events behind for
/// later drive cycles. Actions never dispatch synchronously.
#[derive(Clone, Copy, Debug, PartialEq, Eq, Structural)]
pub enum Action {
    /// Do nothing.
    Nop,
    /// Replace the context value.
    SetContext(i64),
    /// Enqueue a plain event of this machine for a later drive cycle.
    Enqueue(u64),
}

/// The context value after an action ran over `ctx`.
pub open spec fn action_context(a: Action, ctx: i64) -> i64 {
    match a {
        Action::SetContext(v) => v,
        _ => ctx,
    }
}

/// The events an action leaves for the queue, in its own event namespace.
pub open spec fn action_emits(a: Action) -> Seq<u64> {
    match a {
        Action::Enqueue(e) => seq![e],
        _ => Seq::empty(),
    }
}

/// First value paired with `key` in a conversion table, if any. Conversion
/// tables are the data form of the namespace adapters between a sub-machine
/// and its parent.
pub open spec fn spec_translate(table: Seq<(u64, u64)>, key: u64) -> Option<u64>
    decreases table.len(),
{
    if table.len() == 0 {
        None
    } else if table[0].0 == key {
        Some(table[0].1)
    } else {
        spec_translate(table.drop_first(), key)
    }
}

/// First key paired with `value` in a conversion table, if any: the
/// reverse direction, used to route a fired parent timer back into the
/// sub-machine whose adapter created it.
pub open spec fn spec_rev_translate(table: Seq<(u64, u64)>, value: u64) -> Option<u64>
    decreases table.len(),
{
    if table.len() == 0 {
        None
    } else if table[0].1 == value {
        Some(table[0].0)
    } else {
        spec_rev_translate(table.drop_first(), value)
    }
}

/// Look `value` up among the table's results, exactly as
/// `spec_rev_translate` states.
pub fn rev_translate_id(table: &Vec<(u64, u64)>, value: u64) -> (r: Option<u64>)
    ensures
        r == spec_rev_translate(table@, value),
{
    let mut i: usize = 0;
    proof {
        assert(table@.skip(0) =~= table@);
    }
    while i < table.len()
        invariant
            i <= table@.len(),
            spec_rev_translate(table@, value) == spec_rev_translate(table@.skip(i as int), value),
        decreases table@.len() - i,
    {
        proof {
            assert(table@.skip(i as int)[0] == table@[i as int]);
            assert(table@.skip(i as int).drop_first() =~= table@.skip(i + 1));
        }
        if table[i].1 == value {
            return Some(table[i].0);
        }
        i = i + 1;
    }
    proof {
        assert(table@.skip(i as int).len() == 0);
    }
    None
}

/// Look `key` up in a conversion table, exactly as `spec_translate` states.
pub fn translate_id(table: &Vec<(u64, u64)>, key: u64) -> (r: Option<u64>)
    ensures
        r == spec_translate(table@, key),
{
    let mut i: usize = 0;
    proof {
        assert(table@.skip(0) =~= table@);
    }
    while i < table.len()
        invariant
            i <= table@.len(),
            spec_translate(table@, key) == spec_translate(table@.skip(i as int), key),
        decreases table@.len() - i,
    {
        proof {
            assert(table@.skip(i as int)[0] == table@[i as int]);
            assert(table@.skip(i as int).drop_first() =~= table@.skip(i + 1));
        }
        if table[i].0 == key {
            return Some(table[i].1);
        }
        i = i + 1;
    }
    proof {
        assert(table@.skip(i as int).len() == 0);
    }
    None
}

} // verus!
