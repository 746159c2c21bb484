//! A runtime engine for hierarchical, region-based finite state machines.
//!
//! A machine is described once, ahead of time, as an immutable schema —
//! states, events, timers, regions, a transition table, and embedded
//! sub-machine schemas — and then driven by dispatching events from a FIFO
//! queue. The engine runs exit, transition and entry actions, manages
//! per-state timers, and routes events into nested sub-machines through
//! namespace adapters, while every step can be observed through a pluggable
//! instrumentation capability. Execution is single-threaded and
//! cooperative: an action may enqueue further events, but they are only
//! seen on a later drive cycle.
//!
//! Guards and actions are a closed data vocabulary over an integer
//! context (`events::Guard`, `events::Action`), standing in for
//! user-supplied closures: a machine's behaviour is fully determined by
//! its schema, which is what makes the dispatch relation stateable and
//! provable. Arbitrary user computation inside an action is out of
//! scope by this design.
pub mod backend;
pub mod decl;
pub mod dispatch;
pub mod events;
pub mod frontend;
pub mod inspect;
pub mod laws;
pub mod queue;
pub mod timers;
