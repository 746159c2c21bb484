//! The timer capability and the timer data model.
//!
//! The engine never blocks on time: it asks a capability to create and
//! cancel physical timers by identifier, and polls it for fired ones. A
//! fired timer is fed back into the queue as an ordinary event on the next
//! drive cycle.
use vstd::prelude::*;

use crate::events::{FsmError, FsmResult};
use crate::events::{spec_translate, translate_id};

verus! {

/// Settings of a per-state timer as a schema declares them.
#[derive(Clone, Copy, Debug, PartialEq, Eq, Structural)]
pub struct TimerFsmSettings {
    pub enabled: bool,
    /// Timeout in abstract time units.
    pub timeout: u64,
    /// Re-arm automatically after a trigger.
    pub renew: bool,
    /// Cancel the physical timer when the owning state is exited.
    pub cancel_on_state_exit: bool,
}

/// The part of a timer's settings the capability consumes.
pub open spec fn spec_timer_settings(s: TimerFsmSettings) -> TimerSettings {
    TimerSettings { enabled: s.enabled, timeout: s.timeout, renew: s.renew }
}

impl TimerFsmSettings {
    /// The part of the settings the timer capability consumes.
    pub fn to_timer_settings(&self) -> (r: TimerSettings)
        ensures
            r == spec_timer_settings(*self),
            r.enabled == self.enabled,
            r.timeout == self.timeout,
            r.renew == self.renew,
    {
        TimerSettings { enabled: self.enabled, timeout: self.timeout, renew: self.renew }
    }
}

impl Default for TimerFsmSettings {
    /// Enabled, one time unit, no renewal, cancelled on state exit.
    fn default() -> (r: Self)
        ensures
            r.enabled == true,
            r.timeout == 1,
            r.renew == false,
            r.cancel_on_state_exit == true,
    {
        TimerFsmSettings { enabled: true, timeout: 1, renew: false, cancel_on_state_exit: true }
    }
}

/// Settings as the timer capability sees them.
#[derive(Clone, Copy, Debug, PartialEq, Eq, Structural)]
pub struct TimerSettings {
    pub enabled: bool,
    pub timeout: u64,
    pub renew: bool,
}

/// The live handle of a started timer: its identifier and the settings
/// snapshot it was started with. One exists for a state's timer only while
/// the timer lifecycle controller keeps it (see `dispatch`).
#[derive(Clone, Copy, Debug, PartialEq, Eq, Structural)]
pub struct TimerInstance {
    pub id: u64,
    pub settings: TimerFsmSettings,
}

/// The timer capability: lifecycle operations over abstract timer
/// identifiers. `active` models which identifiers currently have a
/// physical timer; `reliable` whether the capability is promised never to
/// refuse a create or a cancel; `fired` the reports waiting to be polled,
/// oldest first. A report may name an identifier that was cancelled after
/// it fired, and the engine must tolerate that.
pub trait FsmTimers: Sized {
    /// The identifiers that currently have a physical timer.
    spec fn active(&self) -> Set<u64>;

    /// Whether every create and cancel is promised to succeed.
    spec fn reliable(&self) -> bool;

    /// The fired identifiers not yet polled, oldest first.
    spec fn fired(&self) -> Seq<u64>;

    /// Every accepted creation, in order: the identifier and the very
    /// settings the call received.
    spec fn creation_log(&self) -> Seq<(u64, TimerSettings)>;

    fn create(&mut self, id: u64, settings: &TimerSettings) -> (r: FsmResult<()>)
        ensures
            r is Ok ==> final(self).active() =~= old(self).active().insert(id),
            r is Err ==> final(self).active() =~= old(self).active(),
            r is Ok ==> final(self).creation_log() == old(self).creation_log().push(
                (id, *settings),
            ),
            r is Err ==> final(self).creation_log() == old(self).creation_log(),
            old(self).reliable() ==> r is Ok,
            final(self).reliable() == old(self).reliable(),
    ;

    fn cancel(&mut self, id: u64) -> (r: FsmResult<()>)
        ensures
            r is Ok ==> final(self).active() =~= old(self).active().remove(id),
            r is Err ==> final(self).active() =~= old(self).active(),
            final(self).creation_log() == old(self).creation_log(),
            old(self).reliable() ==> r is Ok,
            final(self).reliable() == old(self).reliable(),
    ;

    /// The fired timer to handle next, polled until `None`: the reports
    /// leave in FIFO order with respect to trigger time.
    fn get_triggered_timer(&mut self) -> (r: Option<u64>)
        ensures
            final(self).active() =~= old(self).active(),
            final(self).creation_log() == old(self).creation_log(),
            final(self).reliable() == old(self).reliable(),
            old(self).fired().len() == 0 ==> r is None && final(self).fired() == old(
                self,
            ).fired(),
            old(self).fired().len() > 0 ==> r == Some(old(self).fired()[0]) && final(self).fired()
                == old(self).fired().drop_first(),
    ;
}

/// The number of timer events fed into the queue by one poll pass.
#[derive(Debug, Default, Copy, Clone, PartialEq, Eq, Structural)]
pub struct FsmTimersTriggerEventsResult {
    pub triggered_events: usize,
}

/// The capability for machines that declare no timers: every operation is
/// refused with `NotSupported`, and nothing ever fires.
#[derive(Debug, Default, Copy, Clone)]
pub struct FsmTimersNull;

impl FsmTimers for FsmTimersNull {
    open spec fn active(&self) -> Set<u64> {
        Set::empty()
    }

    open spec fn reliable(&self) -> bool {
        false
    }

    open spec fn fired(&self) -> Seq<u64> {
        Seq::empty()
    }

    open spec fn creation_log(&self) -> Seq<(u64, TimerSettings)> {
        Seq::empty()
    }

    fn create(&mut self, id: u64, settings: &TimerSettings) -> (r: FsmResult<()>)
        ensures
            r == FsmResult::<()>::Err(FsmError::NotSupported),
    {
        Err(FsmError::NotSupported)
    }

    fn cancel(&mut self, id: u64) -> (r: FsmResult<()>)
        ensures
            r == FsmResult::<()>::Err(FsmError::NotSupported),
    {
        Err(FsmError::NotSupported)
    }

    fn get_triggered_timer(&mut self) -> (r: Option<u64>)
        ensures
            r is None,
    {
        None
    }
}

/// Whether a sequence has an element equal to `x`.
fn vec_contains_u64(v: &Vec<u64>, x: u64) -> (r: bool)
    ensures
        r == v@.contains(x),
{
    let mut i: usize = 0;
    while i < v.len()
        invariant
            i <= v@.len(),
            forall|j: int| 0 <= j < i ==> v@[j] != x,
        decreases v@.len() - i,
    {
        if v[i] == x {
            return true;
        }
        i = i + 1;
    }
    false
}

proof fn lemma_push_contains(s: Seq<u64>, v: u64, x: u64)
    ensures
        s.push(v).contains(x) <==> (s.contains(x) || x == v),
{
    if s.push(v).contains(x) {
        let i = choose|i: int| 0 <= i < s.push(v).len() && s.push(v)[i] == x;
        if i < s.len() {
            assert(s[i] == x);
        }
    }
    if s.contains(x) {
        let i = choose|i: int| 0 <= i < s.len() && s[i] == x;
        assert(s.push(v)[i] == x);
    }
    if x == v {
        assert(s.push(v)[s.len() as int] == x);
    }
}

/// A deterministic, manually driven timer capability: timers become active
/// on `create`, leave on `cancel`, and fire only when `fire` is called.
/// Fired identifiers are reported in FIFO order, and a cancellation does
/// not retract an already fired report — the late-trigger race the engine
/// must tolerate.
pub struct FsmTimersVec {
    pub items: Vec<u64>,
    pub triggered: Vec<u64>,
    pub created: Vec<(u64, TimerSettings)>,
}

impl FsmTimersVec {
    /// No active and no fired timers, nothing created yet.
    pub fn new() -> (r: FsmTimersVec)
        ensures
            r.active() =~= Set::<u64>::empty(),
            r.fired() == Seq::<u64>::empty(),
            r.creation_log() == Seq::<(u64, TimerSettings)>::empty(),
    {
        FsmTimersVec { items: Vec::new(), triggered: Vec::new(), created: Vec::new() }
    }

    /// Mark an active timer as fired; firing an inactive identifier is
    /// ignored.
    pub fn fire(&mut self, id: u64)
        ensures
            final(self).active() =~= old(self).active(),
            old(self).active().contains(id) ==> final(self).fired() == old(self).fired().push(id),
            !old(self).active().contains(id) ==> final(self).fired() == old(self).fired(),
    {
        if vec_contains_u64(&self.items, id) {
            self.triggered.push(id);
        }
    }
}

impl FsmTimers for FsmTimersVec {
    open spec fn active(&self) -> Set<u64> {
        Set::new(|x: u64| self.items@.contains(x))
    }

    open spec fn reliable(&self) -> bool {
        true
    }

    open spec fn fired(&self) -> Seq<u64> {
        self.triggered@
    }

    open spec fn creation_log(&self) -> Seq<(u64, TimerSettings)> {
        self.created@
    }

    fn create(&mut self, id: u64, settings: &TimerSettings) -> (r: FsmResult<()>)
        ensures
            r is Ok,
            final(self).fired() == old(self).fired(),
    {
        self.created.push((id, *settings));
        self.items.push(id);
        proof {
            assert forall|x: u64| #[trigger]
                self.active().contains(x) <==> old(self).active().insert(id).contains(x) by {
                lemma_push_contains(old(self).items@, id, x);
            }
            assert(self.active() =~= old(self).active().insert(id));
        }
        Ok(())
    }

    fn cancel(&mut self, id: u64) -> (r: FsmResult<()>)
        ensures
            r is Ok,
            final(self).fired() == old(self).fired(),
    {
        let mut kept: Vec<u64> = Vec::new();
        let mut i: usize = 0;
        while i < self.items.len()
            invariant
                i <= self.items@.len(),
                self.items@ == old(self).items@,
                self.triggered@ == old(self).triggered@,
                !kept@.contains(id),
                forall|x: u64|
                    x != id ==> (kept@.contains(x) <==> self.items@.take(i as int).contains(x)),
            decreases self.items@.len() - i,
        {
            let v = self.items[i];
            proof {
                assert(self.items@.take(i + 1) =~= self.items@.take(i as int).push(
                    self.items@[i as int],
                ));
            }
            if v != id {
                let ghost pre_kept = kept@;
                kept.push(v);
                proof {
                    assert forall|x: u64| x != id implies (kept@.contains(x)
                        <==> self.items@.take(i + 1).contains(x)) by {
                        lemma_push_contains(pre_kept, v, x);
                        lemma_push_contains(self.items@.take(i as int), self.items@[i as int], x);
                    }
                    lemma_push_contains(pre_kept, v, id);
                }
            } else {
                proof {
                    assert forall|x: u64| x != id implies (kept@.contains(x)
                        <==> self.items@.take(i + 1).contains(x)) by {
                        lemma_push_contains(self.items@.take(i as int), self.items@[i as int], x);
                    }
                }
            }
            i = i + 1;
        }
        proof {
            assert(self.items@.take(i as int) =~= self.items@);
        }
        self.items = kept;
        proof {
            assert(self.active() =~= old(self).active().remove(id));
        }
        Ok(())
    }

    fn get_triggered_timer(&mut self) -> (r: Option<u64>) {
        if self.triggered.len() == 0 {
            None
        } else {
            let id = self.triggered.remove(0);
            proof {
                assert(old(self).triggered@.remove(0) =~= old(self).triggered@.drop_first());
            }
            Some(id)
        }
    }
}

/// The namespace adapter of the timer capability: lifecycle requests of a
/// sub-machine are translated into the parent's timer identifiers through
/// the schema's conversion table and forwarded to the parent's capability.
pub struct FsmTimersSub {
    /// Child timer identifier to parent timer identifier.
    pub timer_out: Vec<(u64, u64)>,
}

impl FsmTimersSub {
    /// Create a child timer through the parent capability under the
    /// translated identifier; an identifier outside the conversion table is
    /// a structural fault.
    pub fn create<T: FsmTimers>(
        &self,
        parent: &mut T,
        id: u64,
        settings: &TimerSettings,
    ) -> (r: FsmResult<()>)
        ensures
            match spec_translate(self.timer_out@, id) {
                Some(pid) => {
                    &&& r is Ok ==> final(parent).active() =~= old(parent).active().insert(pid)
                    &&& r is Err ==> final(parent).active() =~= old(parent).active()
                    &&& r is Ok ==> final(parent).creation_log() == old(
                        parent,
                    ).creation_log().push((pid, *settings))
                    &&& r is Err ==> final(parent).creation_log() == old(parent).creation_log()
                    &&& old(parent).reliable() ==> r is Ok
                    &&& final(parent).reliable() == old(parent).reliable()
                },
                None => r == FsmResult::<()>::Err(FsmError::MissingConversion) && *final(parent)
                    == *old(parent),
            },
    {
        match translate_id(&self.timer_out, id) {
            Some(pid) => parent.create(pid, settings),
            None => Err(FsmError::MissingConversion),
        }
    }

    /// Cancel a child timer through the parent capability.
    pub fn cancel<T: FsmTimers>(&self, parent: &mut T, id: u64) -> (r: FsmResult<()>)
        ensures
            match spec_translate(self.timer_out@, id) {
                Some(pid) => {
                    &&& r is Ok ==> final(parent).active() =~= old(parent).active().remove(pid)
                    &&& r is Err ==> final(parent).active() =~= old(parent).active()
                    &&& old(parent).reliable() ==> r is Ok
                    &&& final(parent).reliable() == old(parent).reliable()
                },
                None => r == FsmResult::<()>::Err(FsmError::MissingConversion) && *final(parent)
                    == *old(parent),
            },
    {
        match translate_id(&self.timer_out, id) {
            Some(pid) => parent.cancel(pid),
            None => Err(FsmError::MissingConversion),
        }
    }

    /// Sub-machine timers are polled at the root: a fired translated timer
    /// comes back through the parent's own poll, in the parent's namespace,
    /// and is routed by the parent's schema. The adapter therefore reports
    /// none of its own.
    pub fn get_triggered_timer(&self) -> (r: Option<u64>)
        ensures
            r is None,
    {
        None
    }
}

} // verus!
