//! The frontend: a backend instance bundled with one queue, one
//! instrumentation object and one timer capability, each chosen
//! independently by the caller. It offers the operations a caller
//! invokes: enqueue an event, drive the queue one event at a time, and
//! poll the timers for fired identifiers.
use vstd::prelude::*;

use crate::backend::{backend_inv, fresh_instance, FsmBackendImpl};
use crate::decl::{schema_wf, BuiltFsm};
use crate::dispatch::{
    dispatch_event, dispatch_rel, step_witness, EventContext,
};
use crate::events::{FsmError, FsmEvent, FsmResult};
use crate::inspect::{Inspect, InspectNull};
use crate::queue::{FsmEventQueue, FsmEventQueueVec};
use crate::timers::{FsmTimers, FsmTimersTriggerEventsResult, FsmTimersVec};

verus! {

/// A sequence of emitted event identifiers as queue events.
pub open spec fn emits_to_events(emits: Seq<u64>) -> Seq<FsmEvent> {
    emits.map_values(|e: u64| FsmEvent::Event(e))
}

/// A sequence of fired timer identifiers as queue events.
pub open spec fn timer_markers(ids: Seq<u64>) -> Seq<FsmEvent> {
    ids.map_values(|t: u64| FsmEvent::Timer(t))
}

/// A trigger anchor for existentials over an intermediate machine and
/// queue content.
pub open spec fn mid_state_witness(b: FsmBackendImpl, q: Seq<FsmEvent>) -> bool {
    true
}

/// A trigger anchor for the existential over the step at which a drive
/// chain failed.
pub open spec fn err_step_witness(k: nat, b: FsmBackendImpl, q: Seq<FsmEvent>) -> bool {
    true
}

/// One drive step over a reliable queue: the head event is dispatched by
/// `dispatch_rel` with result `res`, and what it emitted is appended.
pub open spec fn drive_rel(
    s: BuiltFsm,
    b: FsmBackendImpl,
    q: Seq<FsmEvent>,
    b2: FsmBackendImpl,
    q2: Seq<FsmEvent>,
    res: FsmResult<()>,
) -> bool {
    &&& q.len() > 0
    &&& exists|em: Seq<u64>, rs: FsmResult<()>|
        #[trigger] step_witness(em, rs) && dispatch_rel(s, b, q[0], b2, em, rs) && q2
            == q.drop_first() + emits_to_events(em) && res == rs
}

/// One successful drive step over a reliable queue: the head event is
/// dispatched without error and what it emitted is appended.
pub open spec fn drive_step_ok(
    s: BuiltFsm,
    b: FsmBackendImpl,
    q: Seq<FsmEvent>,
    b2: FsmBackendImpl,
    q2: Seq<FsmEvent>,
) -> bool {
    &&& q.len() > 0
    &&& exists|em: Seq<u64>, rs: FsmResult<()>|
        #[trigger] step_witness(em, rs) && dispatch_rel(s, b, q[0], b2, em, rs) && rs is Ok && q2
            == q.drop_first() + emits_to_events(em)
}

/// `n` drive steps in a row, each one successful.
pub open spec fn drives_ok(
    s: BuiltFsm,
    b0: FsmBackendImpl,
    q0: Seq<FsmEvent>,
    n: nat,
    bn: FsmBackendImpl,
    qn: Seq<FsmEvent>,
) -> bool
    decreases n,
{
    if n == 0 {
        bn == b0 && qn == q0
    } else {
        exists|bm: FsmBackendImpl, qm: Seq<FsmEvent>|
            #[trigger] mid_state_witness(bm, qm) && drives_ok(s, b0, q0, (n - 1) as nat, bm, qm)
                && drive_step_ok(s, bm, qm, bn, qn)
    }
}

/// A trigger anchor for the existential over one machine step of a run.
pub open spec fn machine_step_witness(
    b: FsmBackendImpl,
    ev: FsmEvent,
    em: Seq<u64>,
    rs: FsmResult<()>,
) -> bool {
    true
}

/// A trigger anchor for the existential over the machine step at which a
/// run failed.
pub open spec fn err_machine_witness(
    k: nat,
    b: FsmBackendImpl,
    ev: FsmEvent,
    em: Seq<u64>,
) -> bool {
    true
}

/// The backend evolved by `n` dispatch steps, each one successful,
/// whatever events the queue handed out: the queue-independent skeleton
/// of a drive run.
pub open spec fn machine_steps(s: BuiltFsm, b0: FsmBackendImpl, n: nat, bn: FsmBackendImpl) -> bool
    decreases n,
{
    if n == 0 {
        bn == b0
    } else {
        exists|bm: FsmBackendImpl, ev: FsmEvent, em: Seq<u64>, rs: FsmResult<()>|
            #[trigger] machine_step_witness(bm, ev, em, rs) && machine_steps(
                s,
                b0,
                (n - 1) as nat,
                bm,
            ) && dispatch_rel(s, bm, ev, bn, em, rs) && rs is Ok
    }
}

/// Extend a machine run by one more successful dispatch.
proof fn lemma_machine_steps_step(
    s: BuiltFsm,
    b0: FsmBackendImpl,
    n: nat,
    bm: FsmBackendImpl,
    bn: FsmBackendImpl,
    ev: FsmEvent,
    em: Seq<u64>,
    rs: FsmResult<()>,
)
    requires
        machine_steps(s, b0, n, bm),
        dispatch_rel(s, bm, ev, bn, em, rs),
        rs is Ok,
    ensures
        machine_steps(s, b0, n + 1, bn),
{
    assert(machine_step_witness(bm, ev, em, rs));
}

/// Package one dispatched head event into `drive_rel`.
proof fn lemma_drive_rel_intro(
    s: BuiltFsm,
    b: FsmBackendImpl,
    q: Seq<FsmEvent>,
    b2: FsmBackendImpl,
    q2: Seq<FsmEvent>,
    em: Seq<u64>,
    rs: FsmResult<()>,
    res: FsmResult<()>,
)
    requires
        q.len() > 0,
        dispatch_rel(s, b, q[0], b2, em, rs),
        q2 == q.drop_first() + emits_to_events(em),
        res == rs,
    ensures
        drive_rel(s, b, q, b2, q2, res),
{
    assert(step_witness(em, rs));
}

/// Package one successfully dispatched head event into `drive_step_ok`.
proof fn lemma_drive_step_ok_intro(
    s: BuiltFsm,
    b: FsmBackendImpl,
    q: Seq<FsmEvent>,
    b2: FsmBackendImpl,
    q2: Seq<FsmEvent>,
    em: Seq<u64>,
    rs: FsmResult<()>,
)
    requires
        q.len() > 0,
        dispatch_rel(s, b, q[0], b2, em, rs),
        rs is Ok,
        q2 == q.drop_first() + emits_to_events(em),
    ensures
        drive_step_ok(s, b, q, b2, q2),
{
    assert(step_witness(em, rs));
}

/// Extend a successful drive chain by one more successful step.
proof fn lemma_drives_ok_step(
    s: BuiltFsm,
    b0: FsmBackendImpl,
    q0: Seq<FsmEvent>,
    n: nat,
    bm: FsmBackendImpl,
    qm: Seq<FsmEvent>,
    bn: FsmBackendImpl,
    qn: Seq<FsmEvent>,
)
    requires
        drives_ok(s, b0, q0, n, bm, qm),
        drive_step_ok(s, bm, qm, bn, qn),
    ensures
        drives_ok(s, b0, q0, n + 1, bn, qn),
{
    assert(mid_state_witness(bm, qm));
}

/// The externally usable handle of one machine: the immutable schema, the
/// live backend instance, and the three capabilities.
pub struct DispatchContext<Q: FsmEventQueue, I: Inspect, T: FsmTimers> {
    pub schema: BuiltFsm,
    pub backend: FsmBackendImpl,
    pub queue: Q,
    pub inspect: I,
    pub timers: T,
}

impl<Q: FsmEventQueue, I: Inspect, T: FsmTimers> DispatchContext<Q, I, T> {
    /// The handle is sound: its schema was validated and the instance
    /// satisfies the core invariant against it.
    pub open spec fn well_formed(&self) -> bool {
        &&& schema_wf(self.schema)
        &&& backend_inv(self.schema, self.backend)
    }

    /// The transient view an action receives for one region.
    pub fn to_event_context(&self, region: usize) -> (r: EventContext)
        ensures
            r.context == self.backend.context,
            r.region == region,
    {
        EventContext { context: self.backend.context, region }
    }

    /// Hand one event to the queue; it is dispatched on a later drive.
    pub fn enqueue(&mut self, ev: FsmEvent) -> (r: FsmResult<()>)
        requires
            old(self).well_formed(),
        ensures
            final(self).well_formed(),
            final(self).schema == old(self).schema,
            final(self).backend == old(self).backend,
            r is Ok ==> final(self).queue.events() == old(self).queue.events().push(ev),
            r is Err ==> final(self).queue.events() == old(self).queue.events(),
            old(self).queue.reliable() ==> r is Ok,
            final(self).queue.reliable() == old(self).queue.reliable(),
    {
        self.queue.enqueue(ev)
    }

    /// Pop one event and dispatch it; do nothing on an empty queue.
    /// Whatever the dispatch emitted is appended to the queue, in
    /// emission order — with a reliable queue the new content is exactly
    /// the old minus the head plus those events.
    pub fn drive(&mut self) -> (r: FsmResult<bool>)
        requires
            old(self).well_formed(),
        ensures
            final(self).well_formed(),
            final(self).schema == old(self).schema,
            final(self).queue.reliable() == old(self).queue.reliable(),
            old(self).queue.events().len() == 0 ==> final(self).backend == old(self).backend
                && final(self).queue.events() == old(self).queue.events() && r == FsmResult::<
                bool,
            >::Ok(false),
            old(self).queue.events().len() > 0 ==> exists|emits: Seq<u64>, res: FsmResult<()>|
                {
                    &&& #[trigger] step_witness(emits, res)
                    &&& dispatch_rel(
                        old(self).schema,
                        old(self).backend,
                        old(self).queue.events()[0],
                        final(self).backend,
                        emits,
                        res,
                    )
                    &&& (old(self).queue.reliable() ==> final(self).queue.events() == old(
                        self,
                    ).queue.events().drop_first() + emits_to_events(emits))
                    &&& old(self).queue.events().drop_first().is_prefix_of(
                        final(self).queue.events(),
                    )
                    &&& final(self).queue.events().len() <= old(self).queue.events().len() - 1
                        + emits.len()
                    &&& r == (match res {
                        Ok(()) => FsmResult::<bool>::Ok(true),
                        Err(e) => FsmResult::<bool>::Err(e),
                    })
                },
    {
        let ev = match self.queue.dequeue() {
            Some(ev) => ev,
            None => {
                return Ok(false);
            },
        };
        let ghost mid_queue = self.queue.events();
        let (res, emits) = dispatch_event(
            &self.schema,
            &mut self.backend,
            ev,
            &self.inspect,
            &mut self.timers,
            None,
        );
        let ghost stepped = self.backend;
        let mut i: usize = 0;
        proof {
            assert(mid_queue.is_prefix_of(self.queue.events()));
        }
        while i < emits.len()
            invariant
                i <= emits@.len(),
                self.well_formed(),
                self.schema == old(self).schema,
                self.backend == stepped,
                self.queue.reliable() == old(self).queue.reliable(),
                self.queue.reliable() ==> self.queue.events() == mid_queue + emits_to_events(
                    emits@.take(i as int),
                ),
                mid_queue.is_prefix_of(self.queue.events()),
                self.queue.events().len() <= mid_queue.len() + i,
            decreases emits@.len() - i,
        {
            let ghost q_pre = self.queue.events();
            match self.queue.enqueue(FsmEvent::Event(emits[i])) {
                Ok(_) => {
                },
                Err(e) => {
                    self.inspect.on_error("an emitted event could not be enqueued", &e);
                },
            }
            proof {
                if self.queue.reliable() {
                    assert(emits_to_events(emits@.take(i + 1)) =~= emits_to_events(
                        emits@.take(i as int),
                    ).push(FsmEvent::Event(emits@[i as int])));
                    assert(self.queue.events() =~= mid_queue + emits_to_events(
                        emits@.take(i + 1),
                    ));
                }
                assert(self.queue.events() == q_pre || self.queue.events() == q_pre.push(
                    FsmEvent::Event(emits@[i as int]),
                ));
                assert(mid_queue =~= self.queue.events().take(mid_queue.len() as int));
            }
            i = i + 1;
        }
        proof {
            assert(emits@.take(emits@.len() as int) =~= emits@);
            assert(step_witness(emits@, res));
        }
        match res {
            Ok(()) => Ok(true),
            Err(e) => Err(e),
        }
    }

    /// Drive until the queue is empty or the step budget runs out: the
    /// loop a caller uses to settle the machine after a stimulus. The
    /// budget is the caller's guarantee of termination against actions
    /// that keep feeding the queue. Over a reliable queue the whole run
    /// is pinned down: `Ok(n)` is exactly `n` successful drive steps, and
    /// an error is owed exactly when one step's dispatch returned it,
    /// after a chain of successful ones.
    pub fn process_queue(&mut self, max_steps: usize) -> (r: FsmResult<usize>)
        requires
            old(self).well_formed(),
        ensures
            final(self).well_formed(),
            final(self).schema == old(self).schema,
            final(self).queue.reliable() == old(self).queue.reliable(),
            match r {
                Ok(n) => n <= max_steps && (n < max_steps ==> final(self).queue.events().len()
                    == 0),
                Err(_) => true,
            },
            match r {
                Ok(n) => machine_steps(
                    old(self).schema,
                    old(self).backend,
                    n as nat,
                    final(self).backend,
                ),
                Err(e) => exists|k: nat, bm: FsmBackendImpl, ev: FsmEvent, em: Seq<u64>|
                    #[trigger] err_machine_witness(k, bm, ev, em) && k < max_steps
                        && machine_steps(old(self).schema, old(self).backend, k, bm)
                        && dispatch_rel(
                        old(self).schema,
                        bm,
                        ev,
                        final(self).backend,
                        em,
                        FsmResult::<()>::Err(e),
                    ),
            },
            old(self).queue.reliable() ==> match r {
                Ok(n) => drives_ok(
                    old(self).schema,
                    old(self).backend,
                    old(self).queue.events(),
                    n as nat,
                    final(self).backend,
                    final(self).queue.events(),
                ),
                Err(e) => exists|k: nat, bm: FsmBackendImpl, qm: Seq<FsmEvent>|
                    #[trigger] err_step_witness(k, bm, qm) && k < max_steps && drives_ok(
                        old(self).schema,
                        old(self).backend,
                        old(self).queue.events(),
                        k,
                        bm,
                        qm,
                    ) && drive_rel(
                        old(self).schema,
                        bm,
                        qm,
                        final(self).backend,
                        final(self).queue.events(),
                        FsmResult::<()>::Err(e),
                    ),
            },
    {
        let mut steps: usize = 0;
        while steps < max_steps
            invariant
                self.well_formed(),
                self.schema == old(self).schema,
                self.queue.reliable() == old(self).queue.reliable(),
                steps <= max_steps,
                machine_steps(old(self).schema, old(self).backend, steps as nat, self.backend),
                old(self).queue.reliable() ==> drives_ok(
                    old(self).schema,
                    old(self).backend,
                    old(self).queue.events(),
                    steps as nat,
                    self.backend,
                    self.queue.events(),
                ),
            decreases max_steps - steps,
        {
            let ghost bm = self.backend;
            let ghost qm = self.queue.events();
            match self.drive() {
                Ok(true) => {
                    proof {
                        let (em, rs): (Seq<u64>, FsmResult<()>) = choose|
                            em: Seq<u64>,
                            rs: FsmResult<()>,
                        |
                            {
                                &&& #[trigger] step_witness(em, rs)
                                &&& dispatch_rel(self.schema, bm, qm[0], self.backend, em, rs)
                                &&& (self.queue.reliable() ==> self.queue.events()
                                    == qm.drop_first() + emits_to_events(em))
                                &&& FsmResult::<bool>::Ok(true) == (match rs {
                                    Ok(()) => FsmResult::<bool>::Ok(true),
                                    Err(e) => FsmResult::<bool>::Err(e),
                                })
                            };
                        assert(rs is Ok);
                        lemma_machine_steps_step(
                            self.schema,
                            old(self).backend,
                            steps as nat,
                            bm,
                            self.backend,
                            qm[0],
                            em,
                            rs,
                        );
                        if old(self).queue.reliable() {
                            lemma_drive_step_ok_intro(
                                self.schema,
                                bm,
                                qm,
                                self.backend,
                                self.queue.events(),
                                em,
                                rs,
                            );
                            lemma_drives_ok_step(
                                self.schema,
                                old(self).backend,
                                old(self).queue.events(),
                                steps as nat,
                                bm,
                                qm,
                                self.backend,
                                self.queue.events(),
                            );
                        }
                    }
                },
                Ok(false) => {
                    return Ok(steps);
                },
                Err(e) => {
                    proof {
                        let (em, rs): (Seq<u64>, FsmResult<()>) = choose|
                            em: Seq<u64>,
                            rs: FsmResult<()>,
                        |
                            {
                                &&& #[trigger] step_witness(em, rs)
                                &&& dispatch_rel(self.schema, bm, qm[0], self.backend, em, rs)
                                &&& (self.queue.reliable() ==> self.queue.events()
                                    == qm.drop_first() + emits_to_events(em))
                                &&& FsmResult::<bool>::Err(e) == (match rs {
                                    Ok(()) => FsmResult::<bool>::Ok(true),
                                    Err(e2) => FsmResult::<bool>::Err(e2),
                                })
                            };
                        assert(rs == FsmResult::<()>::Err(e));
                        assert(err_machine_witness(steps as nat, bm, qm[0], em));
                        if old(self).queue.reliable() {
                            lemma_drive_rel_intro(
                                self.schema,
                                bm,
                                qm,
                                self.backend,
                                self.queue.events(),
                                em,
                                rs,
                                FsmResult::<()>::Err(e),
                            );
                            assert(err_step_witness(steps as nat, bm, qm));
                        }
                    }
                    return Err(e);
                },
            }
            steps = steps + 1;
        }
        Ok(steps)
    }

    /// Poll the timer capability for fired timers, feeding each one into
    /// the queue as a timer marker event for the next drive cycles, up to
    /// `max` of them in one pass. The machine itself is untouched; the
    /// pending reports leave the capability in FIFO order, and — over a
    /// reliable queue — land at the back of the queue in that order.
    pub fn poll_timers(&mut self, max: usize) -> (r: FsmTimersTriggerEventsResult)
        requires
            old(self).well_formed(),
        ensures
            final(self).well_formed(),
            final(self).schema == old(self).schema,
            final(self).backend == old(self).backend,
            r.triggered_events <= max,
            old(self).timers.fired().len() >= max ==> r.triggered_events == max,
            old(self).timers.fired().len() < max ==> r.triggered_events == old(
                self,
            ).timers.fired().len(),
            final(self).timers.fired() == old(self).timers.fired().skip(
                r.triggered_events as int,
            ),
            final(self).timers.active() =~= old(self).timers.active(),
            final(self).queue.reliable() == old(self).queue.reliable(),
            old(self).queue.reliable() ==> final(self).queue.events() == old(self).queue.events()
                + timer_markers(old(self).timers.fired().take(r.triggered_events as int)),
    {
        let mut count: usize = 0;
        proof {
            assert(old(self).timers.fired().skip(0) =~= old(self).timers.fired());
            assert(old(self).queue.events() + timer_markers(
                old(self).timers.fired().take(0),
            ) =~= old(self).queue.events());
        }
        while count < max
            invariant
                self.well_formed(),
                self.schema == old(self).schema,
                self.backend == old(self).backend,
                count <= max,
                count <= old(self).timers.fired().len(),
                self.timers.fired() == old(self).timers.fired().skip(count as int),
                self.timers.active() =~= old(self).timers.active(),
                self.queue.reliable() == old(self).queue.reliable(),
                self.queue.reliable() ==> self.queue.events() == old(self).queue.events()
                    + timer_markers(old(self).timers.fired().take(count as int)),
            decreases max - count,
        {
            let ghost q_pre = self.queue.events();
            match self.timers.get_triggered_timer() {
                Some(tid) => {
                    proof {
                        assert(tid == old(self).timers.fired()[count as int]);
                        assert(old(self).timers.fired().skip(count as int).drop_first()
                            =~= old(self).timers.fired().skip(count + 1));
                    }
                    match self.queue.enqueue(FsmEvent::Timer(tid)) {
                        Ok(_) => {
                        },
                        Err(e) => {
                            self.inspect.on_error("a timer event could not be enqueued", &e);
                        },
                    }
                    proof {
                        if self.queue.reliable() {
                            assert(timer_markers(old(self).timers.fired().take(count + 1))
                                =~= timer_markers(
                                old(self).timers.fired().take(count as int),
                            ).push(FsmEvent::Timer(tid)));
                            assert(self.queue.events() =~= old(self).queue.events()
                                + timer_markers(old(self).timers.fired().take(count + 1)));
                        }
                    }
                },
                None => {
                    proof {
                        assert(old(self).timers.fired().skip(count as int).len() == 0);
                    }
                    return FsmTimersTriggerEventsResult { triggered_events: count };
                },
            }
            count = count + 1;
        }
        FsmTimersTriggerEventsResult { triggered_events: count }
    }
}

/// Builds a frontend for running a machine: the factory contract over a
/// compiled definition.
pub trait FsmFactory: Sized {
    /// Compose a backend instance built from this definition and a
    /// context value with caller-chosen capabilities.
    fn new_with<Q: FsmEventQueue, I: Inspect, T: FsmTimers>(
        self,
        context: i64,
        queue: Q,
        inspect: I,
        timers: T,
    ) -> FsmResult<DispatchContext<Q, I, T>>;

    /// The convenience form: a growable queue, no instrumentation, and
    /// the manually driven timer capability.
    fn new(self, context: i64) -> FsmResult<
        DispatchContext<FsmEventQueueVec, InspectNull, FsmTimersVec>,
    >;
}

impl FsmFactory for BuiltFsm {
    /// Validates the schema once; succeeds exactly on well-formed ones,
    /// handing out a fresh instance at the initial states.
    fn new_with<Q: FsmEventQueue, I: Inspect, T: FsmTimers>(
        self,
        context: i64,
        queue: Q,
        inspect: I,
        timers: T,
    ) -> (r: FsmResult<DispatchContext<Q, I, T>>)
        ensures
            r is Ok <==> schema_wf(self),
            r is Err ==> r == FsmResult::<DispatchContext<Q, I, T>>::Err(FsmError::InvalidSchema),
            r is Ok ==> {
                let c = r.unwrap();
                &&& c.well_formed()
                &&& c.schema == self
                &&& fresh_instance(self, c.backend)
                &&& c.backend.context == context
                &&& c.queue == queue
                &&& c.inspect == inspect
                &&& c.timers == timers
            },
    {
        match FsmBackendImpl::new(&self, context) {
            Ok(backend) => Ok(DispatchContext { schema: self, backend, queue, inspect, timers }),
            Err(e) => Err(e),
        }
    }

    fn new(self, context: i64) -> (r: FsmResult<
        DispatchContext<FsmEventQueueVec, InspectNull, FsmTimersVec>,
    >)
        ensures
            r is Ok <==> schema_wf(self),
            r is Ok ==> {
                let c = r.unwrap();
                &&& c.well_formed()
                &&& c.schema == self
                &&& fresh_instance(self, c.backend)
                &&& c.backend.context == context
                &&& c.queue.events() == Seq::<FsmEvent>::empty()
            },
    {
        FsmFactory::new_with(
            self,
            context,
            FsmEventQueueVec::new(),
            InspectNull::new(),
            FsmTimersVec::new(),
        )
    }
}

} // verus!
