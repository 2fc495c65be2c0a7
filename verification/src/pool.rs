//! The pool: its workers, and the rule that one failure ends them all.
//!
//! A pool is started for a worker count and an address. Its workers set
//! themselves up one step at a time, each on its own thread; the pool takes
//! their reports in and answers each with a directive. If a worker cannot
//! share the port or cannot bind, the pool is torn down: a pool that went on
//! with fewer workers would have lost capacity without telling anybody.

use crate::address::{host_text, is_host_text, BindAddress};
use crate::error::{ConfigFault, PoolError};
use crate::worker::{Directive, Phase, SetupEvent, Socket, Worker};
use vstd::prelude::*;
use vstd::string::StringSliceAdditionalSpecFns;

verus! {

/// What a pool is, to its contracts.
pub struct PoolState {
    /// The address that every worker binds.
    pub address: BindAddress,
    /// The workers, each at its index.
    pub workers: Seq<Worker>,
    /// The error that the pool was torn down for, if it was.
    pub outcome: Option<PoolError>,
}

/// How many of `workers` have a listening socket.
pub open spec fn listening_among(workers: Seq<Worker>) -> nat
    decreases workers.len(),
{
    if workers.len() == 0 {
        0
    } else {
        listening_among(workers.drop_last()) + if workers.last().phase.listening() {
            1nat
        } else {
            0nat
        }
    }
}

impl PoolState {
    /// The pool of `count` planned workers for `address`.
    pub open spec fn planned(count: nat, address: BindAddress) -> PoolState {
        PoolState {
            address,
            workers: Seq::new(
                count,
                |i: int| Worker { index: i as usize, address, phase: Phase::Planned },
            ),
            outcome: None,
        }
    }

    /// What holds of every pool: it has a worker; each worker knows its index
    /// and the pool's address; and the workers have been stopped exactly when
    /// the pool has an error to report.
    pub open spec fn wf(self) -> bool {
        &&& 1 <= self.workers.len() <= usize::MAX
        &&& self.address.shareable()
        &&& forall|i: int|
            0 <= i < self.workers.len() ==> {
                &&& (#[trigger] self.workers[i]).index == i
                &&& self.workers[i].address == self.address
                &&& self.workers[i].phase.halted() == self.outcome.is_some()
            }
        &&& self.outcome matches Some(error) ==> {
            &&& error !is ConfigError
            &&& error matches PoolError::BindError { worker } ==> {
                &&& worker < self.workers.len()
                &&& self.workers[worker as int].phase is Failed
            }
        }
    }

    /// Whether setup is complete: every worker runs its loop.
    pub open spec fn steady(self) -> bool {
        &&& self.outcome is None
        &&& forall|i: int|
            0 <= i < self.workers.len() ==> (#[trigger] self.workers[i]).phase is Serving
    }

    /// The number of listening sockets.
    pub open spec fn listening(self) -> nat {
        listening_among(self.workers)
    }

    /// The pool after the worker at `failed` has failed with `error`: that
    /// worker has failed, and all its siblings are stopped.
    pub open spec fn torn_down(self, failed: int, error: PoolError) -> PoolState {
        PoolState {
            address: self.address,
            workers: Seq::new(
                self.workers.len(),
                |i: int|
                    self.workers[i].at(
                        if i == failed {
                            Phase::Failed
                        } else {
                            Phase::Stopped
                        },
                    ),
            ),
            outcome: Some(error),
        }
    }

    /// The pool after a worker's event, and what that worker's driver is to do
    /// next.
    ///
    /// A pool that was torn down answers every event with `Stop`. An event
    /// for an index that the pool has no worker at is ignored. Otherwise the
    /// worker takes the event in; if it fails over it, the pool is torn down
    /// with the worker's error.
    pub open spec fn step(self, worker: int, event: SetupEvent) -> (PoolState, Directive) {
        if self.outcome is Some {
            (self, Directive::Stop)
        } else if !(0 <= worker < self.workers.len()) {
            (self, Directive::Ignore)
        } else {
            let (next, directive) = self.workers[worker].step(event);
            match directive {
                Directive::TearDown { error } => (self.torn_down(worker, error), directive),
                _ => (PoolState { workers: self.workers.update(worker, next), ..self }, directive),
            }
        }
    }

    /// The pool after a series of events, each with the index of its worker.
    pub open spec fn run(self, events: Seq<(int, SetupEvent)>) -> PoolState
        decreases events.len(),
    {
        if events.len() == 0 {
            self
        } else {
            self.run(events.drop_last()).step(events.last().0, events.last().1).0
        }
    }
}

/// A pool of workers that share one address.
#[derive(Debug)]
pub struct Pool {
    address: BindAddress,
    workers: Vec<Worker>,
    outcome: Option<PoolError>,
}

impl View for Pool {
    type V = PoolState;

    closed spec fn view(&self) -> PoolState {
        PoolState { address: self.address, workers: self.workers@, outcome: self.outcome }
    }
}

/// The fault of a configuration, if it has one. The worker count is looked at
/// first, then the host, then the port.
pub open spec fn config_fault(worker_count: i32, host: Seq<u8>, port: u16) -> Option<ConfigFault> {
    if worker_count < 1 {
        Some(ConfigFault::WorkerCount)
    } else if !is_host_text(host) {
        Some(ConfigFault::Host)
    } else if port == 0 {
        Some(ConfigFault::Port)
    } else {
        None
    }
}

/// Checks a configuration and plans a pool for it.
///
/// The worker count must be at least one, the host the dotted-decimal text
/// of an IPv4 address, and the port other than zero. A pool that is refused
/// does not come to exist: no thread is started and no socket opened for it.
/// A pool that is planned has no socket yet either; its workers open them.
pub fn start(worker_count: i32, host: &str, port: u16) -> (r: Result<Pool, PoolError>)
    ensures
        match r {
            Ok(pool) => {
                &&& config_fault(worker_count, host.spec_bytes(), port) is None
                &&& pool@ == PoolState::planned(worker_count as nat, pool@.address)
                &&& host_text(pool@.address.host) == host.spec_bytes()
                &&& pool@.address.port == port
                &&& pool@.wf()
            },
            Err(error) => {
                &&& config_fault(worker_count, host.spec_bytes(), port) matches Some(fault)
                &&& error == PoolError::ConfigError(fault)
            },
        },
{
    if worker_count < 1 {
        return Err(PoolError::ConfigError(ConfigFault::WorkerCount));
    }
    let address = match BindAddress::parse(host, port) {
        Ok(address) => address,
        Err(fault) => {
            return Err(PoolError::ConfigError(fault));
        },
    };
    let count: usize = worker_count as usize;
    let mut workers: Vec<Worker> = Vec::new();
    let mut i: usize = 0;
    while i < count
        invariant
            i <= count,
            workers@.len() == i,
            forall|k: int|
                0 <= k < i ==> workers@[k] == (Worker {
                    index: k as usize,
                    address,
                    phase: Phase::Planned,
                }),
        decreases count - i,
    {
        workers.push(Worker::planned(i, address));
        i += 1;
    }
    let pool = Pool { address, workers, outcome: None };
    assert(pool@.workers =~= PoolState::planned(worker_count as nat, address).workers);
    Ok(pool)
}

impl Pool {
    #[verifier::type_invariant]
    spec fn sound(self) -> bool {
        self@.wf()
    }

    /// Takes a worker's event in, and says what its driver is to do next.
    pub fn handle(&mut self, worker: usize, event: SetupEvent) -> (directive: Directive)
        ensures
            (final(self)@, directive) == old(self)@.step(worker as int, event),
            final(self)@.wf(),
    {
        proof {
            use_type_invariant(&*self);
        }
        if self.outcome.is_some() {
            return Directive::Stop;
        }
        if worker >= self.workers.len() {
            return Directive::Ignore;
        }
        let mut moved = self.workers[worker];
        let directive = moved.advance(event);
        match directive {
            Directive::TearDown { error } => {
                let workers = halt_all(&self.workers, worker);
                *self = Pool { address: self.address, workers, outcome: Some(error) };
                assert(self@.workers =~= old(self)@.torn_down(worker as int, error).workers);
            },
            _ => {
                put(&mut self.workers, worker, moved);
            },
        }
        directive
    }

    /// The number of workers.
    pub fn worker_count(&self) -> (count: usize)
        ensures
            count == self@.workers.len(),
            count >= 1,
            self@.wf(),
    {
        proof {
            use_type_invariant(self);
        }
        self.workers.len()
    }

    /// The address that every worker binds.
    pub fn address(&self) -> (address: BindAddress)
        ensures
            address == self@.address,
    {
        self.address
    }

    /// The error that the pool was torn down for, if it was.
    pub fn outcome(&self) -> (outcome: Option<PoolError>)
        ensures
            outcome == self@.outcome,
            self@.wf(),
    {
        proof {
            use_type_invariant(self);
        }
        self.outcome
    }

    /// The worker at `index`, if the pool has one there.
    pub fn worker(&self, index: usize) -> (worker: Option<Worker>)
        ensures
            worker == if index < self@.workers.len() {
                Some(self@.workers[index as int])
            } else {
                None
            },
    {
        if index < self.workers.len() {
            Some(self.workers[index])
        } else {
            None
        }
    }

    /// Whether setup is complete: every worker runs its loop.
    pub fn is_steady(&self) -> (steady: bool)
        ensures
            steady == self@.steady(),
            self@.wf(),
    {
        proof {
            use_type_invariant(self);
        }
        if self.outcome.is_some() {
            return false;
        }
        let mut i: usize = 0;
        while i < self.workers.len()
            invariant
                i <= self.workers@.len(),
                self@.wf(),
                self.outcome is None,
                forall|k: int| 0 <= k < i ==> (#[trigger] self.workers@[k]).phase is Serving,
            decreases self.workers@.len() - i,
        {
            match self.workers[i].phase {
                Phase::Serving => {},
                _ => {
                    return false;
                },
            }
            i += 1;
        }
        true
    }

    /// The number of listening sockets.
    pub fn listening(&self) -> (count: usize)
        ensures
            count == self@.listening(),
            count <= self@.workers.len(),
    {
        let mut count: usize = 0;
        let mut i: usize = 0;
        while i < self.workers.len()
            invariant
                i <= self.workers@.len(),
                count <= i,
                count == listening_among(self.workers@.take(i as int)),
            decreases self.workers@.len() - i,
        {
            proof {
                assert(self.workers@.take(i + 1).drop_last() =~= self.workers@.take(i as int));
            }
            match self.workers[i].phase {
                Phase::Listening | Phase::Serving => {
                    count += 1;
                },
                _ => {},
            }
            i += 1;
        }
        proof {
            assert(self.workers@.take(i as int) =~= self.workers@);
        }
        count
    }
}

/// Puts `worker` at `index`.
fn put(workers: &mut Vec<Worker>, index: usize, worker: Worker)
    requires
        index < old(workers)@.len(),
    ensures
        final(workers)@ == old(workers)@.update(index as int, worker),
    no_unwind
{
    workers[index] = worker;
}

/// The workers after the one at `failed` has failed: that one in the phase
/// `Failed`, the others in the phase `Stopped`.
fn halt_all(workers: &Vec<Worker>, failed: usize) -> (halted: Vec<Worker>)
    ensures
        halted@.len() == workers@.len(),
        forall|i: int|
            0 <= i < workers@.len() ==> halted@[i] == workers@[i].at(
                if i == failed {
                    Phase::Failed
                } else {
                    Phase::Stopped
                },
            ),
{
    let mut halted: Vec<Worker> = Vec::new();
    let mut i: usize = 0;
    while i < workers.len()
        invariant
            i <= workers@.len(),
            halted@.len() == i,
            forall|k: int|
                0 <= k < i ==> halted@[k] == workers@[k].at(
                    if k == failed {
                        Phase::Failed
                    } else {
                        Phase::Stopped
                    },
                ),
        decreases workers@.len() - i,
    {
        let worker = workers[i];
        let phase = if i == failed {
            Phase::Failed
        } else {
            Phase::Stopped
        };
        halted.push(Worker { index: worker.index, address: worker.address, phase });
        i += 1;
    }
    halted
}

/// Among any workers, no more sockets listen than there are workers; all
/// listen where each does, and none where none does.
pub proof fn lemma_listening_among(workers: Seq<Worker>)
    ensures
        listening_among(workers) <= workers.len(),
        (forall|i: int| 0 <= i < workers.len() ==> (#[trigger] workers[i]).phase.listening())
            ==> listening_among(workers) == workers.len(),
        (forall|i: int| 0 <= i < workers.len() ==> !(#[trigger] workers[i]).phase.listening())
            ==> listening_among(workers) == 0,
    decreases workers.len(),
{
    if workers.len() > 0 {
        let front = workers.drop_last();
        lemma_listening_among(front);
        assert(forall|i: int| 0 <= i < front.len() ==> front[i] == workers[i]);
    }
}

/// The events that bring one worker from its plan to its loop.
pub open spec fn bring_up(worker: int) -> Seq<(int, SetupEvent)> {
    Seq::empty().push((worker, SetupEvent::ThreadStarted)).push(
        (worker, SetupEvent::ContextCreated),
    ).push((worker, SetupEvent::SocketCreated)).push((worker, SetupEvent::PortShared)).push(
        (worker, SetupEvent::Bound),
    ).push((worker, SetupEvent::ApplicationBuilt))
}

/// The events that bring the first `count` workers up, one after the other.
pub open spec fn bring_up_all(count: nat) -> Seq<(int, SetupEvent)>
    decreases count,
{
    if count == 0 {
        Seq::empty()
    } else {
        bring_up_all((count - 1) as nat) + bring_up(count - 1)
    }
}

impl PoolState {
    /// The pool of `count` workers for `address` of which the first `up` run
    /// their loops and the others are planned.
    pub open spec fn partly_up(count: nat, address: BindAddress, up: nat) -> PoolState {
        PoolState {
            address,
            workers: Seq::new(
                count,
                |i: int|
                    Worker {
                        index: i as usize,
                        address,
                        phase: if i < up {
                            Phase::Serving
                        } else {
                            Phase::Planned
                        },
                    },
            ),
            outcome: None,
        }
    }

    /// A planned pool is well formed, and has no socket yet.
    pub proof fn lemma_planned_wf(count: nat, address: BindAddress)
        requires
            1 <= count <= usize::MAX,
            address.shareable(),
        ensures
            PoolState::planned(count, address).wf(),
            PoolState::planned(count, address).listening() == 0,
            !PoolState::planned(count, address).steady(),
            forall|i: int|
                0 <= i < count ==> (#[trigger] PoolState::planned(
                    count,
                    address,
                ).workers[i]).socket() is None,
    {
        let pool = PoolState::planned(count, address);
        lemma_listening_among(pool.workers);
        assert(pool.workers[0].phase is Planned);
    }

    /// An event leaves a well-formed pool well formed, with the workers and
    /// the address that it was started with.
    pub proof fn lemma_step_keeps_wf(self, worker: int, event: SetupEvent)
        requires
            self.wf(),
        ensures
            self.step(worker, event).0.wf(),
            self.step(worker, event).0.workers.len() == self.workers.len(),
            self.step(worker, event).0.address == self.address,
    {
    }

    /// No event sets a worker back.
    pub proof fn lemma_step_moves_forward(self, worker: int, event: SetupEvent, any: int)
        requires
            0 <= any < self.workers.len(),
        ensures
            self.step(worker, event).0.workers.len() == self.workers.len(),
            self.step(worker, event).0.workers[any].phase.rank() >= self.workers[any].phase.rank(),
            self.step(worker, event).1.acts() ==> {
                &&& 0 <= worker < self.workers.len()
                &&& self.step(worker, event).0.workers[worker].phase.rank() == self.step(
                    worker,
                    event,
                ).1.rank()
                &&& self.step(worker, event).1.rank() > self.workers[worker].phase.rank()
            },
    {
        if self.outcome is None && 0 <= worker < self.workers.len() {
            self.workers[worker].lemma_step_moves_forward(event);
        }
    }

    /// No series of events sets a worker back.
    pub proof fn lemma_run_moves_forward(self, events: Seq<(int, SetupEvent)>, any: int)
        requires
            0 <= any < self.workers.len(),
        ensures
            self.run(events).workers.len() == self.workers.len(),
            self.run(events).workers[any].phase.rank() >= self.workers[any].phase.rank(),
        decreases events.len(),
    {
        if events.len() > 0 {
            self.lemma_run_moves_forward(events.drop_last(), any);
            self.run(events.drop_last()).lemma_step_moves_forward(
                events.last().0,
                events.last().1,
                any,
            );
        }
    }

    /// No worker is asked for the same step twice: whatever is reported after
    /// a directive, the next directive to the same worker that asks for
    /// something is of a higher rank. So each worker makes one execution
    /// context, opens one socket, binds once and builds one application.
    pub proof fn lemma_no_step_is_asked_twice(
        self,
        worker: int,
        event: SetupEvent,
        later: Seq<(int, SetupEvent)>,
        next: SetupEvent,
    )
        requires
            self.step(worker, event).1.acts(),
        ensures
            ({
                let (after, first) = self.step(worker, event);
                let second = after.run(later).step(worker, next).1;
                second.acts() ==> second.rank() > first.rank()
            }),
    {
        let (after, first) = self.step(worker, event);
        self.lemma_step_moves_forward(worker, event, worker);
        after.lemma_run_moves_forward(later, worker);
        after.run(later).lemma_step_moves_forward(worker, next, worker);
    }

    /// Events leave a well-formed pool well formed.
    pub proof fn lemma_run_keeps_wf(self, events: Seq<(int, SetupEvent)>)
        requires
            self.wf(),
        ensures
            self.run(events).wf(),
        decreases events.len(),
    {
        if events.len() > 0 {
            self.lemma_run_keeps_wf(events.drop_last());
            self.run(events.drop_last()).lemma_step_keeps_wf(events.last().0, events.last().1);
        }
    }

    /// To run one more event is to take one more step.
    pub proof fn lemma_run_push(
        self,
        events: Seq<(int, SetupEvent)>,
        worker: int,
        event: SetupEvent,
    )
        ensures
            self.run(events.push((worker, event))) == self.run(events).step(worker, event).0,
    {
        assert(events.push((worker, event)).drop_last() =~= events);
    }

    /// To run two series of events in a row is to run them joined.
    pub proof fn lemma_run_joined(
        self,
        first: Seq<(int, SetupEvent)>,
        second: Seq<(int, SetupEvent)>,
    )
        ensures
            self.run(first + second) == self.run(first).run(second),
        decreases second.len(),
    {
        if second.len() == 0 {
            assert(first + second =~= first);
        } else {
            self.lemma_run_joined(first, second.drop_last());
            assert((first + second).drop_last() =~= first + second.drop_last());
        }
    }

    /// Setup complete means as many listening sockets as workers: every
    /// worker has an execution context and one socket, with the port-sharing
    /// option set and bound to the pool's one address.
    pub proof fn lemma_steady_pool_listens(self)
        requires
            self.wf(),
            self.steady(),
        ensures
            self.listening() == self.workers.len(),
            forall|i: int|
                0 <= i < self.workers.len() ==> {
                    &&& (#[trigger] self.workers[i]).has_context()
                    &&& self.workers[i].socket() == Some(
                        Socket { shared: true, bound: Some(self.address) },
                    )
                },
    {
        lemma_listening_among(self.workers);
    }

    /// At any time a socket that is bound has the port-sharing option set and
    /// is bound to the pool's address, and at most one socket listens for each
    /// worker.
    pub proof fn lemma_sockets_share_the_address(self)
        requires
            self.wf(),
        ensures
            self.listening() <= self.workers.len(),
            forall|i: int|
                0 <= i < self.workers.len() ==> (match (#[trigger] self.workers[i]).socket() {
                    Some(socket) => socket.bound is Some ==> socket.shared && socket.bound == Some(
                        self.address,
                    ),
                    None => true,
                }),
    {
        lemma_listening_among(self.workers);
    }

    /// A worker is told to bind only when the port-sharing option has just
    /// been set on its socket, and it is told to bind the pool's address.
    pub proof fn lemma_bind_follows_sharing(self, worker: int, event: SetupEvent)
        requires
            self.wf(),
            self.step(worker, event).1 is Bind,
        ensures
            0 <= worker < self.workers.len(),
            event == SetupEvent::PortShared,
            self.workers[worker].socket() == Some(Socket { shared: false, bound: None }),
            self.step(worker, event).0.workers[worker].socket() == Some(
                Socket { shared: true, bound: None },
            ),
            self.step(worker, event).1 == (Directive::Bind { address: self.address }),
    {
    }

    /// A socket that is bound after an event had the port-sharing option set
    /// before the event: no event binds a socket that does not share its
    /// port.
    pub proof fn lemma_only_sharing_sockets_are_bound(
        self,
        worker: int,
        event: SetupEvent,
        any: int,
    )
        requires
            self.wf(),
            0 <= any < self.workers.len(),
            self.step(worker, event).0.workers[any].socket() matches Some(socket)
                && socket.bound is Some,
        ensures
            self.workers[any].socket() matches Some(socket) && socket.shared,
    {
    }

    /// Every pool can complete its setup: when each worker's steps succeed in
    /// turn, all workers run their loops.
    pub proof fn lemma_setup_completes(count: nat, address: BindAddress)
        requires
            1 <= count <= usize::MAX,
            address.shareable(),
        ensures
            PoolState::planned(count, address).run(bring_up_all(count)).steady(),
            PoolState::planned(count, address).run(bring_up_all(count)).listening() == count,
    {
        let planned = PoolState::planned(count, address);
        Self::lemma_setup_proceeds(count, address, count);
        let done = planned.run(bring_up_all(count));
        assert(done.workers =~= PoolState::partly_up(count, address, count).workers);
        Self::lemma_planned_wf(count, address);
        planned.lemma_run_keeps_wf(bring_up_all(count));
        done.lemma_steady_pool_listens();
    }

    /// After the first `up` workers were brought up, they run their loops and
    /// the others are still planned.
    pub proof fn lemma_setup_proceeds(count: nat, address: BindAddress, up: nat)
        requires
            up <= count,
        ensures
            PoolState::planned(count, address).run(bring_up_all(up)) == PoolState::partly_up(
                count,
                address,
                up,
            ),
        decreases up,
    {
        let planned = PoolState::planned(count, address);
        if up == 0 {
            assert(planned.workers =~= PoolState::partly_up(count, address, 0).workers);
        } else {
            let w = up - 1;
            Self::lemma_setup_proceeds(count, address, w as nat);
            planned.lemma_run_joined(bring_up_all(w as nat), bring_up(w));
            let before = PoolState::partly_up(count, address, w as nat);
            let none = Seq::<(int, SetupEvent)>::empty();
            let started = none.push((w, SetupEvent::ThreadStarted));
            let context = started.push((w, SetupEvent::ContextCreated));
            let socket = context.push((w, SetupEvent::SocketCreated));
            let shared = socket.push((w, SetupEvent::PortShared));
            let bound = shared.push((w, SetupEvent::Bound));
            before.lemma_run_push(none, w, SetupEvent::ThreadStarted);
            before.lemma_run_push(started, w, SetupEvent::ContextCreated);
            before.lemma_run_push(context, w, SetupEvent::SocketCreated);
            before.lemma_run_push(socket, w, SetupEvent::PortShared);
            before.lemma_run_push(shared, w, SetupEvent::Bound);
            before.lemma_run_push(bound, w, SetupEvent::ApplicationBuilt);
            assert(before.run(bring_up(w)).workers =~= PoolState::partly_up(
                count,
                address,
                up,
            ).workers);
        }
    }

    /// A pool that was torn down stays as it is, whatever is reported to it.
    pub proof fn lemma_torn_down_stays(self, events: Seq<(int, SetupEvent)>)
        requires
            self.outcome is Some,
        ensures
            self.run(events) == self,
        decreases events.len(),
    {
        if events.len() > 0 {
            self.lemma_torn_down_stays(events.drop_last());
        }
    }

    /// A worker whose bind fails ends the pool: the pool is torn down with
    /// that worker's `BindError`, no socket is left listening, and whatever
    /// is reported later, setup is never complete and the error stays.
    pub proof fn lemma_bind_failure_ends_pool(self, worker: int, later: Seq<(int, SetupEvent)>)
        requires
            self.wf(),
            self.outcome is None,
            0 <= worker < self.workers.len(),
            self.workers[worker].phase is PortShared,
        ensures
            ({
                let (after, directive) = self.step(worker, SetupEvent::BindFailed);
                let error = PoolError::BindError { worker: worker as usize };
                &&& directive == Directive::TearDown { error }
                &&& after.outcome == Some(error)
                &&& after.listening() == 0
                &&& after.run(later) == after
                &&& !after.run(later).steady()
            }),
    {
        let after = self.step(worker, SetupEvent::BindFailed).0;
        lemma_listening_among(after.workers);
        after.lemma_torn_down_stays(later);
    }

    /// An event that does not tear the pool down changes no worker but the
    /// one that it is reported of.
    pub proof fn lemma_event_leaves_siblings(self, worker: int, event: SetupEvent, sibling: int)
        requires
            0 <= sibling < self.workers.len(),
            sibling != worker,
            self.step(worker, event).1 !is TearDown,
        ensures
            self.step(worker, event).0.workers[sibling] == self.workers[sibling],
    {
    }
}

} // verus!
