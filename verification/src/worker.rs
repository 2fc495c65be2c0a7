//! One worker's way from a plan to its serving loop.
//!
//! A worker sets itself up in a fixed order: its thread starts, it makes an
//! execution context of its own, opens a socket, sets the port-sharing option
//! on it, binds it, builds its application and enters its loop. The option is
//! set before the socket is bound: set afterwards it has no effect, and the
//! second worker's bind would find the address in use.

use crate::address::BindAddress;
use crate::error::PoolError;
use vstd::prelude::*;

verus! {

/// How far a worker has come.
#[derive(Clone, Copy, Debug, PartialEq, Eq, Structural)]
pub enum Phase {
    /// The worker is planned; nothing of it exists yet.
    Planned,
    /// Its thread runs.
    Running,
    /// It has an execution context of its own.
    ContextReady,
    /// It has opened a socket.
    SocketOpen,
    /// The port-sharing option is set on its socket.
    PortShared,
    /// Its socket is bound and listens.
    Listening,
    /// It has built its application and runs its loop.
    Serving,
    /// One of its steps failed.
    Failed,
    /// It was stopped because a sibling failed.
    Stopped,
}

/// What a driver reports of a worker.
#[derive(Clone, Copy, Debug, PartialEq, Eq, Structural)]
pub enum SetupEvent {
    /// The worker's thread has started.
    ThreadStarted,
    /// The execution context was made.
    ContextCreated,
    /// The socket was opened.
    SocketCreated,
    /// The port-sharing option was set.
    PortShared,
    /// The host system does not know the port-sharing option.
    SharingUnsupported,
    /// The socket was bound.
    Bound,
    /// The socket could not be bound.
    BindFailed,
    /// The application was built.
    ApplicationBuilt,
}

/// What the driver is to do next.
#[derive(Clone, Copy, Debug, PartialEq, Eq, Structural)]
pub enum Directive {
    /// Make an execution context for this worker alone.
    CreateContext,
    /// Open a socket.
    CreateSocket,
    /// Set the port-sharing option on the socket.
    SharePort,
    /// Bind the socket to this address and listen.
    Bind { address: BindAddress },
    /// Build this worker's application.
    BuildApplication,
    /// Enter the serving loop.
    Serve,
    /// Stop every worker and report this error.
    TearDown { error: PoolError },
    /// Stop this worker: the pool has been torn down.
    Stop,
    /// Do nothing: the event does not fit the worker's phase, or there is no
    /// such worker.
    Ignore,
}

/// A worker's socket, as far as the pool's design speaks of it.
#[derive(Clone, Copy, Debug, PartialEq, Eq, Structural)]
pub struct Socket {
    /// Whether the port-sharing option is set.
    pub shared: bool,
    /// The address that the socket is bound to and listens on, if any.
    pub bound: Option<BindAddress>,
}

/// One worker of a pool.
#[derive(Clone, Copy, Debug, PartialEq, Eq, Structural)]
pub struct Worker {
    /// The worker's place in its pool.
    pub index: usize,
    /// The address that the worker is to bind.
    pub address: BindAddress,
    /// How far the worker has come.
    pub phase: Phase,
}

impl Phase {
    /// Whether a worker in this phase has been stopped, by its own failure or
    /// by a sibling's.
    pub open spec fn halted(self) -> bool {
        self is Failed || self is Stopped
    }

    /// Whether a worker in this phase has a listening socket.
    pub open spec fn listening(self) -> bool {
        self is Listening || self is Serving
    }

    /// How far the phase is from the plan. A worker that was stopped is
    /// beyond every step.
    pub open spec fn rank(self) -> nat {
        match self {
            Phase::Planned => 0,
            Phase::Running => 1,
            Phase::ContextReady => 2,
            Phase::SocketOpen => 3,
            Phase::PortShared => 4,
            Phase::Listening => 5,
            Phase::Serving => 6,
            Phase::Failed | Phase::Stopped => 7,
        }
    }
}

impl Directive {
    /// Whether the directive asks for a step, or to tear the pool down.
    pub open spec fn acts(self) -> bool {
        !(self is Stop) && !(self is Ignore)
    }

    /// The rank of the phase that the directive is given in.
    pub open spec fn rank(self) -> nat {
        match self {
            Directive::CreateContext => 1,
            Directive::CreateSocket => 2,
            Directive::SharePort => 3,
            Directive::Bind { .. } => 4,
            Directive::BuildApplication => 5,
            Directive::Serve => 6,
            Directive::TearDown { .. } => 7,
            Directive::Stop | Directive::Ignore => 0,
        }
    }
}

impl Worker {
    /// The worker in another phase.
    pub open spec fn at(self, phase: Phase) -> Worker {
        Worker { phase, ..self }
    }

    /// Whether the worker has an execution context of its own.
    pub open spec fn has_context(self) -> bool {
        match self.phase {
            Phase::ContextReady
            | Phase::SocketOpen
            | Phase::PortShared
            | Phase::Listening
            | Phase::Serving => true,
            _ => false,
        }
    }

    /// The socket that the worker holds, if it holds one.
    pub open spec fn socket(self) -> Option<Socket> {
        match self.phase {
            Phase::SocketOpen => Some(Socket { shared: false, bound: None }),
            Phase::PortShared => Some(Socket { shared: true, bound: None }),
            Phase::Listening | Phase::Serving => Some(
                Socket { shared: true, bound: Some(self.address) },
            ),
            _ => None,
        }
    }

    /// The worker after an event, and what its driver is to do next.
    ///
    /// Each phase waits for the report of one step, or of that step's failure
    /// where the pool knows one. A worker that has been stopped is told to
    /// stop; any other event is ignored and changes nothing.
    pub open spec fn step(self, event: SetupEvent) -> (Worker, Directive) {
        match (self.phase, event) {
            (Phase::Failed, _) | (Phase::Stopped, _) => (self, Directive::Stop),
            (Phase::Planned, SetupEvent::ThreadStarted) => (
                self.at(Phase::Running),
                Directive::CreateContext,
            ),
            (Phase::Running, SetupEvent::ContextCreated) => (
                self.at(Phase::ContextReady),
                Directive::CreateSocket,
            ),
            (Phase::ContextReady, SetupEvent::SocketCreated) => (
                self.at(Phase::SocketOpen),
                Directive::SharePort,
            ),
            (Phase::SocketOpen, SetupEvent::PortShared) => (
                self.at(Phase::PortShared),
                Directive::Bind { address: self.address },
            ),
            (Phase::SocketOpen, SetupEvent::SharingUnsupported) => (
                self.at(Phase::Failed),
                Directive::TearDown { error: PoolError::UnsupportedPlatform },
            ),
            (Phase::PortShared, SetupEvent::Bound) => (
                self.at(Phase::Listening),
                Directive::BuildApplication,
            ),
            (Phase::PortShared, SetupEvent::BindFailed) => (
                self.at(Phase::Failed),
                Directive::TearDown { error: PoolError::BindError { worker: self.index } },
            ),
            (Phase::Listening, SetupEvent::ApplicationBuilt) => (
                self.at(Phase::Serving),
                Directive::Serve,
            ),
            _ => (self, Directive::Ignore),
        }
    }

    /// A worker never steps back, and a directive that asks for something
    /// comes with a step forward, into the phase of the directive's rank.
    pub proof fn lemma_step_moves_forward(self, event: SetupEvent)
        ensures
            self.step(event).0.phase.rank() >= self.phase.rank(),
            self.step(event).0.index == self.index,
            self.step(event).0.address == self.address,
            self.step(event).1.acts() ==> {
                &&& self.step(event).0.phase.rank() > self.phase.rank()
                &&& self.step(event).0.phase.rank() == self.step(event).1.rank()
            },
            !self.step(event).1.acts() ==> self.step(event).0 == self,
    {
    }

    /// A planned worker.
    pub fn planned(index: usize, address: BindAddress) -> (worker: Worker)
        ensures
            worker == (Worker { index, address, phase: Phase::Planned }),
    {
        Worker { index, address, phase: Phase::Planned }
    }

    /// Takes an event in, and says what the driver is to do next.
    pub fn advance(&mut self, event: SetupEvent) -> (directive: Directive)
        ensures
            (*final(self), directive) == old(self).step(event),
            directive is Bind ==> final(self).socket() == Some(
                Socket { shared: true, bound: None },
            ),
            final(self).index == old(self).index,
            final(self).address == old(self).address,
    {
        let (next, directive) = match (self.phase, event) {
            (Phase::Failed, _) | (Phase::Stopped, _) => (self.phase, Directive::Stop),
            (Phase::Planned, SetupEvent::ThreadStarted) => (
                Phase::Running,
                Directive::CreateContext,
            ),
            (Phase::Running, SetupEvent::ContextCreated) => (
                Phase::ContextReady,
                Directive::CreateSocket,
            ),
            (Phase::ContextReady, SetupEvent::SocketCreated) => (
                Phase::SocketOpen,
                Directive::SharePort,
            ),
            (Phase::SocketOpen, SetupEvent::PortShared) => (
                Phase::PortShared,
                Directive::Bind { address: self.address },
            ),
            (Phase::SocketOpen, SetupEvent::SharingUnsupported) => (
                Phase::Failed,
                Directive::TearDown { error: PoolError::UnsupportedPlatform },
            ),
            (Phase::PortShared, SetupEvent::Bound) => (
                Phase::Listening,
                Directive::BuildApplication,
            ),
            (Phase::PortShared, SetupEvent::BindFailed) => (
                Phase::Failed,
                Directive::TearDown { error: PoolError::BindError { worker: self.index } },
            ),
            (Phase::Listening, SetupEvent::ApplicationBuilt) => (Phase::Serving, Directive::Serve),
            _ => (self.phase, Directive::Ignore),
        };
        self.phase = next;
        directive
    }

    /// The socket that the worker holds, if it holds one.
    pub fn held_socket(&self) -> (socket: Option<Socket>)
        ensures
            socket == self.socket(),
    {
        match self.phase {
            Phase::SocketOpen => Some(Socket { shared: false, bound: None }),
            Phase::PortShared => Some(Socket { shared: true, bound: None }),
            Phase::Listening | Phase::Serving => Some(
                Socket { shared: true, bound: Some(self.address) },
            ),
            _ => None,
        }
    }
}

} // verus!
