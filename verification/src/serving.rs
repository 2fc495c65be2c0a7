//! A worker's serving loop.
//!
//! Each worker runs one loop on its own socket, in its own execution
//! context. The loop accepts connections and serves each of them request by
//! request; a connection stays with the worker that accepted it. A failure to
//! accept is retried after a pause, a malformed request is answered with an
//! error response, and a failure of one connection ends that connection
//! alone: nothing that happens in the loop ends the worker.

use vstd::prelude::*;

verus! {

/// The pause before the first retry of a failed accept, in milliseconds.
pub const FIRST_RETRY_MS: u64 = 5;

/// The longest pause before a retry of a failed accept, in milliseconds.
pub const LONGEST_RETRY_MS: u64 = 1000;

/// The status of the response to a malformed request.
pub const BAD_REQUEST: u16 = 400;

/// The time that reading a request and writing a response may take, in
/// milliseconds. `None` sets no limit.
#[derive(Clone, Copy, Debug, PartialEq, Eq, Structural)]
pub struct Timeouts {
    pub read_ms: Option<u64>,
    pub write_ms: Option<u64>,
}

impl Default for Timeouts {
    /// No limit on either.
    fn default() -> (timeouts: Timeouts)
        ensures
            timeouts == (Timeouts { read_ms: None, write_ms: None }),
    {
        Timeouts { read_ms: None, write_ms: None }
    }
}

/// The pause after `pause` when an accept fails again: twice as long, up to
/// the longest.
pub open spec fn longer_pause(pause: nat) -> nat {
    if 2 * pause <= LONGEST_RETRY_MS {
        2 * pause
    } else {
        LONGEST_RETRY_MS as nat
    }
}

/// The pause before the retry of a failed accept that `failures` failed
/// accepts came directly before.
pub open spec fn pause_after(failures: nat) -> nat
    decreases failures,
{
    if failures == 0 {
        FIRST_RETRY_MS as nat
    } else {
        longer_pause(pause_after((failures - 1) as nat))
    }
}

/// The pauses of a failing accept stay within their bounds and never get
/// shorter; from the ninth failure in a row on, the pause is the longest.
pub proof fn lemma_pauses_are_bounded(failures: nat)
    ensures
        FIRST_RETRY_MS <= pause_after(failures) <= LONGEST_RETRY_MS,
        pause_after(failures) <= pause_after(failures + 1),
        failures >= 8 ==> pause_after(failures) == LONGEST_RETRY_MS,
    decreases failures,
{
    if failures > 0 {
        lemma_pauses_are_bounded((failures - 1) as nat);
    }
    assert(pause_after(failures + 1) == longer_pause(pause_after(failures)));
    if failures == 8 {
        reveal_with_fuel(pause_after, 9);
    }
}

/// The pauses between the retries of a failing accept.
#[derive(Debug)]
pub struct Backoff {
    next_ms: u64,
}

impl View for Backoff {
    type V = nat;

    /// The pause before the next retry, in milliseconds.
    closed spec fn view(&self) -> nat {
        self.next_ms as nat
    }
}

impl Backoff {
    #[verifier::type_invariant]
    spec fn bounded(self) -> bool {
        FIRST_RETRY_MS <= self.next_ms <= LONGEST_RETRY_MS
    }

    /// A backoff that has seen no failure.
    pub fn new() -> (backoff: Backoff)
        ensures
            backoff@ == FIRST_RETRY_MS,
    {
        Backoff { next_ms: FIRST_RETRY_MS }
    }

    /// The pause before the next retry, in milliseconds.
    pub fn next_ms(&self) -> (pause: u64)
        ensures
            pause == self@,
            FIRST_RETRY_MS <= pause <= LONGEST_RETRY_MS,
    {
        proof {
            use_type_invariant(self);
        }
        self.next_ms
    }

    /// Takes note of a failed accept, and gives the pause before its retry.
    pub fn failed(&mut self) -> (pause: u64)
        ensures
            pause == old(self)@,
            FIRST_RETRY_MS <= pause <= LONGEST_RETRY_MS,
            final(self)@ == longer_pause(old(self)@),
    {
        proof {
            use_type_invariant(&*self);
        }
        let pause = self.next_ms;
        self.next_ms = if pause <= LONGEST_RETRY_MS / 2 {
            2 * pause
        } else {
            LONGEST_RETRY_MS
        };
        pause
    }

    /// Takes note of an accept that succeeded.
    pub fn succeeded(&mut self)
        ensures
            final(self)@ == FIRST_RETRY_MS,
    {
        self.next_ms = FIRST_RETRY_MS;
    }
}

/// Where a connection stands in its cycle of requests.
#[derive(Clone, Copy, Debug, PartialEq, Eq, Structural)]
pub enum Connection {
    /// No connection: the slot is free.
    Closed,
    /// The loop waits for a request.
    Reading,
    /// The application handles a request.
    Handling { keep_alive: bool },
    /// The application's response is being written.
    Writing { keep_alive: bool },
    /// The error response to a malformed request is being written.
    Rejecting,
}

/// What a driver reports of the listening socket.
#[derive(Clone, Copy, Debug, PartialEq, Eq, Structural)]
pub enum AcceptEvent {
    /// A connection was accepted.
    Connected,
    /// The accept failed, as it does when the process has no file
    /// descriptor left.
    Failed,
}

/// What the driver is to do after an accept.
#[derive(Clone, Copy, Debug, PartialEq, Eq, Structural)]
pub enum AcceptDirective {
    /// Keep the new connection under this number, read a request from it,
    /// and accept again at once.
    Serve { connection: usize, timeout_ms: Option<u64> },
    /// Log the failure, pause for this long, and accept again.
    RetryAfter { pause_ms: u64 },
}

/// What a driver reports of a connection.
#[derive(Debug, PartialEq, Eq)]
pub enum ConnEvent<Req, Resp> {
    /// A well-formed request was read. `keep_alive` says whether the
    /// connection is kept alive after the response, as `keeps_alive` tells
    /// of the request's version and options.
    Request { request: Req, keep_alive: bool },
    /// What was read is no request.
    Malformed,
    /// The application has returned its response.
    Response { response: Resp },
    /// The response was written out.
    Written,
    /// The connection failed or ended: it was reset, it timed out, or the
    /// client closed it.
    Lost,
}

/// What the driver is to do next with a connection.
#[derive(Debug, PartialEq, Eq)]
pub enum ConnDirective<Req, Resp> {
    /// Hand the request to the application.
    Invoke { request: Req },
    /// Write the application's response. `keep_alive` says whether the
    /// connection is kept after it, for the driver to tell the client.
    Write { response: Resp, keep_alive: bool, timeout_ms: Option<u64> },
    /// Write an error response with this status.
    Reject { status: u16, timeout_ms: Option<u64> },
    /// Read the next request from the same connection.
    Read { timeout_ms: Option<u64> },
    /// Close the connection.
    Close,
    /// Do nothing: the event does not fit the connection, or there is no
    /// such connection.
    Ignore,
}

impl Connection {
    /// Whether there is a connection.
    pub open spec fn is_open(self) -> bool {
        !(self is Closed)
    }

    /// The connection after an event, and what its driver is to do next.
    ///
    /// A request goes to the application and the application's response to
    /// the client, both as they are. After the response the connection waits
    /// for the next request if it is kept alive, and is closed if not. A
    /// malformed request is answered with `BAD_REQUEST`, and the connection
    /// closed after that. A connection that is lost is closed. Any other
    /// event is ignored and changes nothing.
    pub open spec fn step<Req, Resp>(self, event: ConnEvent<Req, Resp>, timeouts: Timeouts) -> (
        Connection,
        ConnDirective<Req, Resp>,
    ) {
        match (self, event) {
            (Connection::Closed, _) => (self, ConnDirective::Ignore),
            (_, ConnEvent::Lost) => (Connection::Closed, ConnDirective::Close),
            (Connection::Reading, ConnEvent::Request { request, keep_alive }) => (
                Connection::Handling { keep_alive },
                ConnDirective::Invoke { request },
            ),
            (Connection::Reading, ConnEvent::Malformed) => (
                Connection::Rejecting,
                ConnDirective::Reject { status: BAD_REQUEST, timeout_ms: timeouts.write_ms },
            ),
            (Connection::Handling { keep_alive }, ConnEvent::Response { response }) => (
                Connection::Writing { keep_alive },
                ConnDirective::Write { response, keep_alive, timeout_ms: timeouts.write_ms },
            ),
            (Connection::Writing { keep_alive: true }, ConnEvent::Written) => (
                Connection::Reading,
                ConnDirective::Read { timeout_ms: timeouts.read_ms },
            ),
            (Connection::Writing { keep_alive: false }, ConnEvent::Written) => (
                Connection::Closed,
                ConnDirective::Close,
            ),
            (Connection::Rejecting, ConnEvent::Written) => (
                Connection::Closed,
                ConnDirective::Close,
            ),
            _ => (self, ConnDirective::Ignore),
        }
    }

    /// Takes an event in, and says what the driver is to do next.
    pub fn advance<Req, Resp>(
        &mut self,
        event: ConnEvent<Req, Resp>,
        timeouts: Timeouts,
    ) -> (directive: ConnDirective<Req, Resp>)
        ensures
            (*final(self), directive) == old(self).step(event, timeouts),
    {
        let (next, directive) = match (*self, event) {
            (Connection::Closed, _) => (Connection::Closed, ConnDirective::Ignore),
            (_, ConnEvent::Lost) => (Connection::Closed, ConnDirective::Close),
            (Connection::Reading, ConnEvent::Request { request, keep_alive }) => (
                Connection::Handling { keep_alive },
                ConnDirective::Invoke { request },
            ),
            (Connection::Reading, ConnEvent::Malformed) => (
                Connection::Rejecting,
                ConnDirective::Reject { status: BAD_REQUEST, timeout_ms: timeouts.write_ms },
            ),
            (Connection::Handling { keep_alive }, ConnEvent::Response { response }) => (
                Connection::Writing { keep_alive },
                ConnDirective::Write { response, keep_alive, timeout_ms: timeouts.write_ms },
            ),
            (Connection::Writing { keep_alive: true }, ConnEvent::Written) => (
                Connection::Reading,
                ConnDirective::Read { timeout_ms: timeouts.read_ms },
            ),
            (Connection::Writing { keep_alive: false }, ConnEvent::Written) => (
                Connection::Closed,
                ConnDirective::Close,
            ),
            (Connection::Rejecting, ConnEvent::Written) => (
                Connection::Closed,
                ConnDirective::Close,
            ),
            (current, _) => (current, ConnDirective::Ignore),
        };
        *self = next;
        directive
    }
}

/// How many of `connections` are open.
pub open spec fn open_among(connections: Seq<Connection>) -> nat
    decreases connections.len(),
{
    if connections.len() == 0 {
        0
    } else {
        open_among(connections.drop_last()) + if connections.last().is_open() {
            1nat
        } else {
            0nat
        }
    }
}

/// What a serving loop is, to its contracts.
pub struct LoopState {
    /// The limits on reading and writing.
    pub timeouts: Timeouts,
    /// The connections by their numbers. A closed one marks a free slot.
    pub connections: Seq<Connection>,
    /// The pause before the retry of the next failed accept, in milliseconds.
    pub pause_ms: nat,
}

impl LoopState {
    /// The loop before its first accept.
    pub open spec fn fresh(timeouts: Timeouts) -> LoopState {
        LoopState { timeouts, connections: Seq::empty(), pause_ms: FIRST_RETRY_MS as nat }
    }

    /// What holds of every loop: its pause is within the bounds.
    pub open spec fn wf(self) -> bool {
        &&& FIRST_RETRY_MS <= self.pause_ms <= LONGEST_RETRY_MS
        &&& self.connections.len() <= usize::MAX
    }

    /// Whether `slot` is the lowest free slot: the lowest number of a closed
    /// connection, or the number after the last where none is closed.
    pub open spec fn is_lowest_free(self, slot: int) -> bool {
        &&& 0 <= slot <= self.connections.len()
        &&& slot < self.connections.len() ==> self.connections[slot] is Closed
        &&& forall|i: int| 0 <= i < slot ==> (#[trigger] self.connections[i]).is_open()
    }

    /// The lowest free slot.
    pub open spec fn lowest_free(self) -> int {
        choose|slot: int| self.is_lowest_free(slot)
    }

    /// The connections after a new one has taken `slot`.
    pub open spec fn with_new(self, slot: int) -> Seq<Connection> {
        if slot < self.connections.len() {
            self.connections.update(slot, Connection::Reading)
        } else {
            self.connections.push(Connection::Reading)
        }
    }

    /// The loop after an accept, and what its driver is to do next.
    ///
    /// A new connection takes the lowest free slot and waits for a request,
    /// and the pause falls back to the first. A failure is retried after the
    /// pause, and the next pause is longer, up to the longest. Neither
    /// changes a connection that is open.
    pub open spec fn accept_step(self, event: AcceptEvent) -> (LoopState, AcceptDirective) {
        match event {
            AcceptEvent::Connected => (
                LoopState {
                    connections: self.with_new(self.lowest_free()),
                    pause_ms: FIRST_RETRY_MS as nat,
                    ..self
                },
                AcceptDirective::Serve {
                    connection: self.lowest_free() as usize,
                    timeout_ms: self.timeouts.read_ms,
                },
            ),
            AcceptEvent::Failed => (
                LoopState { pause_ms: longer_pause(self.pause_ms), ..self },
                AcceptDirective::RetryAfter { pause_ms: self.pause_ms as u64 },
            ),
        }
    }

    /// The loop after an event of the connection with this number, and what
    /// the connection's driver is to do next. An event of a number that the
    /// loop has no connection under is ignored.
    pub open spec fn connection_step<Req, Resp>(
        self,
        connection: int,
        event: ConnEvent<Req, Resp>,
    ) -> (LoopState, ConnDirective<Req, Resp>) {
        if 0 <= connection < self.connections.len() {
            let (next, directive) = self.connections[connection].step(event, self.timeouts);
            (
                LoopState { connections: self.connections.update(connection, next), ..self },
                directive,
            )
        } else {
            (self, ConnDirective::Ignore)
        }
    }

    /// A loop has one lowest free slot.
    pub proof fn lemma_lowest_free(self)
        ensures
            self.is_lowest_free(self.lowest_free()),
            forall|slot: int| self.is_lowest_free(slot) ==> slot == self.lowest_free(),
    {
        self.lemma_lowest_free_from(0);
        let chosen = self.lowest_free();
        assert forall|slot: int| self.is_lowest_free(slot) implies slot == chosen by {
            if slot < chosen {
                assert(self.connections[slot].is_open());
            } else if chosen < slot {
                assert(self.connections[chosen].is_open());
            }
        }
    }

    /// Where no slot below `from` is free, some slot is the lowest free one.
    proof fn lemma_lowest_free_from(self, from: int)
        requires
            0 <= from <= self.connections.len(),
            forall|i: int| 0 <= i < from ==> (#[trigger] self.connections[i]).is_open(),
        ensures
            exists|slot: int| self.is_lowest_free(slot),
        decreases self.connections.len() - from,
    {
        if from == self.connections.len() || self.connections[from] is Closed {
            assert(self.is_lowest_free(from));
        } else {
            self.lemma_lowest_free_from(from + 1);
        }
    }
}

/// A worker's serving loop.
#[derive(Debug)]
pub struct ServerLoop {
    timeouts: Timeouts,
    backoff: Backoff,
    connections: Vec<Connection>,
}

impl View for ServerLoop {
    type V = LoopState;

    closed spec fn view(&self) -> LoopState {
        LoopState {
            timeouts: self.timeouts,
            connections: self.connections@,
            pause_ms: self.backoff@,
        }
    }
}

impl ServerLoop {
    /// The loop of a worker that is about to accept for the first time.
    pub fn new(timeouts: Timeouts) -> (serving: ServerLoop)
        ensures
            serving@ == LoopState::fresh(timeouts),
            serving@.wf(),
    {
        ServerLoop { timeouts, backoff: Backoff::new(), connections: Vec::new() }
    }

    /// Takes the outcome of an accept in, and says what the driver is to do
    /// next.
    pub fn on_accept(&mut self, event: AcceptEvent) -> (directive: AcceptDirective)
        ensures
            (final(self)@, directive) == old(self)@.accept_step(event),
            directive matches AcceptDirective::RetryAfter { pause_ms } ==> FIRST_RETRY_MS
                <= pause_ms <= LONGEST_RETRY_MS,
            final(self)@.wf(),
    {
        proof {
            use_type_invariant(&self.backoff);
            self@.lemma_lowest_free();
        }
        match event {
            AcceptEvent::Connected => {
                let mut slot: usize = 0;
                while slot < self.connections.len() && !is_closed(&self.connections[slot])
                    invariant
                        slot <= self.connections@.len(),
                        forall|i: int|
                            0 <= i < slot ==> (#[trigger] self.connections@[i]).is_open(),
                    decreases self.connections@.len() - slot,
                {
                    slot += 1;
                }
                assert(self@.is_lowest_free(slot as int));
                if slot < self.connections.len() {
                    self.connections[slot] = Connection::Reading;
                } else {
                    self.connections.push(Connection::Reading);
                }
                self.backoff.succeeded();
                assert(self.connections.len() <= usize::MAX);
                AcceptDirective::Serve { connection: slot, timeout_ms: self.timeouts.read_ms }
            },
            AcceptEvent::Failed => {
                let pause_ms = self.backoff.failed();
                AcceptDirective::RetryAfter { pause_ms }
            },
        }
    }

    /// Takes an event of a connection in, and says what the connection's
    /// driver is to do next.
    pub fn on_connection<Req, Resp>(
        &mut self,
        connection: usize,
        event: ConnEvent<Req, Resp>,
    ) -> (directive: ConnDirective<Req, Resp>)
        ensures
            (final(self)@, directive) == old(self)@.connection_step(connection as int, event),
            final(self)@.wf() == old(self)@.wf(),
    {
        if connection >= self.connections.len() {
            return ConnDirective::Ignore;
        }
        let mut moved = self.connections[connection];
        let directive = moved.advance(event, self.timeouts);
        self.connections[connection] = moved;
        directive
    }

    /// The limits on reading and writing.
    pub fn timeouts(&self) -> (timeouts: Timeouts)
        ensures
            timeouts == self@.timeouts,
    {
        self.timeouts
    }

    /// The pause before the retry of the next failed accept, in milliseconds.
    pub fn pause_ms(&self) -> (pause: u64)
        ensures
            pause == self@.pause_ms,
            FIRST_RETRY_MS <= pause <= LONGEST_RETRY_MS,
    {
        self.backoff.next_ms()
    }

    /// Where the connection with this number stands; closed, if the loop has
    /// none under it.
    pub fn connection(&self, number: usize) -> (connection: Connection)
        ensures
            connection == if number < self@.connections.len() {
                self@.connections[number as int]
            } else {
                Connection::Closed
            },
    {
        if number < self.connections.len() {
            self.connections[number]
        } else {
            Connection::Closed
        }
    }

    /// The number of open connections.
    pub fn open_connections(&self) -> (count: usize)
        ensures
            count == open_among(self@.connections),
    {
        let mut count: usize = 0;
        let mut i: usize = 0;
        while i < self.connections.len()
            invariant
                i <= self.connections@.len(),
                count <= i,
                count == open_among(self.connections@.take(i as int)),
            decreases self.connections@.len() - i,
        {
            proof {
                assert(self.connections@.take(i + 1).drop_last() =~= self.connections@.take(
                    i as int,
                ));
            }
            if !is_closed(&self.connections[i]) {
                count += 1;
            }
            i += 1;
        }
        proof {
            assert(self.connections@.take(i as int) =~= self.connections@);
        }
        count
    }
}

/// Whether there is no connection.
fn is_closed(connection: &Connection) -> (closed: bool)
    ensures
        closed == !connection.is_open(),
{
    match connection {
        Connection::Closed => true,
        _ => false,
    }
}

impl LoopState {
    /// Every event leaves a loop within its bounds, but for the slot that a
    /// new connection may add.
    pub proof fn lemma_steps_keep_bounds<Req, Resp>(
        self,
        accept: AcceptEvent,
        connection: int,
        event: ConnEvent<Req, Resp>,
    )
        requires
            self.wf(),
        ensures
            self.connection_step(connection, event).0.wf(),
            self.accept_step(accept).0.pause_ms <= LONGEST_RETRY_MS,
            self.accept_step(accept).0.pause_ms >= FIRST_RETRY_MS,
            self.accept_step(accept).0.connections.len() <= self.connections.len() + 1,
    {
        self.lemma_lowest_free();
    }

    /// The loop after this many accepts have failed in a row.
    pub open spec fn failing(self, failures: nat) -> LoopState
        decreases failures,
    {
        if failures == 0 {
            self
        } else {
            self.failing((failures - 1) as nat).accept_step(AcceptEvent::Failed).0
        }
    }

    /// A loop whose accepts fail in a row pauses longer and longer, up to the
    /// longest pause, and goes on accepting: after any number of failures the
    /// next one is retried too, and no connection has been touched.
    pub proof fn lemma_failing_accept_backs_off(self, failures: nat)
        requires
            self.pause_ms == FIRST_RETRY_MS,
        ensures
            self.failing(failures).pause_ms == pause_after(failures),
            self.failing(failures).connections == self.connections,
            self.failing(failures).accept_step(AcceptEvent::Failed).1 == (
            AcceptDirective::RetryAfter { pause_ms: pause_after(failures) as u64 }),
            pause_after(failures) <= LONGEST_RETRY_MS,
        decreases failures,
    {
        if failures > 0 {
            self.lemma_failing_accept_backs_off((failures - 1) as nat);
        }
        lemma_pauses_are_bounded(failures);
    }

    /// An accept changes no connection that is open: a new connection takes
    /// a slot that was free, and a failure changes no slot at all.
    pub proof fn lemma_accept_keeps_connections(self, event: AcceptEvent, number: int)
        requires
            self.wf(),
            0 <= number < self.connections.len(),
            self.connections[number].is_open(),
        ensures
            self.accept_step(event).0.connections[number] == self.connections[number],
            event is Failed ==> self.accept_step(event).0.connections == self.connections,
            self.accept_step(event).1 matches AcceptDirective::Serve { connection, .. }
                ==> connection != number,
    {
        self.lemma_lowest_free();
    }

    /// An event of one connection changes nothing but that connection: all
    /// others stay as they are, no slot is added, and the pause of the accept
    /// is not touched. A connection that is lost, or that sent a malformed
    /// request, ends alone.
    pub proof fn lemma_connection_event_is_contained<Req, Resp>(
        self,
        connection: int,
        event: ConnEvent<Req, Resp>,
        other: int,
    )
        requires
            0 <= other < self.connections.len(),
            other != connection,
        ensures
            self.connection_step(connection, event).0.connections[other]
                == self.connections[other],
            self.connection_step(connection, event).0.connections.len()
                == self.connections.len(),
            self.connection_step(connection, event).0.pause_ms == self.pause_ms,
            self.connection_step(connection, event).0.timeouts == self.timeouts,
    {
    }

    /// Events of two connections can come in either order: the loop ends in
    /// the same state, and each connection gets the same directive.
    pub proof fn lemma_connections_do_not_interfere<Req, Resp>(
        self,
        one: int,
        event_one: ConnEvent<Req, Resp>,
        two: int,
        event_two: ConnEvent<Req, Resp>,
    )
        requires
            one != two,
        ensures
            ({
                let (after_one, directive_one) = self.connection_step(one, event_one);
                let (after_two, directive_two) = self.connection_step(two, event_two);
                &&& after_one.connection_step(two, event_two).0 == after_two.connection_step(
                    one,
                    event_one,
                ).0
                &&& after_one.connection_step(two, event_two).1 == directive_two
                &&& after_two.connection_step(one, event_one).1 == directive_one
            }),
    {
        let (after_one, directive_one) = self.connection_step(one, event_one);
        let (after_two, directive_two) = self.connection_step(two, event_two);
        assert(after_one.connection_step(two, event_two).0.connections
            =~= after_two.connection_step(one, event_one).0.connections);
    }

    /// The application is invoked once for each request: only a request that
    /// is read from a waiting connection is handed to it, and the connection
    /// then waits for the application, not for a request.
    pub proof fn lemma_application_is_invoked_per_request<Req, Resp>(
        self,
        connection: int,
        event: ConnEvent<Req, Resp>,
    )
        ensures
            self.connection_step(connection, event).1 is Invoke <==> {
                &&& 0 <= connection < self.connections.len()
                &&& self.connections[connection] is Reading
                &&& event is Request
            },
            self.connection_step(connection, event).1 is Invoke ==> self.connection_step(
                connection,
                event,
            ).0.connections[connection] is Handling,
    {
    }

    /// The application gets the request that was read, and the client gets
    /// the response that the application returned: nothing of the loop's
    /// state goes into either, so every worker's loop passes on the same.
    pub proof fn lemma_loop_passes_on_unchanged<Req, Resp>(
        self,
        connection: int,
        other: LoopState,
        other_connection: int,
        request: Req,
        keep_alive: bool,
        response: Resp,
    )
        requires
            0 <= connection < self.connections.len(),
            0 <= other_connection < other.connections.len(),
        ensures
            self.connections[connection] is Reading ==> self.connection_step::<Req, Resp>(
                connection,
                ConnEvent::Request { request, keep_alive },
            ).1 == (ConnDirective::<Req, Resp>::Invoke { request }),
            self.connections[connection] matches Connection::Handling { keep_alive: kept }
                ==> self.connection_step::<Req, Resp>(
                connection,
                ConnEvent::Response { response },
            ).1 == (ConnDirective::<Req, Resp>::Write {
                response,
                keep_alive: kept,
                timeout_ms: self.timeouts.write_ms,
            }),
            self.connections[connection] == other.connections[other_connection] && self.timeouts
                == other.timeouts ==> {
                &&& self.connection_step::<Req, Resp>(
                    connection,
                    ConnEvent::Request { request, keep_alive },
                ).1 == other.connection_step::<Req, Resp>(
                    other_connection,
                    ConnEvent::Request { request, keep_alive },
                ).1
                &&& self.connection_step::<Req, Resp>(
                    connection,
                    ConnEvent::Response { response },
                ).1 == other.connection_step::<Req, Resp>(
                    other_connection,
                    ConnEvent::Response { response },
                ).1
            },
    {
    }

    /// A connection that is kept alive serves its next request in the same
    /// loop: after the response the loop is as it was before the request, the
    /// connection waits under its number for the next one, and that request
    /// goes to the application with no accept in between.
    pub proof fn lemma_kept_alive_connection_is_reused<Req, Resp>(
        self,
        connection: int,
        first: Req,
        response: Resp,
        second: Req,
        keep_alive: bool,
    )
        requires
            0 <= connection < self.connections.len(),
            self.connections[connection] is Reading,
        ensures
            ({
                let (handling, invoke) = self.connection_step::<Req, Resp>(
                    connection,
                    ConnEvent::Request { request: first, keep_alive: true },
                );
                let (writing, write) = handling.connection_step::<Req, Resp>(
                    connection,
                    ConnEvent::Response { response },
                );
                let (reading, read) = writing.connection_step::<Req, Resp>(
                    connection,
                    ConnEvent::Written,
                );
                let (again, invoke_again) = reading.connection_step::<Req, Resp>(
                    connection,
                    ConnEvent::Request { request: second, keep_alive },
                );
                &&& invoke == (ConnDirective::<Req, Resp>::Invoke { request: first })
                &&& write == (ConnDirective::<Req, Resp>::Write {
                    response,
                    keep_alive: true,
                    timeout_ms: self.timeouts.write_ms,
                })
                &&& read == (ConnDirective::<Req, Resp>::Read { timeout_ms: self.timeouts.read_ms })
                &&& reading == self
                &&& handling.connections[connection].is_open()
                &&& writing.connections[connection].is_open()
                &&& invoke_again == (ConnDirective::<Req, Resp>::Invoke { request: second })
                &&& again.connections.len() == self.connections.len()
                &&& open_among(again.connections) == open_among(self.connections)
            }),
    {
        let (handling, invoke) = self.connection_step::<Req, Resp>(
            connection,
            ConnEvent::Request { request: first, keep_alive: true },
        );
        let (writing, write) = handling.connection_step::<Req, Resp>(
            connection,
            ConnEvent::Response { response },
        );
        let (reading, read) = writing.connection_step::<Req, Resp>(connection, ConnEvent::Written);
        let (again, invoke_again) = reading.connection_step::<Req, Resp>(
            connection,
            ConnEvent::Request { request: second, keep_alive },
        );
        assert(reading.connections =~= self.connections);
        lemma_open_among_update(self.connections, connection, again.connections[connection]);
        assert(again.connections =~= self.connections.update(
            connection,
            again.connections[connection],
        ));
    }
}

/// To put an open connection where an open one was changes no count.
pub proof fn lemma_open_among_update(connections: Seq<Connection>, number: int, next: Connection)
    requires
        0 <= number < connections.len(),
        connections[number].is_open() == next.is_open(),
    ensures
        open_among(connections.update(number, next)) == open_among(connections),
    decreases connections.len(),
{
    let updated = connections.update(number, next);
    if number == connections.len() - 1 {
        assert(updated.drop_last() =~= connections.drop_last());
    } else {
        lemma_open_among_update(connections.drop_last(), number, next);
        assert(updated.drop_last() =~= connections.drop_last().update(number, next));
    }
}

} // verus!
