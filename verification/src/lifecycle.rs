//! The life of an inbound connection, and the drain that ends the
//! listener.
//!
//! The listener and its connections run outside this library. What they
//! do next is decided here: from the state they are in and the event they
//! saw, to the next state and the action to take.

use vstd::prelude::*;

verus! {

/// The port that the tunnel listener answers on, unless it is told otherwise.
pub const HBONE_PORT: u16 = 15008;

/// The seconds that a TLS handshake is given, unless told otherwise.
pub const TLS_HANDSHAKE_TIMEOUT_SECS: u64 = 10;

/// The seconds that a connect to a workload is given, unless told otherwise.
pub const CONNECT_TIMEOUT_SECS: u64 = 10;

/// The seconds that a draining connection is given before it is closed.
pub const DRAIN_DEADLINE_SECS: u64 = 30;

/// Where an accepted socket stands.
#[derive(Debug, Clone, Copy, PartialEq, Eq, Hash, Structural)]
pub enum ConnState {
    /// The socket was accepted; the certificate to present is being chosen.
    Accepted,
    /// The TLS handshake is under way.
    TlsHandshaking,
    /// The tunnel is up; inner requests are served.
    Serving,
    /// The tunnel is shutting down: the requests in flight finish, new
    /// ones are refused.
    Draining,
    /// The socket is closed.
    Closed,
}

/// What happened to a connection.
#[derive(Debug, Clone, Copy, PartialEq, Eq, Hash, Structural)]
pub enum ConnEvent {
    /// The certificate to present was chosen.
    AcceptorReady,
    /// No certificate could be chosen.
    AcceptorFailed,
    /// The handshake succeeded.
    HandshakeDone,
    /// The handshake failed or timed out.
    HandshakeFailed,
    /// The drain signal fired.
    Drain,
    /// Serving came to its end.
    Finished,
    /// The time that a draining connection is given has run out.
    Deadline,
}

/// What to do with a connection.
#[derive(Debug, Clone, Copy, PartialEq, Eq, Hash, Structural)]
pub enum ConnAction {
    /// Start the TLS handshake.
    Handshake,
    /// Serve inner requests.
    Serve,
    /// Stop taking new inner requests and wait for those in flight.
    Shutdown,
    /// Close the socket.
    Close,
    /// Nothing to do.
    Nothing,
}

/// The next state of a connection and the action to take. An event
/// that does not belong to the state changes nothing.
pub open spec fn conn_step(s: ConnState, e: ConnEvent) -> (ConnState, ConnAction) {
    match (s, e) {
        (ConnState::Accepted, ConnEvent::AcceptorReady) => (
            ConnState::TlsHandshaking,
            ConnAction::Handshake,
        ),
        (ConnState::Accepted, ConnEvent::AcceptorFailed) => (ConnState::Closed, ConnAction::Close),
        (ConnState::Accepted, ConnEvent::Drain) => (ConnState::Closed, ConnAction::Close),
        (ConnState::TlsHandshaking, ConnEvent::HandshakeDone) => (
            ConnState::Serving,
            ConnAction::Serve,
        ),
        (ConnState::TlsHandshaking, ConnEvent::HandshakeFailed) => (
            ConnState::Closed,
            ConnAction::Close,
        ),
        (ConnState::TlsHandshaking, ConnEvent::Drain) => (ConnState::Closed, ConnAction::Close),
        (ConnState::Serving, ConnEvent::Drain) => (ConnState::Draining, ConnAction::Shutdown),
        (ConnState::Serving, ConnEvent::Finished) => (ConnState::Closed, ConnAction::Nothing),
        (ConnState::Draining, ConnEvent::Finished) => (ConnState::Closed, ConnAction::Nothing),
        (ConnState::Draining, ConnEvent::Deadline) => (ConnState::Closed, ConnAction::Close),
        _ => (s, ConnAction::Nothing),
    }
}

impl ConnState {
    /// The next state and the action to take after an event.
    pub fn step(self, e: ConnEvent) -> (r: (ConnState, ConnAction))
        ensures
            r == conn_step(self, e),
    {
        match (self, e) {
            (ConnState::Accepted, ConnEvent::AcceptorReady) => (
                ConnState::TlsHandshaking,
                ConnAction::Handshake,
            ),
            (ConnState::Accepted, ConnEvent::AcceptorFailed) => (
                ConnState::Closed,
                ConnAction::Close,
            ),
            (ConnState::Accepted, ConnEvent::Drain) => (ConnState::Closed, ConnAction::Close),
            (ConnState::TlsHandshaking, ConnEvent::HandshakeDone) => (
                ConnState::Serving,
                ConnAction::Serve,
            ),
            (ConnState::TlsHandshaking, ConnEvent::HandshakeFailed) => (
                ConnState::Closed,
                ConnAction::Close,
            ),
            (ConnState::TlsHandshaking, ConnEvent::Drain) => (ConnState::Closed, ConnAction::Close),
            (ConnState::Serving, ConnEvent::Drain) => (ConnState::Draining, ConnAction::Shutdown),
            (ConnState::Serving, ConnEvent::Finished) => (ConnState::Closed, ConnAction::Nothing),
            (ConnState::Draining, ConnEvent::Finished) => (ConnState::Closed, ConnAction::Nothing),
            (ConnState::Draining, ConnEvent::Deadline) => (ConnState::Closed, ConnAction::Close),
            _ => (self, ConnAction::Nothing),
        }
    }

    /// Whether a new inner request is taken in this state: only while
    /// the tunnel is up and not shutting down.
    pub open spec fn spec_accepts_requests(self) -> bool {
        self == ConnState::Serving
    }

    /// Whether a new inner request is taken in this state.
    #[verifier::when_used_as_spec(spec_accepts_requests)]
    pub fn accepts_requests(self) -> (r: bool)
        ensures
            r == (self == ConnState::Serving),
    {
        match self {
            ConnState::Serving => true,
            _ => false,
        }
    }
}

/// The state of a connection after a run of events.
pub open spec fn conn_after(s: ConnState, events: Seq<ConnEvent>) -> ConnState
    decreases events.len(),
{
    if events.len() == 0 {
        s
    } else {
        conn_step(conn_after(s, events.drop_last()), events.last()).0
    }
}

/// Whether a connection is beyond serving: shutting down, or closed.
pub open spec fn past_serving(s: ConnState) -> bool {
    s == ConnState::Draining || s == ConnState::Closed
}

/// A connection beyond serving stays beyond serving, and a closed one
/// stays closed, whatever happens.
pub proof fn law_no_way_back(s: ConnState, events: Seq<ConnEvent>)
    ensures
        s == ConnState::Closed ==> conn_after(s, events) == ConnState::Closed,
        past_serving(s) ==> past_serving(conn_after(s, events)),
    decreases events.len(),
{
    if events.len() > 0 {
        law_no_way_back(s, events.drop_last());
    }
}

/// A connection whose certificate lookup failed is closed at once and
/// never serves: the first action is to close it, every later event finds
/// it closed and asks for nothing, so that no handshake is made and no
/// request is served on it, whatever follows.
pub proof fn law_failed_lookup_never_serves(events: Seq<ConnEvent>, i: int)
    requires
        0 <= i < events.len(),
        events[0] == ConnEvent::AcceptorFailed,
    ensures
        conn_after(ConnState::Accepted, events.take(i + 1)) == ConnState::Closed,
        conn_step(conn_after(ConnState::Accepted, events.take(i)), events[i]).1 == (if i == 0 {
            ConnAction::Close
        } else {
            ConnAction::Nothing
        }),
{
    let upto = events.take(i + 1);
    lemma_conn_after_first(ConnState::Accepted, upto);
    law_no_way_back(ConnState::Closed, upto.skip(1));
    if i > 0 {
        let before = events.take(i);
        lemma_conn_after_first(ConnState::Accepted, before);
        law_no_way_back(ConnState::Closed, before.skip(1));
    }
}

/// A run of events is its first event and then the rest.
pub proof fn lemma_conn_after_first(s: ConnState, events: Seq<ConnEvent>)
    requires
        events.len() > 0,
    ensures
        conn_after(s, events) == conn_after(conn_step(s, events[0]).0, events.skip(1)),
    decreases events.len(),
{
    if events.len() == 1 {
        assert(events.drop_last().len() == 0);
        assert(events.skip(1).len() == 0);
    } else {
        let front = events.drop_last();
        lemma_conn_after_first(s, front);
        assert(front[0] == events[0]);
        assert(front.skip(1) =~= events.skip(1).drop_last());
        assert(events.skip(1).last() == events.last());
    }
}

/// Once the drain signal was seen, the connection takes no new inner
/// request, whatever happens afterwards.
pub proof fn law_drain_is_final(s: ConnState, events: Seq<ConnEvent>)
    requires
        events.len() > 0,
        events[0] == ConnEvent::Drain,
    ensures
        !conn_after(s, events).spec_accepts_requests(),
{
    lemma_conn_after_first(s, events);
    law_no_way_back(conn_step(s, ConnEvent::Drain).0, events.skip(1));
}

/// What the listener does next.
#[derive(Debug, Clone, Copy, PartialEq, Eq, Hash, Structural)]
pub enum ListenerAction {
    /// Accept the next connection.
    Accept,
    /// Stop accepting; wait for the connections that are open.
    Wait,
    /// Everything is drained: say so, once.
    Report,
    /// Leave.
    Exit,
}

/// The drain of the listener: one signal to start it, and a count of the
/// connections that still hold on.
#[derive(Debug, Clone, Copy, PartialEq, Eq, Hash, Structural)]
pub struct Drain {
    signaled: bool,
    handles: usize,
    reported: bool,
}

/// What a `Drain` stands for.
pub struct DrainView {
    /// Whether the signal has fired.
    pub signaled: bool,
    /// The number of connections that hold a handle.
    pub handles: nat,
    /// Whether the end of the drain was reported.
    pub reported: bool,
}

impl View for Drain {
    type V = DrainView;

    closed spec fn view(&self) -> DrainView {
        DrainView { signaled: self.signaled, handles: self.handles as nat, reported: self.reported }
    }
}

impl DrainView {
    /// Whether the drain is over: the signal fired, and no connection
    /// holds on.
    pub open spec fn complete(self) -> bool {
        self.signaled && self.handles == 0
    }

    /// What the listener does next, and the drain after it.
    pub open spec fn next(self) -> (DrainView, ListenerAction) {
        if !self.signaled {
            (self, ListenerAction::Accept)
        } else if self.handles > 0 {
            (self, ListenerAction::Wait)
        } else if !self.reported {
            (DrainView { reported: true, ..self }, ListenerAction::Report)
        } else {
            (self, ListenerAction::Exit)
        }
    }
}

impl Drain {
    /// A drain that has not been signaled and that nobody holds on to.
    pub fn new() -> (d: Self)
        ensures
            d@ == (DrainView { signaled: false, handles: 0, reported: false }),
    {
        Drain { signaled: false, handles: 0, reported: false }
    }

    /// A connection takes a handle. No handle is given once the signal
    /// has fired, nor where the count would not fit.
    pub fn register(&mut self) -> (r: bool)
        ensures
            r == (!old(self)@.signaled && old(self)@.handles < usize::MAX),
            final(self)@ == if r {
                DrainView { handles: old(self)@.handles + 1, ..old(self)@ }
            } else {
                old(self)@
            },
    {
        if self.signaled || self.handles == usize::MAX {
            false
        } else {
            self.handles = self.handles + 1;
            true
        }
    }

    /// A connection gives its handle back.
    pub fn release(&mut self)
        ensures
            final(self)@ == if old(self)@.handles > 0 {
                DrainView { handles: (old(self)@.handles - 1) as nat, ..old(self)@ }
            } else {
                old(self)@
            },
    {
        if self.handles > 0 {
            self.handles = self.handles - 1;
        }
    }

    /// Fires the signal.
    pub fn start(&mut self)
        ensures
            final(self)@ == (DrainView { signaled: true, ..old(self)@ }),
    {
        self.signaled = true;
    }

    /// Whether the signal has fired.
    pub fn is_signaled(&self) -> (r: bool)
        ensures
            r == self@.signaled,
    {
        self.signaled
    }

    /// Whether the drain is over.
    pub fn is_complete(&self) -> (r: bool)
        ensures
            r == self@.complete(),
    {
        self.signaled && self.handles == 0
    }

    /// What the listener does next. The end of the drain is reported
    /// once, the first time it is seen.
    pub fn next(&mut self) -> (r: ListenerAction)
        ensures
            (final(self)@, r) == old(self)@.next(),
    {
        if !self.signaled {
            ListenerAction::Accept
        } else if self.handles > 0 {
            ListenerAction::Wait
        } else if !self.reported {
            self.reported = true;
            ListenerAction::Report
        } else {
            ListenerAction::Exit
        }
    }
}

/// The end of a drain is reported at most once: after a report, no
/// later step reports again, whatever happens in between.
pub proof fn law_reported_once(d: DrainView)
    requires
        d.reported,
    ensures
        d.next().1 != ListenerAction::Report,
        d.next().0.reported,
{
}

} // verus!
