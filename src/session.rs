use vstd::prelude::*;
use crate::bytes::trim;
use crate::request::{asks_close, lines_view, wants_close, is_blank};

verus! {

/// How long the session waits for the next request line, in milliseconds.
pub const KEEP_ALIVE_TIMEOUT_MS: u64 = 1000;

/// How many requests one connection may carry.
pub const MAX_REQUESTS_PER_CONNECTION: u32 = 100;

/// Where a connection stands.
#[derive(Clone, Copy, PartialEq, Eq, Structural)]
pub enum Phase {
    AwaitingRequest,
    ReadingHeaders,
    Responding,
    Closed,
}

/// What happened on the connection since the last step.
pub enum Event<'a> {
    /// Reading the request line met the end of the stream: the peer closed first.
    PeerClosed,
    /// No request line arrived within the idle timeout.
    TimedOut,
    /// Reading the request line failed in another way.
    LineFailed,
    /// A request line was read.
    RequestLine(&'a [u8]),
    /// Reading a header line failed.
    HeadersFailed,
    /// The header lines were read, up to the blank line or the end of the stream.
    Headers(&'a Vec<Vec<u8>>),
    /// The response was written in full and flushed.
    Sent,
    /// Writing or flushing the response failed.
    SendFailed,
}

/// What the connection should do next.
#[derive(Clone, Copy, PartialEq, Eq, Structural)]
pub enum Action {
    /// Arm the idle timeout and read a request line.
    ReadRequestLine,
    /// Read header lines up to a blank line.
    ReadHeaders,
    /// Dispatch the request and write the response.
    Respond,
    /// Shut the connection down in both directions.
    Close,
}

/// The model of a session.
pub struct SessionView {
    pub phase: Phase,
    pub served: nat,
    pub max_requests: nat,
    pub close_requested: bool,
}

/// The state of one connection: its phase, the requests answered on it, and its limits.
pub struct Session {
    phase: Phase,
    served: u32,
    max_requests: u32,
    idle_timeout_ms: u64,
    close_requested: bool,
}

impl View for Session {
    type V = SessionView;

    closed spec fn view(&self) -> SessionView {
        SessionView {
            phase: self.phase,
            served: self.served as nat,
            max_requests: self.max_requests as nat,
            close_requested: self.close_requested,
        }
    }
}

/// Requests are counted up to the maximum, and a session that is not closed may
/// still answer one more.
pub open spec fn session_inv(s: SessionView) -> bool {
    &&& s.served <= s.max_requests
    &&& s.phase != Phase::Closed ==> s.served < s.max_requests
}

pub open spec fn initial(max_requests: nat) -> SessionView {
    SessionView {
        phase: if max_requests == 0 {
            Phase::Closed
        } else {
            Phase::AwaitingRequest
        },
        served: 0,
        max_requests,
        close_requested: false,
    }
}

pub open spec fn closed(s: SessionView) -> SessionView {
    SessionView { phase: Phase::Closed, ..s }
}

/// The session after one event. An event that does not belong to the phase
/// changes nothing.
pub open spec fn after(s: SessionView, e: Event) -> SessionView {
    match s.phase {
        Phase::AwaitingRequest => match e {
            Event::PeerClosed | Event::TimedOut | Event::LineFailed => closed(s),
            Event::RequestLine(l) => if trim(l@).len() == 0 {
                closed(s)
            } else {
                SessionView { phase: Phase::ReadingHeaders, ..s }
            },
            _ => s,
        },
        Phase::ReadingHeaders => match e {
            Event::HeadersFailed => closed(s),
            Event::Headers(h) => SessionView {
                phase: Phase::Responding,
                close_requested: asks_close(lines_view(h@)),
                ..s
            },
            _ => s,
        },
        Phase::Responding => match e {
            Event::SendFailed => closed(s),
            Event::Sent => {
                let n = s.served + 1;
                if s.close_requested || n >= s.max_requests {
                    SessionView { phase: Phase::Closed, served: n, ..s }
                } else {
                    SessionView { phase: Phase::AwaitingRequest, served: n, ..s }
                }
            },
            _ => s,
        },
        Phase::Closed => s,
    }
}

/// The session after a sequence of events.
pub open spec fn run(s: SessionView, events: Seq<Event>) -> SessionView
    decreases events.len(),
{
    if events.len() == 0 {
        s
    } else {
        after(run(s, events.drop_last()), events.last())
    }
}

pub open spec fn action_of(s: SessionView) -> Action {
    match s.phase {
        Phase::AwaitingRequest => Action::ReadRequestLine,
        Phase::ReadingHeaders => Action::ReadHeaders,
        Phase::Responding => Action::Respond,
        Phase::Closed => Action::Close,
    }
}

impl Session {
    #[verifier::type_invariant]
    spec fn well_formed(&self) -> bool {
        session_inv(self@)
    }

    /// A session for a new connection; with a maximum of zero it is closed at once.
    pub fn new(max_requests: u32, idle_timeout_ms: u64) -> (s: Session)
        ensures
            s@ == initial(max_requests as nat),
            s.idle_timeout() == idle_timeout_ms,
    {
        Session {
            phase: if max_requests == 0 {
                Phase::Closed
            } else {
                Phase::AwaitingRequest
            },
            served: 0,
            max_requests,
            idle_timeout_ms,
            close_requested: false,
        }
    }

    pub closed spec fn idle_timeout(&self) -> u64 {
        self.idle_timeout_ms
    }

    /// The timeout to arm before each request line is read.
    pub fn idle_timeout_ms(&self) -> (r: u64)
        ensures
            r == self.idle_timeout(),
    {
        self.idle_timeout_ms
    }

    /// The number of requests answered so far.
    pub fn served(&self) -> (r: u32)
        ensures
            r == self@.served,
    {
        self.served
    }

    /// What the connection should do now.
    pub fn action(&self) -> (a: Action)
        ensures
            a == action_of(self@),
    {
        match self.phase {
            Phase::AwaitingRequest => Action::ReadRequestLine,
            Phase::ReadingHeaders => Action::ReadHeaders,
            Phase::Responding => Action::Respond,
            Phase::Closed => Action::Close,
        }
    }

    /// Takes one event and says what to do next.
    pub fn step(&mut self, e: Event) -> (a: Action)
        ensures
            final(self)@ == after(old(self)@, e),
            final(self).idle_timeout() == old(self).idle_timeout(),
            a == action_of(final(self)@),
    {
        proof {
            use_type_invariant(&*self);
        }
        match self.phase {
            Phase::AwaitingRequest => match e {
                Event::PeerClosed | Event::TimedOut | Event::LineFailed => {
                    self.phase = Phase::Closed;
                },
                Event::RequestLine(l) => {
                    if is_blank(l) {
                        self.phase = Phase::Closed;
                    } else {
                        self.phase = Phase::ReadingHeaders;
                    }
                },
                _ => {},
            },
            Phase::ReadingHeaders => match e {
                Event::HeadersFailed => {
                    self.phase = Phase::Closed;
                },
                Event::Headers(h) => {
                    self.close_requested = wants_close(h);
                    self.phase = Phase::Responding;
                },
                _ => {},
            },
            Phase::Responding => match e {
                Event::SendFailed => {
                    self.phase = Phase::Closed;
                },
                Event::Sent => {
                    let n = self.served + 1;
                    let phase = if self.close_requested || n >= self.max_requests {
                        Phase::Closed
                    } else {
                        Phase::AwaitingRequest
                    };
                    *self = Session {
                        phase,
                        served: n,
                        max_requests: self.max_requests,
                        idle_timeout_ms: self.idle_timeout_ms,
                        close_requested: self.close_requested,
                    };
                },
                _ => {},
            },
            Phase::Closed => {},
        }
        self.action()
    }
}

proof fn lemma_after_keeps_inv(s: SessionView, e: Event)
    requires
        session_inv(s),
    ensures
        session_inv(after(s, e)),
        after(s, e).max_requests == s.max_requests,
{
}

/// Whatever happens on a connection, it never answers more requests than its
/// maximum; once the maximum is reached it is closed, and a closed session stays
/// closed, so no further request is read.
pub proof fn request_cap_closes_session(max_requests: nat, events: Seq<Event>)
    ensures
        run(initial(max_requests), events).served <= max_requests,
        run(initial(max_requests), events).served == max_requests ==> run(
            initial(max_requests),
            events,
        ).phase == Phase::Closed,
{
    lemma_run_keeps_inv(initial(max_requests), events);
}

proof fn lemma_run_keeps_inv(s: SessionView, events: Seq<Event>)
    requires
        session_inv(s),
    ensures
        session_inv(run(s, events)),
        run(s, events).max_requests == s.max_requests,
    decreases events.len(),
{
    if events.len() > 0 {
        lemma_run_keeps_inv(s, events.drop_last());
        lemma_after_keeps_inv(run(s, events.drop_last()), events.last());
    }
}

/// No event moves a closed session.
pub proof fn closed_session_stays_closed(s: SessionView, events: Seq<Event>)
    requires
        s.phase == Phase::Closed,
    ensures
        run(s, events) == s,
    decreases events.len(),
{
    if events.len() > 0 {
        closed_session_stays_closed(s, events.drop_last());
    }
}

/// A request carrying `Connection: close` is the last one on its connection:
/// whatever follows, at most that request is answered, and no request line is
/// read again.
pub proof fn close_header_ends_session(s: SessionView, headers: &Vec<Vec<u8>>, events: Seq<Event>)
    requires
        s.phase == Phase::ReadingHeaders,
        asks_close(lines_view(headers@)),
    ensures
        run(after(s, Event::Headers(headers)), events).served <= s.served + 1,
        run(after(s, Event::Headers(headers)), events).phase == Phase::Responding || run(
            after(s, Event::Headers(headers)),
            events,
        ).phase == Phase::Closed,
{
    lemma_close_pending(s, after(s, Event::Headers(headers)), events);
}

proof fn lemma_close_pending(s: SessionView, t: SessionView, events: Seq<Event>)
    requires
        t.phase == Phase::Responding && t.close_requested && t.served == s.served,
    ensures
        ({
            let u = run(t, events);
            (u.phase == Phase::Responding && u.close_requested && u.served == s.served) || (u.phase
                == Phase::Closed && u.served <= s.served + 1)
        }),
    decreases events.len(),
{
    if events.len() > 0 {
        lemma_close_pending(s, t, events.drop_last());
    }
}

/// One complete exchange: a request line, its headers, and the response sent.
pub open spec fn exchange<'a>(line: &'a [u8], headers: &'a Vec<Vec<u8>>) -> Seq<Event<'a>> {
    seq![Event::RequestLine(line), Event::Headers(headers), Event::Sent]
}

/// `k` complete exchanges of the same request, one after the other.
pub open spec fn exchanges<'a>(line: &'a [u8], headers: &'a Vec<Vec<u8>>, k: nat) -> Seq<
    Event<'a>,
>
    decreases k,
{
    if k == 0 {
        Seq::empty()
    } else {
        exchanges(line, headers, (k - 1) as nat) + exchange(line, headers)
    }
}

proof fn lemma_run_concat(s: SessionView, a: Seq<Event>, b: Seq<Event>)
    ensures
        run(s, a + b) == run(run(s, a), b),
    decreases b.len(),
{
    if b.len() == 0 {
        assert(a + b =~= a);
    } else {
        lemma_run_concat(s, a, b.drop_last());
        assert((a + b).drop_last() =~= a + b.drop_last());
        assert((a + b).last() == b.last());
    }
}

proof fn lemma_run_exchange(s: SessionView, line: &[u8], headers: &Vec<Vec<u8>>)
    requires
        s.phase == Phase::AwaitingRequest,
        trim(line@).len() > 0,
        !asks_close(lines_view(headers@)),
    ensures
        run(s, exchange(line, headers)) == (if s.served + 1 >= s.max_requests {
            SessionView { phase: Phase::Closed, served: s.served + 1, close_requested: false, ..s }
        } else {
            SessionView {
                phase: Phase::AwaitingRequest,
                served: s.served + 1,
                close_requested: false,
                ..s
            }
        }),
{
    let e = exchange(line, headers);
    let e1 = seq![Event::RequestLine(line)];
    let e2 = e1.push(Event::Headers(headers));
    assert(e1.drop_last() =~= Seq::<Event>::empty());
    assert(run(s, e1.drop_last()) == s);
    assert(e1.last() == Event::RequestLine(line));
    assert(run(s, e1) == after(s, Event::RequestLine(line)));
    assert(e2.drop_last() =~= e1);
    assert(e2.last() == Event::Headers(headers));
    assert(run(s, e2) == after(run(s, e1), Event::Headers(headers)));
    assert(e =~= e2.push(Event::Sent));
    assert(e.drop_last() =~= e2);
    assert(run(s, e) == after(run(s, e2), Event::Sent));
}

/// On a connection of at most `max_requests` requests, where each request asks for
/// no close, exactly `k` responses go out after `k` requests; after the last
/// permitted one the session is closed, and nothing that follows is read or
/// answered.
pub proof fn cap_allows_exactly_max_requests(
    max_requests: nat,
    line: &[u8],
    headers: &Vec<Vec<u8>>,
    k: nat,
    more: Seq<Event>,
)
    requires
        trim(line@).len() > 0,
        !asks_close(lines_view(headers@)),
        k <= max_requests,
    ensures
        run(initial(max_requests), exchanges(line, headers, k)).served == k,
        run(initial(max_requests), exchanges(line, headers, k)).phase == (if k < max_requests {
            Phase::AwaitingRequest
        } else {
            Phase::Closed
        }),
        run(initial(max_requests), exchanges(line, headers, max_requests) + more) == run(
            initial(max_requests),
            exchanges(line, headers, max_requests),
        ),
{
    lemma_exchanges(max_requests, line, headers, k);
    lemma_exchanges(max_requests, line, headers, max_requests);
    let done = run(initial(max_requests), exchanges(line, headers, max_requests));
    lemma_run_concat(initial(max_requests), exchanges(line, headers, max_requests), more);
    closed_session_stays_closed(done, more);
}

proof fn lemma_exchanges(max_requests: nat, line: &[u8], headers: &Vec<Vec<u8>>, k: nat)
    requires
        trim(line@).len() > 0,
        !asks_close(lines_view(headers@)),
        k <= max_requests,
    ensures
        ({
            let s = run(initial(max_requests), exchanges(line, headers, k));
            &&& s.served == k
            &&& s.max_requests == max_requests
            &&& !s.close_requested
            &&& s.phase == (if k < max_requests {
                Phase::AwaitingRequest
            } else {
                Phase::Closed
            })
        }),
    decreases k,
{
    if k == 0 {
        assert(exchanges(line, headers, 0) =~= Seq::<Event>::empty());
    } else {
        let p = exchanges(line, headers, (k - 1) as nat);
        lemma_exchanges(max_requests, line, headers, (k - 1) as nat);
        lemma_run_concat(initial(max_requests), p, exchange(line, headers));
        lemma_run_exchange(run(initial(max_requests), p), line, headers);
    }
}

} // verus!
