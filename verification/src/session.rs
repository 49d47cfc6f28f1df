//! The life of one client connection, as a state machine.
//!
//! The machine makes every decision of a session and performs no I/O
//! itself.  A driver owns the sockets: it reports what happened as a
//! [`SessionEvent`], and carries out the [`SessionAction`] that
//! [`step`] answers with.

use vstd::prelude::*;

verus! {

/// Why a request could not be read from the client.
#[derive(Clone, Copy, Debug, PartialEq, Eq, Structural)]
pub enum RequestError {
    /// The stream ended after this many bytes of an unfinished request.
    IncompleteRequest(usize),
    /// The bytes do not form a request.
    MalformedRequest,
    /// The content length header is not a number.
    InvalidContentLength,
    /// The body is not as long as the content length header says.
    ContentLengthMismatch,
    /// The body is longer than the proxy accepts.
    RequestBodyTooLarge,
    /// The client's stream failed.
    ConnectionError,
}

/// An error response that the proxy itself sends to the client.
#[derive(Clone, Copy, Debug, PartialEq, Eq, Structural)]
pub enum ErrorReply {
    BadRequest,
    PayloadTooLarge,
    TooManyRequests,
    BadGateway,
}

/// Why a session ended.
#[derive(Clone, Copy, Debug, PartialEq, Eq, Structural)]
pub enum CloseReason {
    /// The client was over its request allowance.
    RateLimited,
    /// No upstream could be reached.
    AllUpstreamsDown,
    /// The client hung up between requests.
    ClientDisconnected,
    /// Reading from the client failed.
    ClientError,
    /// Writing to or reading from the upstream failed.
    UpstreamError,
}

/// Where a session stands.
#[derive(Clone, Copy, Debug, PartialEq, Eq, Structural)]
pub enum SessionState {
    /// The connection was accepted; nothing is known of the client yet.
    Start,
    /// Waiting for the rate limiter's verdict on the client.
    RateCheck,
    /// Waiting for a connection to an upstream.
    AcquireUpstream,
    /// Serving: waiting for the client's next request.
    AwaitRequest,
    /// Serving: a request went to the upstream, its response is awaited.
    AwaitResponse,
    /// The session is over.
    Closed(CloseReason),
}

/// What the driver observed.
#[derive(Clone, Copy, Debug, PartialEq, Eq, Structural)]
pub enum SessionEvent {
    /// The client's address was read from the socket.
    ClientIdentified,
    /// The rate limiter admitted the client.
    RateAllowed,
    /// The rate limiter turned the client away.
    RateExceeded,
    /// A connection to an upstream is open.
    UpstreamConnected,
    /// Every upstream is down.
    UpstreamsExhausted,
    /// A well-formed request was read from the client.
    RequestRead,
    /// No request could be read from the client.
    RequestFailed(RequestError),
    /// The request could not be written to the upstream.
    ForwardFailed,
    /// The upstream's response was read.
    ResponseRead,
    /// The upstream's response could not be read.
    ResponseFailed,
}

/// What the driver has to do next.
#[derive(Clone, Copy, Debug, PartialEq, Eq, Structural)]
pub enum SessionAction {
    /// Ask the rate limiter whether the client may proceed.
    CheckRateLimit,
    /// Ask the selector for a connection to an upstream.
    ConnectUpstream,
    /// Read the next request from the client.
    ReadRequest,
    /// Send the error to the client, then read its next request.
    ReplyAndRead(ErrorReply),
    /// Extend the forwarding header, send the request to the session's
    /// upstream and read the upstream's response.
    Forward,
    /// Send the upstream's response to the client unchanged, then read the
    /// client's next request.
    RelayAndRead,
    /// Send the error to the client, then drop the connection.
    ReplyAndClose(ErrorReply),
    /// Drop the connection without a word.
    Close,
}

/// One move of the machine: the state it enters and the action it asks for.
#[derive(Clone, Copy, Debug, PartialEq, Eq, Structural)]
pub struct Transition {
    pub next: SessionState,
    pub action: SessionAction,
}

impl ErrorReply {
    /// The HTTP status code of the reply.
    pub open spec fn spec_status_code(self) -> u16 {
        match self {
            ErrorReply::BadRequest => 400,
            ErrorReply::PayloadTooLarge => 413,
            ErrorReply::TooManyRequests => 429,
            ErrorReply::BadGateway => 502,
        }
    }

    /// The HTTP status code of the reply.
    pub fn status_code(self) -> (code: u16)
        ensures
            code == self.spec_status_code(),
    {
        match self {
            ErrorReply::BadRequest => 400,
            ErrorReply::PayloadTooLarge => 413,
            ErrorReply::TooManyRequests => 429,
            ErrorReply::BadGateway => 502,
        }
    }
}

impl RequestError {
    /// The client is gone: it closed the stream before sending a byte of a
    /// new request, or the stream failed.
    pub open spec fn ends_session(self) -> bool {
        self == RequestError::IncompleteRequest(0) || self == RequestError::ConnectionError
    }

    /// The reason recorded when this error ends the session.
    pub open spec fn close_reason(self) -> CloseReason {
        if self == RequestError::ConnectionError {
            CloseReason::ClientError
        } else {
            CloseReason::ClientDisconnected
        }
    }

    /// The reply owed to a client whose request was faulty: too large a
    /// body is answered as such, every other fault as a bad request.
    pub open spec fn spec_reply(self) -> Option<ErrorReply> {
        if self.ends_session() {
            None
        } else if self == RequestError::RequestBodyTooLarge {
            Some(ErrorReply::PayloadTooLarge)
        } else {
            Some(ErrorReply::BadRequest)
        }
    }

    /// The reply owed to the client for this error, or `None` where the
    /// session ends without one.
    pub fn reply(self) -> (r: Option<ErrorReply>)
        ensures
            r == self.spec_reply(),
    {
        match self {
            RequestError::IncompleteRequest(n) => if n == 0 {
                None
            } else {
                Some(ErrorReply::BadRequest)
            },
            RequestError::ConnectionError => None,
            RequestError::RequestBodyTooLarge => Some(ErrorReply::PayloadTooLarge),
            RequestError::MalformedRequest => Some(ErrorReply::BadRequest),
            RequestError::InvalidContentLength => Some(ErrorReply::BadRequest),
            RequestError::ContentLengthMismatch => Some(ErrorReply::BadRequest),
        }
    }
}

impl SessionState {
    /// The session is over.
    pub open spec fn is_closed(self) -> bool {
        self is Closed
    }

    /// The client's request is with the upstream and unanswered.
    pub open spec fn request_outstanding(self) -> bool {
        self == SessionState::AwaitResponse
    }
}

/// The state entered when `event` is observed in `state`, where the state
/// expects the event.
pub open spec fn next_state(state: SessionState, event: SessionEvent) -> SessionState {
    match event {
        SessionEvent::ClientIdentified => SessionState::RateCheck,
        SessionEvent::RateAllowed => SessionState::AcquireUpstream,
        SessionEvent::RateExceeded => SessionState::Closed(CloseReason::RateLimited),
        SessionEvent::UpstreamConnected => SessionState::AwaitRequest,
        SessionEvent::UpstreamsExhausted => SessionState::Closed(CloseReason::AllUpstreamsDown),
        SessionEvent::RequestRead => SessionState::AwaitResponse,
        SessionEvent::RequestFailed(err) => if err.ends_session() {
            SessionState::Closed(err.close_reason())
        } else {
            SessionState::AwaitRequest
        },
        SessionEvent::ForwardFailed => SessionState::Closed(CloseReason::UpstreamError),
        SessionEvent::ResponseRead => SessionState::AwaitRequest,
        SessionEvent::ResponseFailed => SessionState::Closed(CloseReason::UpstreamError),
    }
}

/// The action owed when `event` is observed in a state that expects it.
pub open spec fn action_for(event: SessionEvent) -> SessionAction {
    match event {
        SessionEvent::ClientIdentified => SessionAction::CheckRateLimit,
        SessionEvent::RateAllowed => SessionAction::ConnectUpstream,
        SessionEvent::RateExceeded => SessionAction::ReplyAndClose(ErrorReply::TooManyRequests),
        SessionEvent::UpstreamConnected => SessionAction::ReadRequest,
        SessionEvent::UpstreamsExhausted => SessionAction::ReplyAndClose(ErrorReply::BadGateway),
        SessionEvent::RequestRead => SessionAction::Forward,
        SessionEvent::RequestFailed(err) => match err.spec_reply() {
            Some(reply) => SessionAction::ReplyAndRead(reply),
            None => SessionAction::Close,
        },
        SessionEvent::ForwardFailed => SessionAction::ReplyAndClose(ErrorReply::BadGateway),
        SessionEvent::ResponseRead => SessionAction::RelayAndRead,
        SessionEvent::ResponseFailed => SessionAction::ReplyAndClose(ErrorReply::BadGateway),
    }
}

/// The state in which `event` can be observed.
pub open spec fn expected_in(event: SessionEvent) -> SessionState {
    match event {
        SessionEvent::ClientIdentified => SessionState::Start,
        SessionEvent::RateAllowed | SessionEvent::RateExceeded => SessionState::RateCheck,
        SessionEvent::UpstreamConnected | SessionEvent::UpstreamsExhausted =>
            SessionState::AcquireUpstream,
        SessionEvent::RequestRead | SessionEvent::RequestFailed(_) => SessionState::AwaitRequest,
        SessionEvent::ForwardFailed | SessionEvent::ResponseRead | SessionEvent::ResponseFailed =>
            SessionState::AwaitResponse,
    }
}

/// The move that `event` causes in `state`; `None` where the state does not
/// expect the event.
pub open spec fn spec_step(state: SessionState, event: SessionEvent) -> Option<Transition> {
    if state == expected_in(event) {
        Some(Transition { next: next_state(state, event), action: action_for(event) })
    } else {
        None
    }
}

/// Decides what follows `event` in `state`.
///
/// Returns `None`, and so leaves the session where it is, when the event
/// cannot occur in that state; a closed session expects no event.
pub fn step(state: SessionState, event: SessionEvent) -> (out: Option<Transition>)
    ensures
        out == spec_step(state, event),
{
    match (state, event) {
        (SessionState::Start, SessionEvent::ClientIdentified) => Some(
            Transition { next: SessionState::RateCheck, action: SessionAction::CheckRateLimit },
        ),
        (SessionState::RateCheck, SessionEvent::RateAllowed) => Some(
            Transition {
                next: SessionState::AcquireUpstream,
                action: SessionAction::ConnectUpstream,
            },
        ),
        (SessionState::RateCheck, SessionEvent::RateExceeded) => Some(
            Transition {
                next: SessionState::Closed(CloseReason::RateLimited),
                action: SessionAction::ReplyAndClose(ErrorReply::TooManyRequests),
            },
        ),
        (SessionState::AcquireUpstream, SessionEvent::UpstreamConnected) => Some(
            Transition { next: SessionState::AwaitRequest, action: SessionAction::ReadRequest },
        ),
        (SessionState::AcquireUpstream, SessionEvent::UpstreamsExhausted) => Some(
            Transition {
                next: SessionState::Closed(CloseReason::AllUpstreamsDown),
                action: SessionAction::ReplyAndClose(ErrorReply::BadGateway),
            },
        ),
        (SessionState::AwaitRequest, SessionEvent::RequestRead) => Some(
            Transition { next: SessionState::AwaitResponse, action: SessionAction::Forward },
        ),
        (SessionState::AwaitRequest, SessionEvent::RequestFailed(err)) => match err.reply() {
            Some(reply) => Some(
                Transition {
                    next: SessionState::AwaitRequest,
                    action: SessionAction::ReplyAndRead(reply),
                },
            ),
            None => {
                let reason = match err {
                    RequestError::ConnectionError => CloseReason::ClientError,
                    _ => CloseReason::ClientDisconnected,
                };
                Some(Transition { next: SessionState::Closed(reason), action: SessionAction::Close })
            },
        },
        (SessionState::AwaitResponse, SessionEvent::ResponseRead) => Some(
            Transition { next: SessionState::AwaitRequest, action: SessionAction::RelayAndRead },
        ),
        (SessionState::AwaitResponse, SessionEvent::ForwardFailed) => Some(
            Transition {
                next: SessionState::Closed(CloseReason::UpstreamError),
                action: SessionAction::ReplyAndClose(ErrorReply::BadGateway),
            },
        ),
        (SessionState::AwaitResponse, SessionEvent::ResponseFailed) => Some(
            Transition {
                next: SessionState::Closed(CloseReason::UpstreamError),
                action: SessionAction::ReplyAndClose(ErrorReply::BadGateway),
            },
        ),
        _ => None,
    }
}

/// The state reached and the actions asked for, in order, when the events
/// are observed one after another from `state`.  An event that the state at
/// hand does not expect changes nothing and asks for nothing.
pub open spec fn run(state: SessionState, events: Seq<SessionEvent>) -> (
    SessionState,
    Seq<SessionAction>,
)
    decreases events.len(),
{
    if events.len() == 0 {
        (state, Seq::empty())
    } else {
        let before = run(state, events.drop_last());
        match spec_step(before.0, events.last()) {
            Some(t) => (t.next, before.1.push(t.action)),
            None => before,
        }
    }
}

/// The test for being `action`.
pub open spec fn is_action(action: SessionAction) -> spec_fn(SessionAction) -> bool {
    |a: SessionAction| a == action
}

/// How often `action` occurs among `actions`.
pub open spec fn occurrences(actions: Seq<SessionAction>, action: SessionAction) -> nat {
    actions.filter(is_action(action)).len()
}

/// Nothing occurs among no actions.
pub proof fn lemma_occurrences_empty(action: SessionAction)
    ensures
        occurrences(Seq::empty(), action) == 0,
{
    Seq::<SessionAction>::empty().lemma_filter_len(is_action(action));
}

/// Counting over one more action: the count grows by one exactly when the
/// new action is the one counted.
pub proof fn lemma_occurrences_push(
    actions: Seq<SessionAction>,
    last: SessionAction,
    action: SessionAction,
)
    ensures
        occurrences(actions.push(last), action) == occurrences(actions, action) + (if last
            == action {
            1nat
        } else {
            0nat
        }),
{
    actions.lemma_filter_len_push(is_action(action), last);
}

/// Drives a session from `state` through `events` and reports where it ends
/// and what it asked for on the way.
pub fn replay(state: SessionState, events: &Vec<SessionEvent>) -> (out: (
    SessionState,
    Vec<SessionAction>,
))
    ensures
        (out.0, out.1@) == run(state, events@),
{
    let mut current = state;
    let mut actions: Vec<SessionAction> = Vec::new();
    let mut i: usize = 0;
    while i < events.len()
        invariant
            i <= events.len(),
            (current, actions@) == run(state, events@.take(i as int)),
        decreases events.len() - i,
    {
        proof {
            assert(events@.take(i + 1).drop_last() =~= events@.take(i as int));
        }
        match step(current, events[i]) {
            Some(t) => {
                current = t.next;
                actions.push(t.action);
            },
            None => {},
        }
        i += 1;
    }
    proof {
        assert(events@.take(i as int) =~= events@);
    }
    (current, actions)
}

/// A closed session stays closed and asks for nothing more, whatever is
/// reported to it.
pub proof fn lemma_closed_is_final(state: SessionState, events: Seq<SessionEvent>)
    requires
        state.is_closed(),
    ensures
        run(state, events) == (state, Seq::<SessionAction>::empty()),
    decreases events.len(),
{
    if events.len() > 0 {
        lemma_closed_is_final(state, events.drop_last());
    }
}

/// A faulty request does not cost the client its session: the fault is
/// answered with a bad-request reply (a payload-too-large reply for an
/// oversized body), and the well-formed request that follows is forwarded
/// and its response relayed as usual.
pub proof fn lemma_faulty_request_keeps_session(err: RequestError)
    requires
        !err.ends_session(),
    ensures
        spec_step(SessionState::AwaitRequest, SessionEvent::RequestFailed(err)) matches Some(t)
            && t.next == SessionState::AwaitRequest && t.action == SessionAction::ReplyAndRead(
            if err == RequestError::RequestBodyTooLarge {
                ErrorReply::PayloadTooLarge
            } else {
                ErrorReply::BadRequest
            },
        ),
        run(
            SessionState::AwaitRequest,
            seq![
                SessionEvent::RequestFailed(err),
                SessionEvent::RequestRead,
                SessionEvent::ResponseRead,
            ],
        ) == (
            SessionState::AwaitRequest,
            seq![
                SessionAction::ReplyAndRead(err.spec_reply().unwrap()),
                SessionAction::Forward,
                SessionAction::RelayAndRead,
            ],
        ),
{
    let e1 = SessionEvent::RequestFailed(err);
    let events = seq![e1, SessionEvent::RequestRead, SessionEvent::ResponseRead];
    let two = seq![e1, SessionEvent::RequestRead];
    let one = seq![e1];
    assert(events.drop_last() =~= two);
    assert(two.drop_last() =~= one);
    assert(one.drop_last() =~= Seq::<SessionEvent>::empty());
    let r0 = run(SessionState::AwaitRequest, Seq::<SessionEvent>::empty());
    assert(r0 == (SessionState::AwaitRequest, Seq::<SessionAction>::empty()));
    let r1 = run(SessionState::AwaitRequest, one);
    assert(r1.0 == SessionState::AwaitRequest);
    assert(r1.1 =~= seq![SessionAction::ReplyAndRead(err.spec_reply().unwrap())]);
    let r2 = run(SessionState::AwaitRequest, two);
    assert(r2.0 == SessionState::AwaitResponse);
    assert(r2.1 =~= seq![
        SessionAction::ReplyAndRead(err.spec_reply().unwrap()),
        SessionAction::Forward,
    ]);
    let r3 = run(SessionState::AwaitRequest, events);
    assert(r3.1 =~= seq![
        SessionAction::ReplyAndRead(err.spec_reply().unwrap()),
        SessionAction::Forward,
        SessionAction::RelayAndRead,
    ]);
}

/// Requests are served strictly one after another.  Whatever is reported
/// to a session, no response is relayed that was not asked for, at most
/// one forwarded request is ever without its response, and while the
/// session is open exactly the outstanding request is.  As this holds of
/// every run, it holds after each event of a run: the response to a
/// request reaches the client before the next request is forwarded.
pub proof fn lemma_requests_served_in_order(state: SessionState, events: Seq<SessionEvent>)
    ensures
        ({
            let end = run(state, events).0;
            let actions = run(state, events).1;
            let forwarded = occurrences(actions, SessionAction::Forward) + (
            if state.request_outstanding() {
                1nat
            } else {
                0nat
            });
            let relayed = occurrences(actions, SessionAction::RelayAndRead);
            &&& relayed <= forwarded <= relayed + 1
            &&& end.request_outstanding() ==> forwarded == relayed + 1
            &&& !end.is_closed() && !end.request_outstanding() ==> forwarded == relayed
        }),
    decreases events.len(),
{
    if events.len() == 0 {
        lemma_occurrences_empty(SessionAction::Forward);
        lemma_occurrences_empty(SessionAction::RelayAndRead);
    } else {
        lemma_requests_served_in_order(state, events.drop_last());
        let before = run(state, events.drop_last());
        if let Some(t) = spec_step(before.0, events.last()) {
            lemma_occurrences_push(before.1, t.action, SessionAction::Forward);
            lemma_occurrences_push(before.1, t.action, SessionAction::RelayAndRead);
        }
    }
}

/// A session keeps the upstream it was given: from its start it asks for
/// an upstream connection at most once, and never after the rate limiter
/// turned the client away.
pub proof fn lemma_upstream_chosen_once(state: SessionState, events: Seq<SessionEvent>)
    ensures
        ({
            let end = run(state, events).0;
            let asked = occurrences(run(state, events).1, SessionAction::ConnectUpstream);
            &&& asked <= 1
            &&& (state != SessionState::Start && state != SessionState::RateCheck) ==> asked == 0
            &&& (end == SessionState::Start || end == SessionState::RateCheck) ==> asked == 0
            &&& end == SessionState::Closed(CloseReason::RateLimited) ==> asked == 0
        }),
    decreases events.len(),
{
    if events.len() == 0 {
        lemma_occurrences_empty(SessionAction::ConnectUpstream);
    } else {
        lemma_upstream_chosen_once(state, events.drop_last());
        lemma_stays_in_order(state, events.drop_last());
        let before = run(state, events.drop_last());
        if let Some(t) = spec_step(before.0, events.last()) {
            lemma_occurrences_push(before.1, t.action, SessionAction::ConnectUpstream);
        }
    }
}

/// The stage of a session: each move leaves it where it is or takes it
/// further.
pub open spec fn stage(state: SessionState) -> nat {
    match state {
        SessionState::Start => 0,
        SessionState::RateCheck => 1,
        SessionState::AcquireUpstream => 2,
        SessionState::AwaitRequest => 3,
        SessionState::AwaitResponse => 3,
        SessionState::Closed(_) => 4,
    }
}

/// A session never goes back to an earlier stage.
pub proof fn lemma_stays_in_order(state: SessionState, events: Seq<SessionEvent>)
    ensures
        stage(state) <= stage(run(state, events).0),
    decreases events.len(),
{
    if events.len() > 0 {
        lemma_stays_in_order(state, events.drop_last());
    }
}

} // verus!
