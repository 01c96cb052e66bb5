//! The life of one connection, as a state machine.
//!
//! The machine decides; its driver acts. The driver owns the transport. It
//! performs the action that the machine hands out and reports what came of
//! it as the next event: the bytes a probe saw, the bytes a read took, the
//! response of a handler, the end of a write, or a failure of the transport.

use crate::http_body::HttpBody;
use crate::http_error::HttpError;
use crate::http_request::{
    asks_keep_alive, declared_length, parse_request, HttpRequest, HttpRequestView,
};
use crate::http_response::{
    fresh_response, is_stamp, response_bytes, stamp_of, HttpResponse, HttpResponseView,
};
use crate::text::{
    find_first, first_match, has_match, head_end, is_first_match, lemma_separator_texts,
};
use vstd::prelude::*;
use vstd::string::*;

verus! {

/// How many bytes a probe for the end of a head looks at.
pub const READ_REQUEST_BUFFER_SIZE: usize = 0xff;

/// Where a connection stands.
#[derive(Debug)]
pub enum ConnectionState {
    /// Between two exchanges: waiting for the transport to become readable.
    AwaitingRequest,
    /// Reading a head: `head` holds what was taken so far, and a probe is
    /// under way.
    ReadingHead { head: Vec<u8> },
    /// Reading a head: the bytes that the last probe saw are being taken
    /// from the stream. `complete` says that they hold the end of the head.
    ConsumingHead { head: Vec<u8>, complete: bool },
    /// Reading the body that `request` declares: `body` holds what was
    /// taken so far, `remaining` bytes are still to come.
    ReadingBody { request: HttpRequest, body: Vec<u8>, remaining: usize },
    /// The request is with its handler.
    Dispatching { keep_alive: bool },
    /// The response is being written.
    Writing { keep_alive: bool },
    /// The connection is over.
    Closed,
}

/// What the driver reports.
#[derive(Debug)]
pub enum ConnectionEvent {
    /// The wait for the transport ended; the flag says whether there is
    /// anything to read.
    Readable(bool),
    /// A probe saw these bytes at the front of the stream and left them
    /// there. No bytes: the peer has closed the stream.
    Peeked(Vec<u8>),
    /// The bytes that were to be taken from the stream have been taken.
    Consumed,
    /// A read took these bytes from the stream. No bytes: the peer has
    /// closed the stream.
    Received(Vec<u8>),
    /// The handler, or the router in its place, answered with this response.
    Responded(HttpResponse),
    /// The bytes that were to be written have been written.
    Written,
    /// The transport failed.
    Failed(std::io::Error),
}

/// What the driver is to do next.
#[derive(Debug)]
pub enum ConnectionAction {
    /// Wait until the transport is readable.
    AwaitReadable,
    /// Look at up to this many bytes at the front of the stream without
    /// taking them.
    Peek(usize),
    /// Take exactly this many bytes from the stream and drop them: the
    /// machine has them from the probe.
    Consume(usize),
    /// Read up to this many bytes from the stream.
    Read(usize),
    /// Hand the request to the router.
    Dispatch(HttpRequest),
    /// Write these bytes to the stream.
    Write(Vec<u8>),
    /// Shut the transport down.
    Shutdown,
    /// Nothing: the connection is over.
    Stop,
}

/// A state as mathematical values.
pub ghost enum StateView {
    AwaitingRequest,
    ReadingHead { head: Seq<u8> },
    ConsumingHead { head: Seq<u8>, complete: bool },
    ReadingBody { request: HttpRequestView, body: Seq<u8>, remaining: nat },
    Dispatching { keep_alive: bool },
    Writing { keep_alive: bool },
    Closed,
}

/// An event as mathematical values. Of a failure only the fact is kept.
pub ghost enum EventView {
    Readable(bool),
    Peeked(Seq<u8>),
    Consumed,
    Received(Seq<u8>),
    Responded(HttpResponseView),
    Written,
    Failed,
}

/// An action as mathematical values.
pub ghost enum ActionView {
    AwaitReadable,
    Peek(nat),
    Consume(nat),
    Read(nat),
    Dispatch(HttpRequestView),
    Write(Seq<u8>),
    Shutdown,
    Stop,
}

impl View for ConnectionState {
    type V = StateView;

    open spec fn view(&self) -> StateView {
        match self {
            ConnectionState::AwaitingRequest => StateView::AwaitingRequest,
            ConnectionState::ReadingHead { head } => StateView::ReadingHead { head: head@ },
            ConnectionState::ConsumingHead { head, complete } => StateView::ConsumingHead {
                head: head@,
                complete: *complete,
            },
            ConnectionState::ReadingBody { request, body, remaining } => StateView::ReadingBody {
                request: request@,
                body: body@,
                remaining: *remaining as nat,
            },
            ConnectionState::Dispatching { keep_alive } => StateView::Dispatching {
                keep_alive: *keep_alive,
            },
            ConnectionState::Writing { keep_alive } => StateView::Writing {
                keep_alive: *keep_alive,
            },
            ConnectionState::Closed => StateView::Closed,
        }
    }
}

impl View for ConnectionEvent {
    type V = EventView;

    open spec fn view(&self) -> EventView {
        match self {
            ConnectionEvent::Readable(ready) => EventView::Readable(*ready),
            ConnectionEvent::Peeked(bytes) => EventView::Peeked(bytes@),
            ConnectionEvent::Consumed => EventView::Consumed,
            ConnectionEvent::Received(bytes) => EventView::Received(bytes@),
            ConnectionEvent::Responded(response) => EventView::Responded(response@),
            ConnectionEvent::Written => EventView::Written,
            ConnectionEvent::Failed(_) => EventView::Failed,
        }
    }
}

impl View for ConnectionAction {
    type V = ActionView;

    open spec fn view(&self) -> ActionView {
        match self {
            ConnectionAction::AwaitReadable => ActionView::AwaitReadable,
            ConnectionAction::Peek(n) => ActionView::Peek(*n as nat),
            ConnectionAction::Consume(n) => ActionView::Consume(*n as nat),
            ConnectionAction::Read(n) => ActionView::Read(*n as nat),
            ConnectionAction::Dispatch(request) => ActionView::Dispatch(request@),
            ConnectionAction::Write(bytes) => ActionView::Write(bytes@),
            ConnectionAction::Shutdown => ActionView::Shutdown,
            ConnectionAction::Stop => ActionView::Stop,
        }
    }
}

/// The end of the connection: the transport is shut down.
pub open spec fn close() -> (StateView, ActionView) {
    (StateView::Closed, ActionView::Shutdown)
}

/// A probe for more of the head.
pub open spec fn probe(head: Seq<u8>) -> (StateView, ActionView) {
    (StateView::ReadingHead { head }, ActionView::Peek(READ_REQUEST_BUFFER_SIZE as nat))
}

/// The answer to a failure: a response of the status that goes with the
/// failure, stamped with `date` where there is one, after which the
/// connection ends.
pub open spec fn refuse(status: u16, date: Option<Seq<char>>) -> (StateView, ActionView) {
    (
        StateView::Writing { keep_alive: false },
        ActionView::Write(response_bytes(fresh_response(status, None, date))),
    )
}

/// The request goes to the router, with the body it came with.
pub open spec fn dispatch(request: HttpRequestView, body: Option<Seq<u8>>) -> (
    StateView,
    ActionView,
) {
    (
        StateView::Dispatching { keep_alive: asks_keep_alive(request.headers) },
        ActionView::Dispatch(HttpRequestView { body, ..request }),
    )
}

/// What follows a probe that saw `chunk` while `head` had been taken: where
/// the chunk holds the end of a head, the bytes before it join the head and
/// the stream is relieved of them and of the four bytes of the end; where it
/// does not, the whole chunk joins the head and leaves the stream. A probe
/// that saw nothing ends the connection.
pub open spec fn after_probe(head: Seq<u8>, chunk: Seq<u8>) -> (StateView, ActionView) {
    if chunk.len() == 0 {
        close()
    } else if has_match(chunk, head_end()) {
        let at = first_match(chunk, head_end());
        (
            StateView::ConsumingHead { head: head + chunk.subrange(0, at), complete: true },
            ActionView::Consume((at + 4) as nat),
        )
    } else {
        (
            StateView::ConsumingHead { head: head + chunk, complete: false },
            ActionView::Consume(chunk.len()),
        )
    }
}

/// What follows a complete head: a head that is no request is answered
/// with status 400; a request that declares a body has it read; any other
/// request goes to the router.
pub open spec fn after_head(head: Seq<u8>, date: Option<Seq<char>>) -> (StateView, ActionView) {
    match parse_request(head) {
        Err(_) => refuse(400, date),
        Ok(request) => match declared_length(request.headers) {
            None => dispatch(request, None),
            Some(length) => if length == 0 {
                dispatch(request, Some(seq![]))
            } else {
                (
                    StateView::ReadingBody { request, body: seq![], remaining: length },
                    ActionView::Read(length),
                )
            },
        },
    }
}

/// What follows a read of `chunk` while `remaining` bytes of the body were
/// still to come: the chunk, or as much of it as was still to come, joins
/// the body; a body that is whole goes to the router with its request. A
/// read that took nothing ends the connection.
pub open spec fn after_read(
    request: HttpRequestView,
    body: Seq<u8>,
    remaining: nat,
    chunk: Seq<u8>,
) -> (StateView, ActionView) {
    if chunk.len() == 0 {
        close()
    } else if chunk.len() >= remaining {
        dispatch(request, Some(body + chunk.subrange(0, remaining as int)))
    } else {
        (
            StateView::ReadingBody {
                request,
                body: body + chunk,
                remaining: (remaining - chunk.len()) as nat,
            },
            ActionView::Read((remaining - chunk.len()) as nat),
        )
    }
}

/// The machine's one rule: the state and the action that follow `event` in
/// `state`. `date` is the date that a response of the machine's own is
/// stamped with; there is none where the time is not known.
///
/// A failure of the transport while a body is read is answered with status
/// 500. Any other failure ends the connection without a word to the peer,
/// and so does an event that the state does not wait for.
pub open spec fn next(state: StateView, event: EventView, date: Option<Seq<char>>) -> (
    StateView,
    ActionView,
) {
    match (state, event) {
        (StateView::Closed, _) => (StateView::Closed, ActionView::Stop),
        (StateView::AwaitingRequest, EventView::Readable(ready)) => if ready {
            probe(seq![])
        } else {
            close()
        },
        (StateView::ReadingHead { head }, EventView::Peeked(chunk)) => after_probe(head, chunk),
        (StateView::ConsumingHead { head, complete }, EventView::Consumed) => if complete {
            after_head(head, date)
        } else {
            probe(head)
        },
        (StateView::ReadingBody { request, body, remaining }, EventView::Received(chunk)) => {
            after_read(request, body, remaining, chunk)
        },
        (StateView::Dispatching { keep_alive }, EventView::Responded(response)) => (
            StateView::Writing { keep_alive },
            ActionView::Write(response_bytes(response)),
        ),
        (StateView::Writing { keep_alive }, EventView::Written) => if keep_alive {
            (StateView::AwaitingRequest, ActionView::AwaitReadable)
        } else {
            close()
        },
        (StateView::ReadingBody { .. }, EventView::Failed) => refuse(500, date),
        _ => close(),
    }
}

/// Finds the end of a head in `buffer`: the offset of the first carriage
/// return, line feed, carriage return, line feed.
pub fn find_eof(buffer: &[u8]) -> (r: Option<usize>)
    ensures
        r is Some <==> has_match(buffer@, head_end()),
        r matches Some(at) ==> at as int == first_match(buffer@, head_end()) && is_first_match(
            buffer@,
            head_end(),
            at as int,
        ),
{
    proof {
        lemma_separator_texts();
    }
    find_first(buffer, "\r\n\r\n".as_bytes())
}

/// Sends `request` to the router, with `body` attached where there is one.
fn dispatch_request(request: HttpRequest, body: Option<Vec<u8>>) -> (r: (
    ConnectionState,
    ConnectionAction,
))
    ensures
        (r.0@, r.1@) == dispatch(
            request@,
            match body {
                Some(bytes) => Some(bytes@),
                None => request@.body,
            },
        ),
{
    let mut request = request;
    let keep_alive = request.keep_alive();
    match body {
        Some(bytes) => {
            request.set_body(HttpBody::new(bytes));
        },
        None => {},
    }
    (ConnectionState::Dispatching { keep_alive }, ConnectionAction::Dispatch(request))
}

/// Answers a failure: the response that goes with `error` is written, and
/// the connection ends after it.
pub fn handle_error(error: HttpError) -> (r: (ConnectionState, ConnectionAction))
    ensures
        exists|date: Option<Seq<char>>|
            is_stamp(date) && (r.0@, r.1@) == #[trigger] refuse(error.status(), date),
{
    let response = error.as_response();
    let bytes = response.as_bytes();
    assert((StateView::Writing { keep_alive: false }, ActionView::Write(bytes@)) == refuse(
        error.status(),
        stamp_of(response@.headers),
    ));
    (ConnectionState::Writing { keep_alive: false }, ConnectionAction::Write(bytes))
}

/// Decides what follows a probe that saw `chunk` while `head` had been
/// taken: see [`after_probe`].
pub fn read_request(head: Vec<u8>, chunk: Vec<u8>) -> (r: (ConnectionState, ConnectionAction))
    ensures
        (r.0@, r.1@) == after_probe(head@, chunk@),
{
    let mut head = head;
    let mut chunk = chunk;
    if chunk.len() == 0 {
        return (ConnectionState::Closed, ConnectionAction::Shutdown);
    }
    match find_eof(chunk.as_slice()) {
        Some(at) => {
            chunk.truncate(at);
            head.append(&mut chunk);
            (
                ConnectionState::ConsumingHead { head, complete: true },
                ConnectionAction::Consume(at + 4),
            )
        },
        None => {
            let seen = chunk.len();
            head.append(&mut chunk);
            (
                ConnectionState::ConsumingHead { head, complete: false },
                ConnectionAction::Consume(seen),
            )
        },
    }
}

/// Decides what follows a complete head: see [`after_head`].
pub fn handle_request(head: Vec<u8>) -> (r: (ConnectionState, ConnectionAction))
    ensures
        exists|date: Option<Seq<char>>|
            is_stamp(date) && (r.0@, r.1@) == #[trigger] after_head(head@, date),
{
    match HttpRequest::new(head) {
        Err(error) => {
            let r = handle_error(error);
            proof {
                let date = choose|date: Option<Seq<char>>|
                    is_stamp(date) && (r.0@, r.1@) == #[trigger] refuse(
                        error.status(),
                        date,
                    );
                assert((r.0@, r.1@) == after_head(head@, date));
            }
            r
        },
        Ok(request) => {
            let r = match request.get_content_length() {
                None => dispatch_request(request, None),
                Some(length) => if length == 0 {
                    dispatch_request(request, Some(Vec::new()))
                } else {
                    (
                        ConnectionState::ReadingBody {
                            request,
                            body: Vec::new(),
                            remaining: length,
                        },
                        ConnectionAction::Read(length),
                    )
                },
            };
            proof {
                let date = None::<Seq<char>>;
                assert(is_stamp(date));
                assert((r.0@, r.1@) == after_head(head@, date));
            }
            r
        },
    }
}

/// Decides what follows a read of `chunk` for the body of `request`: see
/// [`after_read`].
pub fn read_body(request: HttpRequest, body: Vec<u8>, remaining: usize, chunk: Vec<u8>) -> (r: (
    ConnectionState,
    ConnectionAction,
))
    ensures
        (r.0@, r.1@) == after_read(request@, body@, remaining as nat, chunk@),
{
    let mut body = body;
    let mut chunk = chunk;
    if chunk.len() == 0 {
        (ConnectionState::Closed, ConnectionAction::Shutdown)
    } else if chunk.len() >= remaining {
        chunk.truncate(remaining);
        body.append(&mut chunk);
        dispatch_request(request, Some(body))
    } else {
        let left = remaining - chunk.len();
        body.append(&mut chunk);
        (
            ConnectionState::ReadingBody { request, body, remaining: left },
            ConnectionAction::Read(left),
        )
    }
}

impl ConnectionState {
    /// A connection that has just been accepted, and the first thing to do
    /// for it: wait for the peer to send.
    pub fn start() -> (r: (ConnectionState, ConnectionAction))
        ensures
            r.0@ == StateView::AwaitingRequest,
            r.1@ == ActionView::AwaitReadable,
    {
        (ConnectionState::AwaitingRequest, ConnectionAction::AwaitReadable)
    }

    /// Whether the connection is over.
    pub fn is_closed(&self) -> (r: bool)
        ensures
            r == (self@ is Closed),
    {
        match self {
            ConnectionState::Closed => true,
            _ => false,
        }
    }

    /// Takes the connection one step on: the state and the action that
    /// follow `event`, as [`next`] gives them for the time at which the
    /// step is made.
    pub fn step(self, event: ConnectionEvent) -> (r: (ConnectionState, ConnectionAction))
        ensures
            exists|date: Option<Seq<char>>|
                is_stamp(date) && (r.0@, r.1@) == #[trigger] next(self@, event@, date),
    {
        let ghost none = None::<Seq<char>>;
        assert(is_stamp(none));
        match (self, event) {
            (ConnectionState::Closed, _) => {
                let r = (ConnectionState::Closed, ConnectionAction::Stop);
                assert((r.0@, r.1@) == next(self@, event@, none));
                r
            },
            (ConnectionState::AwaitingRequest, ConnectionEvent::Readable(ready)) => {
                let r = if ready {
                    (
                        ConnectionState::ReadingHead { head: Vec::new() },
                        ConnectionAction::Peek(READ_REQUEST_BUFFER_SIZE),
                    )
                } else {
                    (ConnectionState::Closed, ConnectionAction::Shutdown)
                };
                assert((r.0@, r.1@) == next(self@, event@, none));
                r
            },
            (ConnectionState::ReadingHead { head }, ConnectionEvent::Peeked(chunk)) => {
                let r = read_request(head, chunk);
                assert((r.0@, r.1@) == next(self@, event@, none));
                r
            },
            (ConnectionState::ConsumingHead { head, complete }, ConnectionEvent::Consumed) => {
                if complete {
                    let r = handle_request(head);
                    proof {
                        let date = choose|date: Option<Seq<char>>|
                            is_stamp(date) && (r.0@, r.1@) == #[trigger] after_head(
                                head@,
                                date,
                            );
                        assert((r.0@, r.1@) == next(self@, event@, date));
                    }
                    r
                } else {
                    let r = (
                        ConnectionState::ReadingHead { head },
                        ConnectionAction::Peek(READ_REQUEST_BUFFER_SIZE),
                    );
                    assert((r.0@, r.1@) == next(self@, event@, none));
                    r
                }
            },
            (
                ConnectionState::ReadingBody { request, body, remaining },
                ConnectionEvent::Received(chunk),
            ) => {
                let r = read_body(request, body, remaining, chunk);
                assert((r.0@, r.1@) == next(self@, event@, none));
                r
            },
            (ConnectionState::Dispatching { keep_alive }, ConnectionEvent::Responded(response)) => {
                let r = (
                    ConnectionState::Writing { keep_alive },
                    ConnectionAction::Write(response.as_bytes()),
                );
                assert((r.0@, r.1@) == next(self@, event@, none));
                r
            },
            (ConnectionState::Writing { keep_alive }, ConnectionEvent::Written) => {
                let r = if keep_alive {
                    (ConnectionState::AwaitingRequest, ConnectionAction::AwaitReadable)
                } else {
                    (ConnectionState::Closed, ConnectionAction::Shutdown)
                };
                assert((r.0@, r.1@) == next(self@, event@, none));
                r
            },
            (ConnectionState::ReadingBody { .. }, ConnectionEvent::Failed(error)) => {
                let failure = HttpError::IoError(error);
                let r = handle_error(failure);
                proof {
                    let date = choose|date: Option<Seq<char>>|
                        is_stamp(date) && (r.0@, r.1@) == #[trigger] refuse(
                            failure.status(),
                            date,
                        );
                    assert((r.0@, r.1@) == next(self@, event@, date));
                }
                r
            },
            _ => {
                let r = (ConnectionState::Closed, ConnectionAction::Shutdown);
                assert((r.0@, r.1@) == next(self@, event@, none));
                r
            },
        }
    }
}

/// Where a connection stands, and what its driver was last told to do,
/// after `events` have followed `start` one by one.
pub open spec fn run(
    start: (StateView, ActionView),
    events: Seq<EventView>,
    date: Option<Seq<char>>,
) -> (StateView, ActionView)
    decreases events.len(),
{
    if events.len() == 0 {
        start
    } else {
        run(next(start.0, events[0], date), events.drop_first(), date)
    }
}

/// The events of reads that took `chunks`, one read per chunk.
pub open spec fn reads(chunks: Seq<Seq<u8>>) -> Seq<EventView> {
    Seq::new(chunks.len(), |i: int| EventView::Received(chunks[i]))
}

/// No chunk is empty.
pub open spec fn no_empty_chunk(chunks: Seq<Seq<u8>>) -> bool {
    forall|i: int| 0 <= i < chunks.len() ==> (#[trigger] chunks[i]).len() > 0
}

/// A body comes out as it went in, however the transport cuts it up: when
/// the reads deliver chunks that are not empty and that together have as
/// many bytes as are still to come, the request goes to the router with a
/// body that holds what was there before and then the chunks, in order.
pub proof fn lemma_body_is_reassembled(
    request: HttpRequestView,
    body: Seq<u8>,
    chunks: Seq<Seq<u8>>,
    action: ActionView,
    date: Option<Seq<char>>,
)
    requires
        chunks.len() > 0,
        no_empty_chunk(chunks),
    ensures
        run(
            (
                StateView::ReadingBody {
                    request,
                    body,
                    remaining: chunks.flatten().len(),
                },
                action,
            ),
            reads(chunks),
            date,
        ) == dispatch(request, Some(body + chunks.flatten())),
    decreases chunks.len(),
{
    let first = chunks[0];
    let rest = chunks.drop_first();
    let start = StateView::ReadingBody { request, body, remaining: chunks.flatten().len() };
    assert(reads(chunks)[0] == EventView::Received(first));
    assert(reads(chunks).drop_first() =~= reads(rest));
    assert(chunks.flatten() == first + rest.flatten());
    if rest.len() == 0 {
        assert(rest.flatten() =~= Seq::<u8>::empty());
        assert(first.subrange(0, first.len() as int) =~= first);
        assert(body + first =~= body + chunks.flatten());
        assert(run(next(start, reads(chunks)[0], date), reads(rest), date) == next(
            start,
            reads(chunks)[0],
            date,
        ));
    } else {
        assert(rest[0].len() > 0);
        assert(rest.flatten() == rest[0] + rest.drop_first().flatten());
        assert forall|i: int| 0 <= i < rest.len() implies (#[trigger] rest[i]).len() > 0 by {
            assert(rest[i] == chunks[i + 1]);
        }
        lemma_body_is_reassembled(
            request,
            body + first,
            rest,
            ActionView::Read(rest.flatten().len()),
            date,
        );
        assert((body + first) + rest.flatten() =~= body + chunks.flatten());
    }
}

/// A declared body of any length is read in full before the request is
/// dispatched: after a complete head that declares `body.len()` bytes, reads
/// that deliver `body` in chunks of any sizes, none of them empty, end with
/// the request on its way to the router, `body` attached.
pub proof fn lemma_declared_body_is_read(
    head: Seq<u8>,
    body: Seq<u8>,
    chunks: Seq<Seq<u8>>,
    action: ActionView,
    date: Option<Seq<char>>,
)
    requires
        parse_request(head) is Ok,
        declared_length(parse_request(head)->Ok_0.headers) == Some(body.len()),
        chunks.flatten() == body,
        no_empty_chunk(chunks),
    ensures
        run(
            (StateView::ConsumingHead { head, complete: true }, action),
            seq![EventView::Consumed] + reads(chunks),
            date,
        ) == dispatch(parse_request(head)->Ok_0, Some(body)),
{
    let request = parse_request(head)->Ok_0;
    let events = seq![EventView::Consumed] + reads(chunks);
    let start = (StateView::ConsumingHead { head, complete: true }, action);
    assert(events[0] == EventView::Consumed);
    assert(events.drop_first() =~= reads(chunks));
    assert(run(start, events, date) == run(after_head(head, date), reads(chunks), date));
    if chunks.len() == 0 {
        assert(body =~= Seq::<u8>::empty());
    } else {
        assert(chunks.flatten() == chunks[0] + chunks.drop_first().flatten());
        assert(chunks[0].len() > 0);
        lemma_body_is_reassembled(request, seq![], chunks, ActionView::Read(body.len()), date);
        assert(Seq::<u8>::empty() + chunks.flatten() =~= body);
    }
}

/// The request's `Connection` header decides what follows its response:
/// once the handler has answered and the answer is written, a connection
/// that was asked to be kept alive waits for the next request, and any
/// other connection is shut down. In between, the bytes handed out for
/// writing are those of the handler's response.
pub proof fn lemma_keep_alive_decides(
    keep_alive: bool,
    response: HttpResponseView,
    action: ActionView,
    date: Option<Seq<char>>,
)
    ensures
        next(StateView::Dispatching { keep_alive }, EventView::Responded(response), date) == (
            StateView::Writing { keep_alive },
            ActionView::Write(response_bytes(response)),
        ),
        run(
            (StateView::Dispatching { keep_alive }, action),
            seq![EventView::Responded(response), EventView::Written],
            date,
        ) == if keep_alive {
            (StateView::AwaitingRequest, ActionView::AwaitReadable)
        } else {
            close()
        },
{
    let events = seq![EventView::Responded(response), EventView::Written];
    let second = events.drop_first();
    assert(second[0] == EventView::Written);
    assert(second.drop_first() =~= Seq::<EventView>::empty());
    reveal_with_fuel(run, 3);
}

/// A connection that is kept alive serves the next request like the
/// first: after a response to a request that asked for keep-alive is
/// written, a probe that sees a second head, complete and without a declared
/// body, leads to the second request's dispatch and to the writing of its
/// response, and the connection is not closed in between.
pub proof fn lemma_second_exchange(
    first: ActionView,
    first_response: HttpResponseView,
    chunk: Seq<u8>,
    second_response: HttpResponseView,
    date: Option<Seq<char>>,
)
    requires
        has_match(chunk, head_end()),
        parse_request(chunk.subrange(0, first_match(chunk, head_end()))) is Ok,
        declared_length(
            parse_request(chunk.subrange(0, first_match(chunk, head_end())))->Ok_0.headers,
        ) is None,
    ensures
        ({
            let request = parse_request(chunk.subrange(0, first_match(chunk, head_end())))->Ok_0;
            let start = (StateView::Dispatching { keep_alive: true }, first);
            let until_dispatch = seq![
                EventView::Responded(first_response),
                EventView::Written,
                EventView::Readable(true),
                EventView::Peeked(chunk),
                EventView::Consumed,
            ];
            &&& run(start, until_dispatch, date) == dispatch(request, None)
            &&& run(start, until_dispatch.push(EventView::Responded(second_response)), date) == (
                StateView::Writing { keep_alive: asks_keep_alive(request.headers) },
                ActionView::Write(response_bytes(second_response)),
            )
        }),
{
    let at = first_match(chunk, head_end());
    crate::text::lemma_first_match_exists(chunk, head_end());
    let head = chunk.subrange(0, at);
    let request = parse_request(head)->Ok_0;
    let start = (StateView::Dispatching { keep_alive: true }, first);
    let e0 = seq![
        EventView::Responded(first_response),
        EventView::Written,
        EventView::Readable(true),
        EventView::Peeked(chunk),
        EventView::Consumed,
    ];
    let e1 = e0.drop_first();
    let e2 = e1.drop_first();
    let e3 = e2.drop_first();
    let e4 = e3.drop_first();
    assert(e4.drop_first() =~= Seq::<EventView>::empty());
    let s1 = next(start.0, e0[0], date);
    let s2 = next(s1.0, e1[0], date);
    let s3 = next(s2.0, e2[0], date);
    let s4 = next(s3.0, e3[0], date);
    let s5 = next(s4.0, e4[0], date);
    assert(s2.0 == StateView::AwaitingRequest);
    assert(s3.0 == StateView::ReadingHead { head: seq![] });
    assert(Seq::<u8>::empty() + head =~= head);
    assert(s4.0 == StateView::ConsumingHead { head, complete: true });
    assert(s5 == dispatch(request, None));
    assert(run(s5, e4.drop_first(), date) == s5);
    assert(run(s4, e4, date) == s5);
    assert(run(s3, e3, date) == s5);
    assert(run(s2, e2, date) == s5);
    assert(run(s1, e1, date) == s5);
    assert(run(start, e0, date) == s5);

    let f0 = e0.push(EventView::Responded(second_response));
    let f1 = f0.drop_first();
    let f2 = f1.drop_first();
    let f3 = f2.drop_first();
    let f4 = f3.drop_first();
    let f5 = f4.drop_first();
    assert(f5.drop_first() =~= Seq::<EventView>::empty());
    let s6 = next(s5.0, f5[0], date);
    assert(run(s6, f5.drop_first(), date) == s6);
    assert(run(s5, f5, date) == s6);
    assert(run(s4, f4, date) == s6);
    assert(run(s3, f3, date) == s6);
    assert(run(s2, f2, date) == s6);
    assert(run(s1, f1, date) == s6);
    assert(run(start, f0, date) == s6);
}

/// Nothing happens on a closed connection: whatever is reported, it stays
/// closed and its driver is told to stop.
pub proof fn lemma_closed_stays_closed(
    action: ActionView,
    events: Seq<EventView>,
    date: Option<Seq<char>>,
)
    requires
        events.len() > 0,
    ensures
        run((StateView::Closed, action), events, date) == (StateView::Closed, ActionView::Stop),
    decreases events.len(),
{
    let rest = events.drop_first();
    let stopped = (StateView::Closed, ActionView::Stop);
    assert(next(StateView::Closed, events[0], date) == stopped);
    if rest.len() > 0 {
        lemma_closed_stays_closed(ActionView::Stop, rest, date);
    } else {
        assert(run(stopped, rest, date) == stopped);
    }
}

/// A head that is no request is refused and the connection ends: once such
/// a head has been taken from the stream, a response of status 400 without
/// body is handed out for writing, no request is dispatched, and after the
/// write the transport is shut down.
pub proof fn lemma_malformed_head_is_refused(
    head: Seq<u8>,
    action: ActionView,
    date: Option<Seq<char>>,
)
    requires
        parse_request(head) is Err,
    ensures
        next(StateView::ConsumingHead { head, complete: true }, EventView::Consumed, date)
            == refuse(400, date),
        run(
            (StateView::ConsumingHead { head, complete: true }, action),
            seq![EventView::Consumed, EventView::Written],
            date,
        ) == close(),
{
    let events = seq![EventView::Consumed, EventView::Written];
    let second = events.drop_first();
    assert(second[0] == EventView::Written);
    assert(second.drop_first() =~= Seq::<EventView>::empty());
    reveal_with_fuel(run, 3);
}

} // verus!
