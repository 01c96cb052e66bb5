use hyperion::http_router::Dispatch;
use hyperion::http_server::{
    find_eof, handle_error, handle_request, read_body, read_request, ConnectionAction,
    ConnectionEvent, ConnectionState, READ_REQUEST_BUFFER_SIZE,
};
use hyperion::{HttpBody, HttpError, HttpHeader, HttpRequest, HttpResponse, HttpRouter};

type Handler = fn(HttpRequest) -> HttpResponse;

/// What a run of the machine over a scripted stream did.
struct Outcome {
    written: Vec<Vec<u8>>,
    dispatched: Vec<HttpRequest>,
    shutdowns: usize,
    closed: bool,
    left_in_stream: usize,
}

/// Drives the machine over `input` as a transport would: probes see up to the
/// asked number of bytes, reads deliver at most `read_size` bytes at a time.
fn serve(input: &[u8], read_size: usize, router: &HttpRouter<Handler>) -> Outcome {
    let mut at = 0usize;
    let mut outcome = Outcome {
        written: Vec::new(),
        dispatched: Vec::new(),
        shutdowns: 0,
        closed: false,
        left_in_stream: 0,
    };
    let (mut state, mut action) = ConnectionState::start();
    for _ in 0..10_000 {
        let event = match action {
            ConnectionAction::AwaitReadable => ConnectionEvent::Readable(at < input.len()),
            ConnectionAction::Peek(n) => {
                let to = input.len().min(at + n);
                ConnectionEvent::Peeked(input[at..to].to_vec())
            }
            ConnectionAction::Consume(n) => {
                assert!(at + n <= input.len(), "asked to take more than the stream holds");
                at += n;
                ConnectionEvent::Consumed
            }
            ConnectionAction::Read(n) => {
                let to = input.len().min(at + n.min(read_size));
                let chunk = input[at..to].to_vec();
                at = to;
                ConnectionEvent::Received(chunk)
            }
            ConnectionAction::Dispatch(request) => {
                outcome.dispatched.push(request.clone());
                let response = match router.process_request(request) {
                    Dispatch::Handler(handler, request) => handler(request),
                    Dispatch::NotFound(response) => response,
                };
                ConnectionEvent::Responded(response)
            }
            ConnectionAction::Write(bytes) => {
                outcome.written.push(bytes);
                ConnectionEvent::Written
            }
            ConnectionAction::Shutdown => {
                outcome.shutdowns += 1;
                break;
            }
            ConnectionAction::Stop => break,
        };
        let (next, then) = state.step(event);
        state = next;
        action = then;
    }
    outcome.closed = state.is_closed();
    outcome.left_in_stream = input.len() - at;
    outcome
}

fn ok_handler(_request: HttpRequest) -> HttpResponse {
    HttpResponse::new(200, None)
}

fn echo_handler(request: HttpRequest) -> HttpResponse {
    let body = request.body().map(|body| HttpBody::new(body.as_bytes()));
    let mut response = HttpResponse::new(200, body);
    response.add_header(HttpHeader::new("X-Path".to_string(), request.path().to_string()));
    response
}

fn router() -> HttpRouter<Handler> {
    let mut router: HttpRouter<Handler> = HttpRouter::new();
    router.add_handler("/hello", ok_handler);
    router.add_handler("/echo", echo_handler);
    router
}

fn text(bytes: &[u8]) -> String {
    String::from_utf8(bytes.to_vec()).unwrap()
}

fn step(state: ConnectionState, event: ConnectionEvent) -> (ConnectionState, ConnectionAction) {
    state.step(event)
}

fn failure() -> ConnectionEvent {
    ConnectionEvent::Failed(std::io::Error::new(std::io::ErrorKind::ConnectionReset, "reset"))
}

fn request(head: &str) -> HttpRequest {
    HttpRequest::new(head.as_bytes().to_vec()).unwrap()
}

#[test]
fn find_eof_gives_the_first_empty_line() {
    assert_eq!(find_eof(b"GET / HTTP/1.1\r\nHost: x\r\n\r\n"), Some(23));
    assert_eq!(find_eof(b"\r\n\r\n"), Some(0));
    assert_eq!(find_eof(b"a\r\n\r\nb\r\n\r\n"), Some(1));
    assert_eq!(find_eof(b"a\r\n\r\n\r\n"), Some(1));
    assert_eq!(find_eof(b"GET / HTTP/1.1\r\nHost: x\r\n"), None);
    assert_eq!(find_eof(b"\r\n\r"), None);
    assert_eq!(find_eof(b"\n\r\n\r"), None);
    assert_eq!(find_eof(b"\r\n \r\n"), None);
    assert_eq!(find_eof(b""), None);
}

#[test]
fn the_look_ahead_window_is_255_bytes() {
    assert_eq!(READ_REQUEST_BUFFER_SIZE, 255);
}

#[test]
fn a_request_for_a_registered_path_is_answered_by_its_handler() {
    let outcome = serve(b"GET /hello HTTP/1.1\r\nHost: x\r\n\r\n", 64, &router());
    assert_eq!(outcome.written.len(), 1);
    let response = text(&outcome.written[0]);
    assert!(response.starts_with("HTTP/1.1 200 OK\r\n"), "{}", response);
    assert!(response.contains("\r\nContent-Length: 0\r\n"), "{}", response);
    assert!(response.ends_with("\r\n\r\n"), "{}", response);
    assert_eq!(response.matches("\r\n\r\n").count(), 1);
    assert_eq!(outcome.dispatched.len(), 1);
    assert_eq!(outcome.dispatched[0].path(), "/hello");
    assert_eq!(outcome.dispatched[0].get_header("Host").unwrap().value, "x");
    assert!(outcome.closed);
    assert_eq!(outcome.shutdowns, 1);
    assert_eq!(outcome.left_in_stream, 0);
}

#[test]
fn a_request_for_an_unregistered_path_is_answered_with_404() {
    let outcome = serve(b"GET /missing HTTP/1.1\r\n\r\n", 64, &router());
    assert_eq!(outcome.written.len(), 1);
    let response = text(&outcome.written[0]);
    assert!(response.starts_with("HTTP/1.1 404 Not Found\r\n"), "{}", response);
    assert!(response.ends_with("Content-Length: 0\r\n\r\n"), "{}", response);
    assert!(outcome.closed);
}

#[test]
fn a_malformed_request_line_is_answered_with_400_and_the_connection_closed() {
    let outcome = serve(b"GARBAGE\r\n\r\nGET /hello HTTP/1.1\r\n\r\n", 64, &router());
    assert_eq!(outcome.written.len(), 1);
    let response = text(&outcome.written[0]);
    assert!(response.starts_with("HTTP/1.1 400 Bad Request\r\n"), "{}", response);
    assert!(response.ends_with("Content-Length: 0\r\n\r\n"), "{}", response);
    assert!(outcome.dispatched.is_empty());
    assert!(outcome.closed);
    assert_eq!(outcome.shutdowns, 1);
    assert_eq!(outcome.left_in_stream, b"GET /hello HTTP/1.1\r\n\r\n".len());
}

#[test]
fn a_head_that_is_not_utf8_is_answered_with_400() {
    let outcome = serve(b"GET /\xff HTTP/1.1\r\n\r\n", 64, &router());
    assert_eq!(outcome.written.len(), 1);
    assert!(text(&outcome.written[0]).starts_with("HTTP/1.1 400 Bad Request\r\n"));
    assert!(outcome.closed);
}

#[test]
fn a_body_of_5_bytes_is_put_together_from_reads_of_any_size() {
    let input = b"POST /echo HTTP/1.1\r\nContent-Length: 5\r\n\r\nhello";
    for read_size in 1..=8 {
        let outcome = serve(input, read_size, &router());
        assert_eq!(outcome.dispatched.len(), 1, "reads of {}", read_size);
        let body = outcome.dispatched[0].body().unwrap().as_bytes();
        assert_eq!(body, b"hello".to_vec(), "reads of {}", read_size);
        assert!(text(&outcome.written[0]).ends_with("X-Path: /echo\r\n\r\nhello"));
        assert_eq!(outcome.left_in_stream, 0);
    }
}

#[test]
fn a_body_is_put_together_from_chunks_of_uneven_sizes() {
    let body: Vec<u8> = (0..=255u8).cycle().take(1000).collect();
    let sizes = [1usize, 2, 3, 5, 8, 13, 21, 34, 55, 89, 144, 233, 377, 15];
    let (state, action) = handle_request(
        b"POST /echo HTTP/1.1\r\nContent-Length: 1000".to_vec(),
    );
    assert!(matches!(action, ConnectionAction::Read(1000)));
    let mut state = state;
    let mut at = 0usize;
    let mut last = None;
    for size in sizes {
        let remaining = match &state {
            ConnectionState::ReadingBody { remaining, .. } => *remaining,
            other => panic!("unexpected state {:?}", other),
        };
        assert_eq!(remaining, 1000 - at);
        let chunk = body[at..at + size].to_vec();
        at += size;
        let (next, action) = step(state, ConnectionEvent::Received(chunk));
        state = next;
        if at < 1000 {
            assert!(matches!(action, ConnectionAction::Read(n) if n == 1000 - at));
        } else {
            last = Some(action);
        }
    }
    assert_eq!(at, 1000);
    match last {
        Some(ConnectionAction::Dispatch(request)) => {
            assert_eq!(request.body().unwrap().as_bytes(), body);
        }
        other => panic!("unexpected action {:?}", other),
    }
    assert!(matches!(state, ConnectionState::Dispatching { keep_alive: false }));
}

#[test]
fn a_declared_length_of_0_gives_an_empty_body_without_a_read() {
    let outcome = serve(b"POST /echo HTTP/1.1\r\nContent-Length: 0\r\n\r\nrest", 4, &router());
    assert_eq!(outcome.dispatched.len(), 1);
    assert_eq!(outcome.dispatched[0].body().unwrap().len(), 0);
    assert_eq!(outcome.left_in_stream, 4);
}

#[test]
fn a_request_without_content_length_has_no_body_read() {
    let outcome = serve(b"POST /echo HTTP/1.1\r\nHost: x\r\n\r\nhello", 4, &router());
    assert_eq!(outcome.dispatched.len(), 1);
    assert!(outcome.dispatched[0].body().is_none());
    assert_eq!(outcome.left_in_stream, 5);
    let outcome = serve(b"POST /echo HTTP/1.1\r\nContent-Length: five\r\n\r\nhello", 4, &router());
    assert!(outcome.dispatched[0].body().is_none());
    assert_eq!(outcome.left_in_stream, 5);
}

#[test]
fn keep_alive_serves_the_next_request_on_the_same_connection() {
    let input = b"GET /hello HTTP/1.1\r\nConnection: keep-alive\r\n\r\n\
                  GET /missing HTTP/1.1\r\nHost: x\r\n\r\n";
    let outcome = serve(input, 64, &router());
    assert_eq!(outcome.written.len(), 2);
    assert!(text(&outcome.written[0]).starts_with("HTTP/1.1 200 OK\r\n"));
    assert!(text(&outcome.written[1]).starts_with("HTTP/1.1 404 Not Found\r\n"));
    assert_eq!(outcome.dispatched.len(), 2);
    assert_eq!(outcome.shutdowns, 1);
    assert!(outcome.closed);
    assert_eq!(outcome.left_in_stream, 0);
}

#[test]
fn keep_alive_with_bodies_keeps_the_requests_apart() {
    let input = b"POST /echo HTTP/1.1\r\nConnection: keep-alive\r\nContent-Length: 3\r\n\r\nabc\
                  POST /echo HTTP/1.1\r\nConnection: keep-alive\r\nContent-Length: 2\r\n\r\nde\
                  GET /hello HTTP/1.1\r\n\r\n";
    for read_size in [1usize, 2, 3, 100] {
        let outcome = serve(input, read_size, &router());
        assert_eq!(outcome.written.len(), 3);
        assert!(text(&outcome.written[0]).ends_with("\r\n\r\nabc"));
        assert!(text(&outcome.written[1]).ends_with("\r\n\r\nde"));
        assert!(text(&outcome.written[2]).starts_with("HTTP/1.1 200 OK\r\n"));
        assert_eq!(outcome.shutdowns, 1);
        assert_eq!(outcome.left_in_stream, 0);
    }
}

#[test]
fn a_kept_alive_connection_ends_when_the_peer_sends_no_more() {
    let input = b"GET /hello HTTP/1.1\r\nConnection: keep-alive\r\n\r\n";
    let outcome = serve(input, 64, &router());
    assert_eq!(outcome.written.len(), 1);
    assert_eq!(outcome.shutdowns, 1);
    assert!(outcome.closed);
}

#[test]
fn without_keep_alive_the_connection_closes_after_one_response() {
    for first in [
        "GET /hello HTTP/1.1\r\nConnection: close\r\n\r\n",
        "GET /hello HTTP/1.1\r\nHost: x\r\n\r\n",
        "GET /hello HTTP/1.1\r\nConnection: Keep-Alive\r\n\r\n",
        "GET /hello HTTP/1.1\r\n\r\n",
    ] {
        let second = "GET /hello HTTP/1.1\r\n\r\n";
        let input = format!("{}{}", first, second);
        let outcome = serve(input.as_bytes(), 64, &router());
        assert_eq!(outcome.written.len(), 1, "{:?}", first);
        assert_eq!(outcome.shutdowns, 1);
        assert!(outcome.closed);
        assert_eq!(outcome.left_in_stream, second.len());
    }
}

#[test]
fn a_head_longer_than_the_window_is_gathered_over_several_probes() {
    let filler = "x".repeat(600);
    let input = format!("GET /hello HTTP/1.1\r\nX-Filler: {}\r\nHost: y\r\n\r\n", filler);
    let outcome = serve(input.as_bytes(), 64, &router());
    assert_eq!(outcome.dispatched.len(), 1);
    let request = &outcome.dispatched[0];
    assert_eq!(request.get_header("X-Filler").unwrap().value, filler);
    assert_eq!(request.get_header("Host").unwrap().value, "y");
    assert!(text(&outcome.written[0]).starts_with("HTTP/1.1 200 OK\r\n"));
    assert_eq!(outcome.left_in_stream, 0);
}

#[test]
fn a_probe_takes_the_head_and_its_end_and_nothing_more() {
    let chunk = b"GET / HTTP/1.1\r\nHost: x\r\n\r\nBODY".to_vec();
    let (state, action) = read_request(b"seen ".to_vec(), chunk);
    assert!(matches!(action, ConnectionAction::Consume(27)));
    match state {
        ConnectionState::ConsumingHead { head, complete } => {
            assert_eq!(head, b"seen GET / HTTP/1.1\r\nHost: x".to_vec());
            assert!(complete);
        }
        other => panic!("unexpected state {:?}", other),
    }
}

#[test]
fn a_probe_without_the_end_of_the_head_takes_all_it_saw() {
    let (state, action) = read_request(b"GET / HT".to_vec(), b"TP/1.1\r\nHost: x\r\n".to_vec());
    assert!(matches!(action, ConnectionAction::Consume(17)));
    match state {
        ConnectionState::ConsumingHead { head, complete } => {
            assert_eq!(head, b"GET / HTTP/1.1\r\nHost: x\r\n".to_vec());
            assert!(!complete);
        }
        other => panic!("unexpected state {:?}", other),
    }
    let (state, action) = step(
        ConnectionState::ConsumingHead { head: b"GET".to_vec(), complete: false },
        ConnectionEvent::Consumed,
    );
    assert!(matches!(action, ConnectionAction::Peek(255)));
    assert!(matches!(state, ConnectionState::ReadingHead { head } if head == b"GET".to_vec()));
}

#[test]
fn a_probe_that_sees_nothing_ends_the_connection() {
    let (state, action) = read_request(b"GET /".to_vec(), Vec::new());
    assert!(state.is_closed());
    assert!(matches!(action, ConnectionAction::Shutdown));
}

#[test]
fn a_read_that_takes_nothing_ends_the_connection() {
    let (state, action) = read_body(request("POST / HTTP/1.1"), b"ab".to_vec(), 3, Vec::new());
    assert!(state.is_closed());
    assert!(matches!(action, ConnectionAction::Shutdown));
    let outcome = serve(b"POST /echo HTTP/1.1\r\nContent-Length: 5\r\n\r\nhel", 2, &router());
    assert!(outcome.dispatched.is_empty());
    assert!(outcome.written.is_empty());
    assert!(outcome.closed);
}

#[test]
fn a_read_never_adds_more_than_was_still_to_come() {
    let (state, action) =
        read_body(request("POST / HTTP/1.1"), b"ab".to_vec(), 3, b"cdefgh".to_vec());
    assert!(matches!(state, ConnectionState::Dispatching { keep_alive: false }));
    match action {
        ConnectionAction::Dispatch(request) => {
            assert_eq!(request.body().unwrap().as_bytes(), b"abcde".to_vec());
        }
        other => panic!("unexpected action {:?}", other),
    }
}

#[test]
fn a_short_read_asks_for_the_rest() {
    let (state, action) = read_body(
        request("POST / HTTP/1.1\r\nConnection: keep-alive"),
        b"ab".to_vec(),
        5,
        b"cd".to_vec(),
    );
    assert!(matches!(action, ConnectionAction::Read(3)));
    match state {
        ConnectionState::ReadingBody { request, body, remaining } => {
            assert_eq!(body, b"abcd".to_vec());
            assert_eq!(remaining, 3);
            assert!(request.keep_alive());
        }
        other => panic!("unexpected state {:?}", other),
    }
}

#[test]
fn a_complete_head_decides_what_comes_next() {
    let (state, action) = handle_request(b"GET /x HTTP/1.1\r\nConnection: keep-alive".to_vec());
    assert!(matches!(state, ConnectionState::Dispatching { keep_alive: true }));
    assert!(matches!(action, ConnectionAction::Dispatch(request) if request.path() == "/x"));

    let (state, action) = handle_request(b"POST /x HTTP/1.1\r\nContent-Length: 7".to_vec());
    assert!(matches!(action, ConnectionAction::Read(7)));
    assert!(matches!(
        state,
        ConnectionState::ReadingBody { remaining: 7, body, .. } if body.is_empty()
    ));

    let (state, action) = handle_request(b"nonsense".to_vec());
    assert!(matches!(state, ConnectionState::Writing { keep_alive: false }));
    match action {
        ConnectionAction::Write(bytes) => {
            assert!(text(&bytes).starts_with("HTTP/1.1 400 Bad Request\r\n"))
        }
        other => panic!("unexpected action {:?}", other),
    }
}

#[test]
fn an_error_is_answered_and_the_connection_ends_after_the_answer() {
    let (state, action) = handle_error(HttpError::bad_request("Invalid Path"));
    assert!(matches!(state, ConnectionState::Writing { keep_alive: false }));
    match action {
        ConnectionAction::Write(bytes) => {
            let response = text(&bytes);
            assert!(response.starts_with("HTTP/1.1 400 Bad Request\r\n"));
            assert!(response.ends_with("Content-Length: 0\r\n\r\n"));
        }
        other => panic!("unexpected action {:?}", other),
    }
    let (state, action) = step(state, ConnectionEvent::Written);
    assert!(state.is_closed());
    assert!(matches!(action, ConnectionAction::Shutdown));
}

#[test]
fn a_failure_while_a_body_is_read_is_answered_with_500() {
    let state = ConnectionState::ReadingBody {
        request: request("POST / HTTP/1.1\r\nConnection: keep-alive"),
        body: b"ab".to_vec(),
        remaining: 4,
    };
    let (state, action) = step(state, failure());
    assert!(matches!(state, ConnectionState::Writing { keep_alive: false }));
    match action {
        ConnectionAction::Write(bytes) => {
            let response = text(&bytes);
            assert!(response.starts_with("HTTP/1.1 500 Internal Server Error\r\n"));
            assert!(response.ends_with("Content-Length: 0\r\n\r\n"));
        }
        other => panic!("unexpected action {:?}", other),
    }
    let (state, action) = step(state, ConnectionEvent::Written);
    assert!(state.is_closed());
    assert!(matches!(action, ConnectionAction::Shutdown));
}

#[test]
fn a_failure_while_a_head_is_read_ends_the_connection_silently() {
    let reading = [
        ConnectionState::AwaitingRequest,
        ConnectionState::ReadingHead { head: b"GET".to_vec() },
        ConnectionState::ConsumingHead { head: b"GET".to_vec(), complete: true },
        ConnectionState::ConsumingHead { head: b"GET".to_vec(), complete: false },
    ];
    for state in reading {
        let (state, action) = step(state, failure());
        assert!(state.is_closed());
        assert!(matches!(action, ConnectionAction::Shutdown));
    }
}

#[test]
fn a_failure_while_writing_ends_the_connection() {
    for keep_alive in [true, false] {
        let (state, action) = step(ConnectionState::Writing { keep_alive }, failure());
        assert!(state.is_closed());
        assert!(matches!(action, ConnectionAction::Shutdown));
        let (state, action) = step(ConnectionState::Dispatching { keep_alive }, failure());
        assert!(state.is_closed());
        assert!(matches!(action, ConnectionAction::Shutdown));
    }
}

#[test]
fn the_response_of_the_handler_is_written_as_it_is() {
    let mut response = HttpResponse::new(201, Some(HttpBody::new(b"made".to_vec())));
    response.add_header(HttpHeader::new("Location".to_string(), "/items/1".to_string()));
    let expected = response.as_bytes();
    let (state, action) = step(
        ConnectionState::Dispatching { keep_alive: true },
        ConnectionEvent::Responded(response),
    );
    assert!(matches!(state, ConnectionState::Writing { keep_alive: true }));
    assert!(matches!(action, ConnectionAction::Write(bytes) if bytes == expected));
}

#[test]
fn after_a_write_the_connection_waits_or_closes() {
    let (state, action) =
        step(ConnectionState::Writing { keep_alive: true }, ConnectionEvent::Written);
    assert!(matches!(state, ConnectionState::AwaitingRequest));
    assert!(matches!(action, ConnectionAction::AwaitReadable));
    let (state, action) =
        step(ConnectionState::Writing { keep_alive: false }, ConnectionEvent::Written);
    assert!(state.is_closed());
    assert!(matches!(action, ConnectionAction::Shutdown));
}

#[test]
fn a_new_connection_waits_for_the_peer() {
    let (state, action) = ConnectionState::start();
    assert!(matches!(state, ConnectionState::AwaitingRequest));
    assert!(!state.is_closed());
    assert!(matches!(action, ConnectionAction::AwaitReadable));
    let (state, action) = step(state, ConnectionEvent::Readable(true));
    assert!(matches!(state, ConnectionState::ReadingHead { head } if head.is_empty()));
    assert!(matches!(action, ConnectionAction::Peek(255)));
    let (state, action) = step(ConnectionState::AwaitingRequest, ConnectionEvent::Readable(false));
    assert!(state.is_closed());
    assert!(matches!(action, ConnectionAction::Shutdown));
}

#[test]
fn an_event_that_the_state_does_not_wait_for_ends_the_connection() {
    let (state, action) = step(ConnectionState::AwaitingRequest, ConnectionEvent::Written);
    assert!(state.is_closed());
    assert!(matches!(action, ConnectionAction::Shutdown));
    let (state, action) = step(
        ConnectionState::ReadingHead { head: Vec::new() },
        ConnectionEvent::Received(b"x".to_vec()),
    );
    assert!(state.is_closed());
    assert!(matches!(action, ConnectionAction::Shutdown));
    let (state, action) =
        step(ConnectionState::Writing { keep_alive: true }, ConnectionEvent::Consumed);
    assert!(state.is_closed());
    assert!(matches!(action, ConnectionAction::Shutdown));
    let (state, action) = step(
        ConnectionState::Dispatching { keep_alive: true },
        ConnectionEvent::Peeked(b"x".to_vec()),
    );
    assert!(state.is_closed());
    assert!(matches!(action, ConnectionAction::Shutdown));
}

#[test]
fn a_closed_connection_stays_closed() {
    let events = vec![
        ConnectionEvent::Readable(true),
        ConnectionEvent::Peeked(b"GET / HTTP/1.1\r\n\r\n".to_vec()),
        ConnectionEvent::Consumed,
        ConnectionEvent::Received(b"x".to_vec()),
        ConnectionEvent::Responded(HttpResponse::new(200, None)),
        ConnectionEvent::Written,
        failure(),
    ];
    let mut state = ConnectionState::Closed;
    for event in events {
        let (next, action) = step(state, event);
        assert!(next.is_closed());
        assert!(matches!(action, ConnectionAction::Stop));
        state = next;
    }
}

#[test]
fn an_end_of_head_that_two_probes_share_is_not_seen() {
    let (state, action) = read_request(Vec::new(), b"GET / HTTP/1.1\r\n".to_vec());
    assert!(matches!(action, ConnectionAction::Consume(16)));
    let head = match state {
        ConnectionState::ConsumingHead { head, complete: false } => head,
        other => panic!("unexpected state {:?}", other),
    };
    let (state, action) = read_request(head, b"\r\nrest".to_vec());
    assert!(matches!(action, ConnectionAction::Consume(6)));
    assert!(matches!(state, ConnectionState::ConsumingHead { complete: false, .. }));
}
