//! What a connection is answered with: the dispatch of a request by its
//! method, the fixed pages, and the headers that every response gets.
//!
//! Also the shutdown protocol, as two state machines: the coordinator,
//! which honours the first stop signal and no other, and the acceptor,
//! which polls for connections until it is notified, then disposes of the
//! pool and stops. Sockets, threads and waiting are left to the caller,
//! which performs each action and reports what happened.

use crate::text::{
    decimal, decimal_text, from_utf8, lowercase_of, starts_with, text_eq, to_lowercase,
};
use crate::types::{
    request_of, response_bytes, HeaderView, HttpVersion, Method, Request, RequestView, Response,
    ResponseCode, ResponseView, StatusLineView,
};
use vstd::prelude::*;
use vstd::string::StrSliceExecFns;
use vstd::string::StringExecFns;
use vstd::string::StringSliceAdditionalSpecFns;
use vstd::utf8::{decode_utf8, encode_utf8, encode_utf8_decode_utf8, valid_utf8};

verus! {

/// The page that answers a method that is recognised but not served.
pub const METHOD_NOT_IMPLEMENTED_STR: &'static str =
    "<!DOCTYPE html><html lang=\"en\"><head><meta charset=\"UTF-8\"><meta name=\"viewport\" content=\"width=device-width, initial-scale=1.0\"><title>Not Implemented</title></head><body>Method Not Implemented</body></html>";

/// The page that answers a request for a resource that is not there.
pub const METHOD_NOT_FOUND_STR: &'static str =
    "<!DOCTYPE html><html lang=\"en\"><head><meta charset=\"UTF-8\"><meta name=\"viewport\" content=\"width=device-width, initial-scale=1.0\"><title>Not Found</title></head><body>Method Not Found</body></html>";

/// The body that answers what is not a request.
pub const INVALID_REQUEST_STR: &'static str = "invalid request";

/// The directory that static resources are served from.
pub const STATIC_ROOT: &'static str = "www/";

/// The resource that is served for `/`.
pub const INDEX_RESOURCE: &'static str = "index.html";

/// The pattern of the `Date` header.
pub const DATE_PATTERN: &'static str = "%a, %d %b %Y %H:%M:%S UTC";

/// The number of bytes that are read from a connection. This is a hard
/// limit: a request whose head is longer is cut off there, and what is left
/// of it will mostly not be read as a request.
pub const READ_BUFFER_SIZE: usize = 512;

/// The number of workers of the pool that answers the connections.
pub const WORKER_COUNT: usize = 8;

/// The longest that the acceptor waits for a notification before it tries
/// to accept again, in milliseconds. It bounds how long a shutdown goes
/// unnoticed.
pub const NOTIFICATION_WAIT_MILLIS: u64 = 100;

/// The file that holds a resource: the resource under the static root,
/// with the index resource standing in for `/`.
pub open spec fn resource_path_of(resource: Seq<char>) -> Seq<char> {
    if resource == "/"@ {
        STATIC_ROOT@ + INDEX_RESOURCE@
    } else {
        STATIC_ROOT@ + resource
    }
}

/// A response with the headers that describe its body appended:
/// `Content-type`, which is always `text/html`, and `Content-length`, the
/// number of bytes of the body in decimal.
pub open spec fn with_content_headers(r: ResponseView) -> ResponseView {
    ResponseView {
        headers: r.headers.push(HeaderView { name: "Content-type"@, value: "text/html"@ }).push(
            HeaderView { name: "Content-length"@, value: decimal(r.body.len()) },
        ),
        ..r
    }
}

/// A response with a `Date` header appended, where there is a date.
pub open spec fn with_date(r: ResponseView, date: Option<Seq<char>>) -> ResponseView {
    match date {
        Some(text) => ResponseView {
            headers: r.headers.push(HeaderView { name: "Date"@, value: text }),
            ..r
        },
        None => r,
    }
}

/// A response without headers.
pub open spec fn plain_response(
    version: HttpVersion,
    code: ResponseCode,
    body: Seq<u8>,
) -> ResponseView {
    ResponseView { status_line: StatusLineView { version, code }, headers: Seq::empty(), body }
}

/// The answer to a `GET`: the resource with status 200 where it was
/// found, the not-found page with status 404 where it was not.
pub open spec fn get_response(version: HttpVersion, resource_data: Option<Seq<u8>>) -> ResponseView {
    match resource_data {
        Some(data) => with_content_headers(plain_response(version, ResponseCode::Success, data)),
        None => with_content_headers(
            plain_response(version, ResponseCode::NotFound, encode_utf8(METHOD_NOT_FOUND_STR@)),
        ),
    }
}

/// The answer to a `POST`: a stub, status 200 without headers or body.
pub open spec fn post_response() -> ResponseView {
    plain_response(HttpVersion::HttpV1_1, ResponseCode::Success, Seq::empty())
}

/// The answer to a method that is recognised but not served: status 501
/// with its page.
pub open spec fn not_implemented_response(version: HttpVersion) -> ResponseView {
    with_content_headers(
        plain_response(
            version,
            ResponseCode::NotImplemented,
            encode_utf8(METHOD_NOT_IMPLEMENTED_STR@),
        ),
    )
}

/// The answer to what is not a request: status 400.
pub open spec fn bad_request_response() -> ResponseView {
    with_content_headers(
        plain_response(
            HttpVersion::HttpV1_1,
            ResponseCode::BadRequest,
            encode_utf8(INVALID_REQUEST_STR@),
        ),
    )
}

/// The answer where handling a connection failed: status 500, without
/// headers or body.
pub open spec fn internal_error_response() -> ResponseView {
    plain_response(HttpVersion::HttpV1_1, ResponseCode::InternalServerError, Seq::empty())
}

/// The answer to what was received, before the `Date` header: by the
/// method where a request was read, status 400 where none was.
pub open spec fn dispatch_of(
    request: Option<RequestView>,
    resource_data: Option<Seq<u8>>,
) -> ResponseView {
    match request {
        Some(r) => match r.request_line.method {
            Method::Get => get_response(r.request_line.version, resource_data),
            Method::Post => post_response(),
            _ => not_implemented_response(r.request_line.version),
        },
        None => bad_request_response(),
    }
}

/// The request that received bytes state: none where they are not
/// well-formed UTF-8, else what their text states.
pub open spec fn request_in(buffer: Seq<u8>) -> Option<RequestView> {
    if valid_utf8(buffer) {
        request_of(decode_utf8(buffer))
    } else {
        None
    }
}

/// The file that must be read to answer a request: the file of the
/// resource for a `GET`, none for anything else.
pub open spec fn wanted_file(request: Option<RequestView>) -> Option<Seq<char>> {
    match request {
        Some(r) => if r.request_line.method == Method::Get {
            Some(resource_path_of(r.request_line.resource))
        } else {
            None
        },
        None => None,
    }
}

/// The bytes of an optional byte vector.
pub open spec fn bytes_of(data: Option<Vec<u8>>) -> Option<Seq<u8>> {
    match data {
        Some(v) => Some(v@),
        None => None,
    }
}

/// The text of an optional string.
pub open spec fn text_of(text: Option<String>) -> Option<Seq<char>> {
    match text {
        Some(s) => Some(s@),
        None => None,
    }
}

/// The file that holds the resource of a request.
pub fn resource_path(request: &Request) -> (r: String)
    ensures
        r@ == resource_path_of(request@.request_line.resource),
{
    let mut path: String = String::from_str(STATIC_ROOT);
    if text_eq(request.request_line.resource.as_str(), "/") {
        path.append(INDEX_RESOURCE);
    } else {
        path.append(request.request_line.resource.as_str());
    }
    path
}

/// Appends `Content-type` and `Content-length` to a response.
fn add_content_headers(response: &mut Response)
    ensures
        final(response)@ == with_content_headers(old(response)@),
{
    response.add_header("Content-type", "text/html");
    let length: String = decimal_text(response.body_length());
    response.add_header("Content-length", length.as_str());
}

/// Answers a `GET`. `resource_data` is what the file of the resource
/// holds, or `None` where there is no such file.
pub fn handle_get_request(request: &Request, resource_data: Option<Vec<u8>>) -> (r: Response)
    ensures
        r@ == get_response(request@.request_line.version, bytes_of(resource_data)),
{
    let mut response: Response = Response::new(
        request.request_line.version,
        ResponseCode::Success,
        Vec::new(),
    );
    match resource_data {
        Some(data) => {
            response.body(data);
        },
        None => {
            response.status_code(ResponseCode::NotFound);
            response.body(METHOD_NOT_FOUND_STR.as_bytes_vec());
        },
    }
    add_content_headers(&mut response);
    response
}

/// Answers a `POST` with the stub.
pub fn handle_post_request(_request: &Request) -> (r: Response)
    ensures
        r@ == post_response(),
{
    Response::new(HttpVersion::HttpV1_1, ResponseCode::Success, Vec::new())
}

/// Answers a method that is recognised but not served.
pub fn handle_unsupported_request(request: &Request) -> (r: Response)
    ensures
        r@ == not_implemented_response(request@.request_line.version),
{
    let mut response: Response = Response::new(
        request.request_line.version,
        ResponseCode::NotImplemented,
        METHOD_NOT_IMPLEMENTED_STR.as_bytes_vec(),
    );
    add_content_headers(&mut response);
    response
}

/// Answers what is not a request.
pub fn handle_bad_request() -> (r: Response)
    ensures
        r@ == bad_request_response(),
{
    let mut response: Response = Response::new(
        HttpVersion::HttpV1_1,
        ResponseCode::BadRequest,
        INVALID_REQUEST_STR.as_bytes_vec(),
    );
    add_content_headers(&mut response);
    response
}

/// The bytes to send back where handling a connection failed, so that the
/// failure costs neither the answer nor the worker. `date` is the value of
/// the `Date` header.
pub fn handle_failure(date: Option<String>) -> (r: Vec<u8>)
    ensures
        r@ == response_bytes(with_date(internal_error_response(), text_of(date))),
{
    let mut response: Response = Response::new(
        HttpVersion::HttpV1_1,
        ResponseCode::InternalServerError,
        Vec::new(),
    );
    add_date(&mut response, &date);
    response.as_bytes()
}

/// Answers what was received: a request by its method, anything else with
/// status 400.
pub fn dispatch(request: &Option<Request>, resource_data: Option<Vec<u8>>) -> (r: Response)
    ensures
        r@ == dispatch_of(
            match request {
                Some(req) => Some(req@),
                None => None,
            },
            bytes_of(resource_data),
        ),
{
    match request {
        Some(valid_request) => match valid_request.request_line.method {
            Method::Get => handle_get_request(valid_request, resource_data),
            Method::Post => handle_post_request(valid_request),
            _ => handle_unsupported_request(valid_request),
        },
        None => handle_bad_request(),
    }
}

/// What chrono writes for the instant `secs` seconds after the Unix epoch,
/// taken in UTC, under a `strftime` pattern; `None` where it writes
/// nothing, because it cannot represent the instant or cannot format by
/// the pattern.
pub uninterp spec fn formatted_utc(secs: i64, pattern: Seq<char>) -> Option<Seq<char>>;

/// Calls `chrono::DateTime::from_timestamp_secs` for the instant, and
/// `DateTime::format` with `DelayedFormat::write_to` for its text, with the
/// pattern of the `Date` header. The claim is that the outcome depends on
/// the two arguments alone: chrono formats UTC without consulting a time
/// zone, a locale or the clock. Which instants give `None`, and what the
/// text is, is not claimed.
#[verifier::external_body]
fn format_utc(secs: i64, pattern: &str) -> (r: Option<String>)
    requires
        pattern@ == DATE_PATTERN@,
    ensures
        text_of(r) == formatted_utc(secs, pattern@),
{
    let moment = chrono::DateTime::from_timestamp_secs(secs)?;
    let mut text = String::new();
    match moment.format(pattern).write_to(&mut text) {
        Ok(()) => Some(text),
        Err(_) => None,
    }
}

/// The value of the `Date` header for the instant `secs` seconds after the
/// Unix epoch, or `None` where the instant has no such text.
pub fn http_date(secs: i64) -> (r: Option<String>)
    ensures
        text_of(r) == formatted_utc(secs, DATE_PATTERN@),
{
    format_utc(secs, DATE_PATTERN)
}

/// Appends the `Date` header to a response, where there is a date.
pub fn add_date(response: &mut Response, date: &Option<String>)
    ensures
        final(response)@ == with_date(old(response)@, text_of(*date)),
{
    match date {
        Some(text) => {
            response.add_header("Date", text.as_str());
        },
        None => {},
    }
}

/// Answers the text of what was received. `resource_data` is what the
/// file named by `requested_file` holds, or `None` where there is no such
/// file; `date` is the value of the `Date` header.
pub fn handle_request_string(
    buffer_string: String,
    resource_data: Option<Vec<u8>>,
    date: Option<String>,
) -> (r: Response)
    ensures
        r@ == with_date(
            dispatch_of(request_of(buffer_string@), bytes_of(resource_data)),
            text_of(date),
        ),
        r@.status_line.code != ResponseCode::Unknown,
{
    let request: Option<Request> = Request::parse_from_string(&buffer_string);
    let mut response: Response = dispatch(&request, resource_data);
    add_date(&mut response, &date);
    response
}

/// The file that must be read before what was received can be answered:
/// the file of the resource where the bytes state a `GET`, none
/// otherwise.
pub fn requested_file(buffer: &[u8]) -> (r: Option<String>)
    ensures
        text_of(r) == wanted_file(request_in(buffer@)),
{
    match from_utf8(buffer) {
        Some(text) => {
            proof {
                encode_utf8_decode_utf8(text@);
            }
            match Request::parse(text) {
                Some(request) => match request.request_line.method {
                    Method::Get => Some(resource_path(&request)),
                    _ => None,
                },
                None => None,
            }
        },
        None => None,
    }
}

/// Answers the bytes that were received on a connection with the bytes to
/// send back. Bytes that are not well-formed UTF-8 are answered like any
/// other malformed request, with status 400. `resource_data` is what the
/// file named by `requested_file` holds, or `None` where there is no such
/// file; `date` is the value of the `Date` header.
pub fn handle_connection(
    buffer: &[u8],
    resource_data: Option<Vec<u8>>,
    date: Option<String>,
) -> (r: Vec<u8>)
    ensures
        r@ == response_bytes(
            with_date(dispatch_of(request_in(buffer@), bytes_of(resource_data)), text_of(date)),
        ),
        !valid_utf8(buffer@) ==> r@ == response_bytes(
            with_date(bad_request_response(), text_of(date)),
        ),
{
    let response: Response = match from_utf8(buffer) {
        Some(text) => {
            proof {
                encode_utf8_decode_utf8(text@);
            }
            handle_request_string(String::from_str(text), resource_data, date)
        },
        None => {
            let mut response: Response = handle_bad_request();
            add_date(&mut response, &date);
            response
        },
    };
    response.as_bytes()
}

/// Answers the bytes that were received on a connection at the instant
/// `secs` seconds after the Unix epoch: as `handle_connection` does, with
/// the `Date` header of that instant.
pub fn handle_connection_at(buffer: &[u8], resource_data: Option<Vec<u8>>, secs: i64) -> (r: Vec<
    u8,
>)
    ensures
        r@ == response_bytes(
            with_date(
                dispatch_of(request_in(buffer@), bytes_of(resource_data)),
                formatted_utc(secs, DATE_PATTERN@),
            ),
        ),
{
    handle_connection(buffer, resource_data, http_date(secs))
}

/// The status of every answer: 400 exactly where no request was read, 501
/// exactly where the method of the request is neither `GET` nor `POST`,
/// 404 exactly where a `GET` found no resource, and 200 in every other
/// case. No answer has the status `Unknown`, so every answer can be
/// written out.
pub proof fn lemma_dispatch_status(
    request: Option<RequestView>,
    resource_data: Option<Seq<u8>>,
    date: Option<Seq<char>>,
)
    ensures
        ({
            let code: ResponseCode = with_date(
                dispatch_of(request, resource_data),
                date,
            ).status_line.code;
            &&& code != ResponseCode::Unknown
            &&& code == ResponseCode::BadRequest <==> request is None
            &&& code == ResponseCode::NotImplemented <==> (request matches Some(r)
                && r.request_line.method != Method::Get && r.request_line.method != Method::Post)
            &&& code == ResponseCode::NotFound <==> (request matches Some(r)
                && r.request_line.method == Method::Get && resource_data is None)
            &&& code == ResponseCode::Success <==> (request matches Some(r) && (
            r.request_line.method == Method::Post || (r.request_line.method == Method::Get
                && resource_data is Some)))
        }),
{
}

/// Bytes that are not well-formed UTF-8 are answered with status 400,
/// whatever else was handed in.
pub proof fn lemma_invalid_utf8_is_bad_request(
    buffer: Seq<u8>,
    resource_data: Option<Seq<u8>>,
    date: Option<Seq<char>>,
)
    requires
        !valid_utf8(buffer),
    ensures
        with_date(dispatch_of(request_in(buffer), resource_data), date) == with_date(
            bad_request_response(),
            date,
        ),
        with_date(dispatch_of(request_in(buffer), resource_data), date).status_line.code
            == ResponseCode::BadRequest,
{
}

/// The headers of every answer: `Content-type` and `Content-length`, in
/// this order, on every answer but the stub for `POST`, which has no body;
/// then `Date`, where there is a date; and no other.
pub proof fn lemma_dispatch_headers(
    request: Option<RequestView>,
    resource_data: Option<Seq<u8>>,
    date: Option<Seq<char>>,
)
    ensures
        ({
            let answer: ResponseView = dispatch_of(request, resource_data);
            let stub: bool = (request matches Some(r) && r.request_line.method == Method::Post);
            let described: Seq<HeaderView> = seq![
                HeaderView { name: "Content-type"@, value: "text/html"@ },
                HeaderView { name: "Content-length"@, value: decimal(answer.body.len()) },
            ];
            let dated: Seq<HeaderView> = match date {
                Some(text) => seq![HeaderView { name: "Date"@, value: text }],
                None => Seq::empty(),
            };
            &&& stub ==> answer.body.len() == 0
            &&& with_date(answer, date).headers == if stub {
                dated
            } else {
                described + dated
            }
        }),
{
    let answer: ResponseView = dispatch_of(request, resource_data);
    let described: Seq<HeaderView> = seq![
        HeaderView { name: "Content-type"@, value: "text/html"@ },
        HeaderView { name: "Content-length"@, value: decimal(answer.body.len()) },
    ];
    let dated: Seq<HeaderView> = match date {
        Some(text) => seq![HeaderView { name: "Date"@, value: text }],
        None => Seq::empty(),
    };
    let stub: bool = (request matches Some(r) && r.request_line.method == Method::Post);
    if stub {
        assert(with_date(answer, date).headers =~= dated);
    } else {
        assert(with_date(answer, date).headers =~= described + dated);
    }
}

/// The shutdown signal. It changes once, from `Running` to `Terminated`,
/// and never back.
#[derive(PartialEq, Eq, Structural, Debug, Clone, Copy)]
pub enum State {
    Running,
    Terminated,
}

/// What the coordinator does about a signal from the trigger.
#[derive(PartialEq, Eq, Structural, Debug, Clone, Copy)]
pub enum CoordinatorAction {
    /// Wait for the next signal.
    KeepWaiting,
    /// Forward `Terminated` to the acceptor, then wait until the acceptor
    /// and the trigger have both finished.
    Shutdown,
    /// Termination has begun already: do nothing.
    Ignore,
}

/// The coordinator's answer to a signal: the state after it, and what to
/// do. Only the first `Terminated` is honoured.
pub open spec fn coordinator_step(state: State, signal: State) -> (State, CoordinatorAction) {
    match (state, signal) {
        (State::Running, State::Running) => (State::Running, CoordinatorAction::KeepWaiting),
        (State::Running, State::Terminated) => (State::Terminated, CoordinatorAction::Shutdown),
        (State::Terminated, _) => (State::Terminated, CoordinatorAction::Ignore),
    }
}

/// The state of the coordinator after a sequence of signals.
pub open spec fn coordinator_run(state: State, signals: Seq<State>) -> State
    decreases signals.len(),
{
    if signals.len() == 0 {
        state
    } else {
        coordinator_step(coordinator_run(state, signals.drop_last()), signals.last()).0
    }
}

/// How often a sequence of signals makes the coordinator shut down.
pub open spec fn coordinator_shutdowns(state: State, signals: Seq<State>) -> nat
    decreases signals.len(),
{
    if signals.len() == 0 {
        0
    } else {
        let before: nat = coordinator_shutdowns(state, signals.drop_last());
        if coordinator_step(coordinator_run(state, signals.drop_last()), signals.last()).1
            == CoordinatorAction::Shutdown {
            before + 1
        } else {
            before
        }
    }
}

/// What a server holds.
pub struct ServerView {
    pub port: u16,
    pub state: State,
}

/// The shutdown coordinator of a server on one port.
pub struct Server {
    port: u16,
    state: State,
}

impl View for Server {
    type V = ServerView;

    closed spec fn view(&self) -> ServerView {
        ServerView { port: self.port, state: self.state }
    }
}

impl Server {
    /// A running server for `port`.
    pub fn new(port: u16) -> (r: Server)
        ensures
            r@ == (ServerView { port, state: State::Running }),
    {
        Server { port, state: State::Running }
    }

    /// The port that the server listens on.
    pub fn port(&self) -> (r: u16)
        ensures
            r == self@.port,
    {
        self.port
    }

    /// Whether termination has begun.
    pub fn state(&self) -> (r: State)
        ensures
            r == self@.state,
    {
        self.state
    }

    /// Takes a signal from the trigger and says what to do about it.
    pub fn notify(&mut self, signal: State) -> (action: CoordinatorAction)
        ensures
            final(self)@.port == old(self)@.port,
            (final(self)@.state, action) == coordinator_step(old(self)@.state, signal),
    {
        match (self.state, signal) {
            (State::Running, State::Running) => CoordinatorAction::KeepWaiting,
            (State::Running, State::Terminated) => {
                self.state = State::Terminated;
                CoordinatorAction::Shutdown
            },
            (State::Terminated, _) => CoordinatorAction::Ignore,
        }
    }
}

/// Once termination has begun it stays begun, and nothing is shut down
/// again.
pub proof fn lemma_terminated_is_final(signals: Seq<State>)
    ensures
        coordinator_run(State::Terminated, signals) == State::Terminated,
        coordinator_shutdowns(State::Terminated, signals) == 0,
    decreases signals.len(),
{
    if signals.len() > 0 {
        lemma_terminated_is_final(signals.drop_last());
    }
}

/// Whatever signals arrive, the coordinator shuts down at most once: once
/// where a `Terminated` is among them, which is also when it ends up
/// terminated, and never where none is.
pub proof fn lemma_coordinator_shuts_down_once(signals: Seq<State>)
    ensures
        coordinator_shutdowns(State::Running, signals) <= 1,
        coordinator_shutdowns(State::Running, signals) == 1 <==> signals.contains(
            State::Terminated,
        ),
        coordinator_run(State::Running, signals) == State::Terminated <==> signals.contains(
            State::Terminated,
        ),
    decreases signals.len(),
{
    if signals.len() > 0 {
        let before: Seq<State> = signals.drop_last();
        lemma_coordinator_shuts_down_once(before);
        if before.contains(State::Terminated) {
            let i: int = choose|i: int| 0 <= i < before.len() && before[i] == State::Terminated;
            assert(signals[i] == State::Terminated);
        }
        if signals.contains(State::Terminated) && !before.contains(State::Terminated) {
            let i: int = choose|i: int| 0 <= i < signals.len() && signals[i] == State::Terminated;
            if i < before.len() {
                assert(before[i] == State::Terminated);
            }
        }
        if signals.last() == State::Terminated {
            assert(signals[signals.len() - 1] == State::Terminated);
        }
    }
}

/// Where the acceptor stands.
#[derive(PartialEq, Eq, Structural, Debug, Clone, Copy)]
pub enum AcceptorState {
    /// Waiting for notifications and accepting connections in turn.
    Polling,
    /// Termination was observed: the pool is being disposed of.
    Draining,
    /// The pool has joined: the acceptor is done.
    Stopped,
}

/// What happened since the acceptor last said what to do.
#[derive(PartialEq, Eq, Structural, Debug, Clone, Copy)]
pub enum AcceptorEvent {
    /// The bounded wait for a notification ended with this signal.
    Notified(State),
    /// The bounded wait for a notification ended without one.
    WaitElapsed,
    /// The non-blocking accept returned a connection.
    Accepted,
    /// The non-blocking accept found no connection waiting.
    WouldBlock,
    /// The non-blocking accept failed otherwise.
    AcceptFailed,
    /// The pool has been disposed of: every worker has joined.
    PoolJoined,
}

/// What the acceptor does next.
#[derive(PartialEq, Eq, Structural, Debug, Clone, Copy)]
pub enum AcceptorAction {
    /// Wait for a notification, for a bounded time.
    AwaitNotification,
    /// Try to accept a connection without blocking.
    TryAccept,
    /// Submit the accepted connection to the pool as a job, then wait for a
    /// notification.
    Submit,
    /// Report the failure, then wait for a notification.
    Report,
    /// Dispose of the pool, and wait until every worker has joined.
    DisposePool,
    /// Leave the loop.
    Exit,
}

/// The acceptor's answer to an event: where it stands after it, and what
/// to do next.
pub open spec fn acceptor_step(state: AcceptorState, event: AcceptorEvent) -> (
    AcceptorState,
    AcceptorAction,
) {
    match state {
        AcceptorState::Polling => match event {
            AcceptorEvent::Notified(State::Terminated) => (
                AcceptorState::Draining,
                AcceptorAction::DisposePool,
            ),
            AcceptorEvent::Notified(State::Running) => (
                AcceptorState::Polling,
                AcceptorAction::TryAccept,
            ),
            AcceptorEvent::WaitElapsed => (AcceptorState::Polling, AcceptorAction::TryAccept),
            AcceptorEvent::Accepted => (AcceptorState::Polling, AcceptorAction::Submit),
            AcceptorEvent::WouldBlock => (
                AcceptorState::Polling,
                AcceptorAction::AwaitNotification,
            ),
            AcceptorEvent::AcceptFailed => (AcceptorState::Polling, AcceptorAction::Report),
            AcceptorEvent::PoolJoined => (
                AcceptorState::Polling,
                AcceptorAction::AwaitNotification,
            ),
        },
        AcceptorState::Draining => match event {
            AcceptorEvent::PoolJoined => (AcceptorState::Stopped, AcceptorAction::Exit),
            _ => (AcceptorState::Draining, AcceptorAction::DisposePool),
        },
        AcceptorState::Stopped => (AcceptorState::Stopped, AcceptorAction::Exit),
    }
}

/// Where the acceptor stands after a sequence of events.
pub open spec fn acceptor_run(state: AcceptorState, events: Seq<AcceptorEvent>) -> AcceptorState
    decreases events.len(),
{
    if events.len() == 0 {
        state
    } else {
        acceptor_step(acceptor_run(state, events.drop_last()), events.last()).0
    }
}

/// What the acceptor does about the event at position `k` of a sequence
/// of events.
pub open spec fn acceptor_action(
    state: AcceptorState,
    events: Seq<AcceptorEvent>,
    k: int,
) -> AcceptorAction {
    acceptor_step(acceptor_run(state, events.take(k)), events[k]).1
}

/// The connection acceptor.
pub struct Acceptor {
    state: AcceptorState,
}

impl View for Acceptor {
    type V = AcceptorState;

    closed spec fn view(&self) -> AcceptorState {
        self.state
    }
}

impl Acceptor {
    /// An acceptor that polls. Its first action is to wait for a
    /// notification.
    pub fn new() -> (r: Acceptor)
        ensures
            r@ == AcceptorState::Polling,
    {
        Acceptor { state: AcceptorState::Polling }
    }

    /// Where the acceptor stands.
    pub fn state(&self) -> (r: AcceptorState)
        ensures
            r == self@,
    {
        self.state
    }

    /// Takes an event and says what to do next.
    pub fn step(&mut self, event: AcceptorEvent) -> (action: AcceptorAction)
        ensures
            (final(self)@, action) == acceptor_step(old(self)@, event),
    {
        let (next, action): (AcceptorState, AcceptorAction) = match self.state {
            AcceptorState::Polling => match event {
                AcceptorEvent::Notified(State::Terminated) => (
                    AcceptorState::Draining,
                    AcceptorAction::DisposePool,
                ),
                AcceptorEvent::Notified(State::Running) => (
                    AcceptorState::Polling,
                    AcceptorAction::TryAccept,
                ),
                AcceptorEvent::WaitElapsed => (AcceptorState::Polling, AcceptorAction::TryAccept),
                AcceptorEvent::Accepted => (AcceptorState::Polling, AcceptorAction::Submit),
                AcceptorEvent::WouldBlock => (
                    AcceptorState::Polling,
                    AcceptorAction::AwaitNotification,
                ),
                AcceptorEvent::AcceptFailed => (AcceptorState::Polling, AcceptorAction::Report),
                AcceptorEvent::PoolJoined => (
                    AcceptorState::Polling,
                    AcceptorAction::AwaitNotification,
                ),
            },
            AcceptorState::Draining => match event {
                AcceptorEvent::PoolJoined => (AcceptorState::Stopped, AcceptorAction::Exit),
                _ => (AcceptorState::Draining, AcceptorAction::DisposePool),
            },
            AcceptorState::Stopped => (AcceptorState::Stopped, AcceptorAction::Exit),
        };
        self.state = next;
        action
    }
}

/// The acceptor polls until termination is notified, and nothing else ends
/// its polling: no connection, no failure to accept and no other signal.
pub proof fn lemma_only_termination_ends_polling(event: AcceptorEvent)
    ensures
        acceptor_step(AcceptorState::Polling, event).0 != AcceptorState::Polling <==> event
            == AcceptorEvent::Notified(State::Terminated),
        acceptor_step(AcceptorState::Polling, event).1 == AcceptorAction::Submit <==> event
            == AcceptorEvent::Accepted,
{
}

/// How far the acceptor has come: polling, then draining, then stopped.
pub open spec fn acceptor_rank(state: AcceptorState) -> nat {
    match state {
        AcceptorState::Polling => 0,
        AcceptorState::Draining => 1,
        AcceptorState::Stopped => 2,
    }
}

/// The acceptor never goes back: whatever events arrive, it stands at
/// least as far as it stood before them.
pub proof fn lemma_acceptor_never_goes_back(state: AcceptorState, events: Seq<AcceptorEvent>)
    ensures
        acceptor_rank(state) <= acceptor_rank(acceptor_run(state, events)),
    decreases events.len(),
{
    if events.len() > 0 {
        lemma_acceptor_never_goes_back(state, events.drop_last());
    }
}

/// After a notification of `Terminated` at position `i`, the acceptor is
/// no longer polling: it stands at draining or beyond after every longer
/// prefix of the events.
pub proof fn lemma_acceptor_leaves_polling(events: Seq<AcceptorEvent>, i: int, k: int)
    requires
        0 <= i < k <= events.len(),
        events[i] == AcceptorEvent::Notified(State::Terminated),
    ensures
        acceptor_run(AcceptorState::Polling, events.take(k)) != AcceptorState::Polling,
    decreases k - i,
{
    let prefix: Seq<AcceptorEvent> = events.take(k);
    assert(prefix.drop_last() =~= events.take(k - 1));
    assert(prefix.last() == events[k - 1]);
    if k - 1 > i {
        lemma_acceptor_leaves_polling(events, i, k - 1);
    }
}

/// Once `Terminated` has been notified, no connection is accepted or
/// submitted any more: every later event is answered by disposing of the
/// pool or by leaving the loop.
pub proof fn lemma_no_work_after_termination(events: Seq<AcceptorEvent>, i: int, k: int)
    requires
        0 <= i < k < events.len(),
        events[i] == AcceptorEvent::Notified(State::Terminated),
    ensures
        acceptor_action(AcceptorState::Polling, events, k) == AcceptorAction::DisposePool
            || acceptor_action(AcceptorState::Polling, events, k) == AcceptorAction::Exit,
{
    lemma_acceptor_leaves_polling(events, i, k);
}

/// The acceptor leaves the loop only after termination was notified and,
/// after that, the pool has joined.
pub proof fn lemma_exit_follows_join(events: Seq<AcceptorEvent>, k: int)
    requires
        0 <= k < events.len(),
        acceptor_action(AcceptorState::Polling, events, k) == AcceptorAction::Exit,
    ensures
        exists|i: int, j: int|
            0 <= i < j <= k && events[i] == AcceptorEvent::Notified(State::Terminated)
                && events[j] == AcceptorEvent::PoolJoined,
    decreases k,
{
    let before: AcceptorState = acceptor_run(AcceptorState::Polling, events.take(k));
    if before == AcceptorState::Draining {
        lemma_draining_follows_termination(events, k);
        let i: int = choose|i: int|
            0 <= i < k && events[i] == AcceptorEvent::Notified(State::Terminated);
        assert(0 <= i < k <= k && events[i] == AcceptorEvent::Notified(State::Terminated)
            && events[k] == AcceptorEvent::PoolJoined);
    } else {
        assert(before == AcceptorState::Stopped);
        assert(k > 0);
        let prefix: Seq<AcceptorEvent> = events.take(k);
        assert(prefix.drop_last() =~= events.take(k - 1));
        assert(prefix.last() == events[k - 1]);
        assert(acceptor_action(AcceptorState::Polling, events, k - 1) == AcceptorAction::Exit);
        lemma_exit_follows_join(events, k - 1);
        let (i, j): (int, int) = choose|i: int, j: int|
            0 <= i < j <= k - 1 && events[i] == AcceptorEvent::Notified(State::Terminated)
                && events[j] == AcceptorEvent::PoolJoined;
        assert(0 <= i < j <= k && events[i] == AcceptorEvent::Notified(State::Terminated)
            && events[j] == AcceptorEvent::PoolJoined);
    }
}

/// The acceptor drains only after termination was notified.
pub proof fn lemma_draining_follows_termination(events: Seq<AcceptorEvent>, k: int)
    requires
        0 <= k <= events.len(),
        acceptor_run(AcceptorState::Polling, events.take(k)) == AcceptorState::Draining,
    ensures
        exists|i: int| 0 <= i < k && events[i] == AcceptorEvent::Notified(State::Terminated),
    decreases k,
{
    let prefix: Seq<AcceptorEvent> = events.take(k);
    assert(k > 0);
    assert(prefix.drop_last() =~= events.take(k - 1));
    assert(prefix.last() == events[k - 1]);
    let before: AcceptorState = acceptor_run(AcceptorState::Polling, events.take(k - 1));
    if before == AcceptorState::Polling {
        assert(events[k - 1] == AcceptorEvent::Notified(State::Terminated));
    } else {
        lemma_draining_follows_termination(events, k - 1);
        let i: int = choose|i: int|
            0 <= i < k - 1 && events[i] == AcceptorEvent::Notified(State::Terminated);
        assert(0 <= i < k && events[i] == AcceptorEvent::Notified(State::Terminated));
    }
}

/// A line of the operator is the stop command when its lower-case form
/// begins with `exit`.
pub open spec fn is_stop_text(line: Seq<char>) -> bool {
    "exit"@.is_prefix_of(lowercase_of(line))
}

/// Tells whether a line of the operator is the stop command. Anything else
/// is ignored.
pub fn is_stop_command(line: &str) -> (r: bool)
    ensures
        r == is_stop_text(line@),
{
    let lowered: String = to_lowercase(line);
    starts_with(lowered.as_str(), "exit")
}

} // verus!
